use vstd::prelude::*;
use crate::text::to_uppercase_string;
use crate::text::{all_ascii, ascii_upper, spec_to_uppercase};
use vstd::std_specs::cmp::PartialEqSpecImpl;

verus! {

/// A named port of a component; `width` is the number of bits it carries.
#[derive(Debug, Clone, PartialEq, Eq)]
pub struct PortSpec {
    pub name: String,
    pub width: u8,
}

impl PortSpec {
    pub fn new(name: &str, width: u8) -> (r: Self)
        ensures
            r.name@ == name@,
            r.width == width,
    {
        PortSpec { name: String::from_str(name), width }
    }

    /// A port that carries one bit.
    pub fn single_bit(name: &str) -> (r: Self)
        ensures
            r.name@ == name@,
            r.width == 1,
    {
        Self::new(name, 1)
    }
}

/// Which clock edge a sequential step reacts to.
#[derive(Debug, Clone, Copy, PartialEq, Eq, Hash, Structural)]
pub enum ClockEdge {
    Rising,
    Falling,
}

/// Every kind of component the simulator knows, including instances of
/// user-defined subcircuits (named by their definition).
#[derive(Debug, Hash)]
pub enum GateKind {
    And,
    Or,
    Not,
    Nand,
    Nor,
    Xor,
    Xnor,
    ToggleSwitch,
    Led,
    Clock,
    BinaryDisplay4,
    HexDisplay,
    SevenSegment,
    HalfAdder,
    FullAdder,
    HalfSubtractor,
    FullSubtractor,
    RippleCarryAdder4,
    CarryLookaheadAdder4,
    SrLatch,
    DLatch,
    DFlipFlop,
    JkFlipFlop,
    TFlipFlop,
    Register4,
    ShiftRegister4,
    Counter4,
    ClockDivider,
    Mux2,
    Mux4,
    Demux2,
    Demux4,
    Encoder4to2,
    Decoder2to4,
    Comparator2,
    Alu4,
    Rom16x4,
    Ram16x4,
    SubcircuitInstance(String),
}

/// Position of the variant in the declaration; subcircuit instances come last.
pub open spec fn kind_tag(k: GateKind) -> nat {
    match k {
        GateKind::And => 0,
        GateKind::Or => 1,
        GateKind::Not => 2,
        GateKind::Nand => 3,
        GateKind::Nor => 4,
        GateKind::Xor => 5,
        GateKind::Xnor => 6,
        GateKind::ToggleSwitch => 7,
        GateKind::Led => 8,
        GateKind::Clock => 9,
        GateKind::BinaryDisplay4 => 10,
        GateKind::HexDisplay => 11,
        GateKind::SevenSegment => 12,
        GateKind::HalfAdder => 13,
        GateKind::FullAdder => 14,
        GateKind::HalfSubtractor => 15,
        GateKind::FullSubtractor => 16,
        GateKind::RippleCarryAdder4 => 17,
        GateKind::CarryLookaheadAdder4 => 18,
        GateKind::SrLatch => 19,
        GateKind::DLatch => 20,
        GateKind::DFlipFlop => 21,
        GateKind::JkFlipFlop => 22,
        GateKind::TFlipFlop => 23,
        GateKind::Register4 => 24,
        GateKind::ShiftRegister4 => 25,
        GateKind::Counter4 => 26,
        GateKind::ClockDivider => 27,
        GateKind::Mux2 => 28,
        GateKind::Mux4 => 29,
        GateKind::Demux2 => 30,
        GateKind::Demux4 => 31,
        GateKind::Encoder4to2 => 32,
        GateKind::Decoder2to4 => 33,
        GateKind::Comparator2 => 34,
        GateKind::Alu4 => 35,
        GateKind::Rom16x4 => 36,
        GateKind::Ram16x4 => 37,
        GateKind::SubcircuitInstance(_) => 38,
    }
}

/// Two kinds are the same: same variant, and for subcircuit instances the
/// same definition name.
pub open spec fn same_kind(a: GateKind, b: GateKind) -> bool {
    match (a, b) {
        (GateKind::SubcircuitInstance(x), GateKind::SubcircuitInstance(y)) => x@ == y@,
        _ => kind_tag(a) == kind_tag(b),
    }
}

/// Human-readable name of a kind.
pub open spec fn spec_display_name(k: GateKind) -> Seq<char> {
    match k {
        GateKind::And => "AND Gate"@,
        GateKind::Or => "OR Gate"@,
        GateKind::Not => "NOT Gate"@,
        GateKind::Nand => "NAND Gate"@,
        GateKind::Nor => "NOR Gate"@,
        GateKind::Xor => "XOR Gate"@,
        GateKind::Xnor => "XNOR Gate"@,
        GateKind::ToggleSwitch => "Toggle Switch"@,
        GateKind::Led => "LED"@,
        GateKind::Clock => "Clock Source"@,
        GateKind::BinaryDisplay4 => "4-Bit Binary Display"@,
        GateKind::HexDisplay => "Hex Display"@,
        GateKind::SevenSegment => "7-Segment Display"@,
        GateKind::HalfAdder => "Half Adder"@,
        GateKind::FullAdder => "Full Adder"@,
        GateKind::HalfSubtractor => "Half Subtractor"@,
        GateKind::FullSubtractor => "Full Subtractor"@,
        GateKind::RippleCarryAdder4 => "4-Bit Ripple Carry Adder"@,
        GateKind::CarryLookaheadAdder4 => "4-Bit Carry-Lookahead Adder"@,
        GateKind::SrLatch => "SR Latch"@,
        GateKind::DLatch => "D Latch"@,
        GateKind::DFlipFlop => "D Flip-Flop"@,
        GateKind::JkFlipFlop => "JK Flip-Flop"@,
        GateKind::TFlipFlop => "T Flip-Flop"@,
        GateKind::Register4 => "4-Bit Register"@,
        GateKind::ShiftRegister4 => "4-Bit Shift Register"@,
        GateKind::Counter4 => "4-Bit Counter"@,
        GateKind::ClockDivider => "Clock Divider (/2, /4)"@,
        GateKind::Mux2 => "2:1 Multiplexer"@,
        GateKind::Mux4 => "4:1 Multiplexer"@,
        GateKind::Demux2 => "1:2 Demultiplexer"@,
        GateKind::Demux4 => "1:4 Demultiplexer"@,
        GateKind::Encoder4to2 => "4:2 Priority Encoder"@,
        GateKind::Decoder2to4 => "2:4 Decoder"@,
        GateKind::Comparator2 => "2-Bit Comparator"@,
        GateKind::Alu4 => "4-Bit ALU"@,
        GateKind::Rom16x4 => "16x4 ROM"@,
        GateKind::Ram16x4 => "16x4 RAM"@,
        GateKind::SubcircuitInstance(name) => "IC: "@ + name@,
    }
}

/// Short code shown on component bodies; for a subcircuit, its first four
/// characters in upper case.
pub open spec fn spec_short_code(k: GateKind) -> Seq<char> {
    match k {
        GateKind::And => "AND"@,
        GateKind::Or => "OR"@,
        GateKind::Not => "NOT"@,
        GateKind::Nand => "NAND"@,
        GateKind::Nor => "NOR"@,
        GateKind::Xor => "XOR"@,
        GateKind::Xnor => "XNOR"@,
        GateKind::ToggleSwitch => "SW"@,
        GateKind::Led => "LED"@,
        GateKind::Clock => "CLK"@,
        GateKind::BinaryDisplay4 => "BIN4"@,
        GateKind::HexDisplay => "HEX"@,
        GateKind::SevenSegment => "7SEG"@,
        GateKind::HalfAdder => "HA"@,
        GateKind::FullAdder => "FA"@,
        GateKind::HalfSubtractor => "HS"@,
        GateKind::FullSubtractor => "FS"@,
        GateKind::RippleCarryAdder4 => "ADD4"@,
        GateKind::CarryLookaheadAdder4 => "CLA4"@,
        GateKind::SrLatch => "SR"@,
        GateKind::DLatch => "DLAT"@,
        GateKind::DFlipFlop => "DFF"@,
        GateKind::JkFlipFlop => "JKFF"@,
        GateKind::TFlipFlop => "TFF"@,
        GateKind::Register4 => "REG4"@,
        GateKind::ShiftRegister4 => "SHF4"@,
        GateKind::Counter4 => "CNT4"@,
        GateKind::ClockDivider => "DIV"@,
        GateKind::Mux2 => "MUX2"@,
        GateKind::Mux4 => "MUX4"@,
        GateKind::Demux2 => "DMX2"@,
        GateKind::Demux4 => "DMX4"@,
        GateKind::Encoder4to2 => "ENC"@,
        GateKind::Decoder2to4 => "DEC"@,
        GateKind::Comparator2 => "CMP"@,
        GateKind::Alu4 => "ALU4"@,
        GateKind::Rom16x4 => "ROM"@,
        GateKind::Ram16x4 => "RAM"@,
        GateKind::SubcircuitInstance(name) => spec_to_uppercase(name@.take(if name@.len() < 4 { name@.len() as int } else { 4 })),
    }
}

/// Palette category of a kind.
pub open spec fn spec_category(k: GateKind) -> Seq<char> {
    match k {
        GateKind::And => "Logic Gates"@,
        GateKind::Or => "Logic Gates"@,
        GateKind::Not => "Logic Gates"@,
        GateKind::Nand => "Logic Gates"@,
        GateKind::Nor => "Logic Gates"@,
        GateKind::Xor => "Logic Gates"@,
        GateKind::Xnor => "Logic Gates"@,
        GateKind::ToggleSwitch => "Input / Output"@,
        GateKind::Led => "Input / Output"@,
        GateKind::Clock => "Input / Output"@,
        GateKind::BinaryDisplay4 => "Displays"@,
        GateKind::HexDisplay => "Displays"@,
        GateKind::SevenSegment => "Displays"@,
        GateKind::HalfAdder => "Arithmetic"@,
        GateKind::FullAdder => "Arithmetic"@,
        GateKind::HalfSubtractor => "Arithmetic"@,
        GateKind::FullSubtractor => "Arithmetic"@,
        GateKind::RippleCarryAdder4 => "Arithmetic"@,
        GateKind::CarryLookaheadAdder4 => "Arithmetic"@,
        GateKind::SrLatch => "Sequential"@,
        GateKind::DLatch => "Sequential"@,
        GateKind::DFlipFlop => "Sequential"@,
        GateKind::JkFlipFlop => "Sequential"@,
        GateKind::TFlipFlop => "Sequential"@,
        GateKind::Register4 => "Sequential"@,
        GateKind::ShiftRegister4 => "Sequential"@,
        GateKind::Counter4 => "Sequential"@,
        GateKind::ClockDivider => "Sequential"@,
        GateKind::Mux2 => "Routing & Selection"@,
        GateKind::Mux4 => "Routing & Selection"@,
        GateKind::Demux2 => "Routing & Selection"@,
        GateKind::Demux4 => "Routing & Selection"@,
        GateKind::Encoder4to2 => "Routing & Selection"@,
        GateKind::Decoder2to4 => "Routing & Selection"@,
        GateKind::Comparator2 => "Routing & Selection"@,
        GateKind::Alu4 => "Computer Blocks"@,
        GateKind::Rom16x4 => "Computer Blocks"@,
        GateKind::Ram16x4 => "Computer Blocks"@,
        GateKind::SubcircuitInstance(name) => "Subcircuits"@,
    }
}

/// Default number of input ports.
pub open spec fn spec_input_count(k: GateKind) -> nat {
    match k {
        GateKind::And => 2,
        GateKind::Or => 2,
        GateKind::Not => 1,
        GateKind::Nand => 2,
        GateKind::Nor => 2,
        GateKind::Xor => 2,
        GateKind::Xnor => 2,
        GateKind::ToggleSwitch => 0,
        GateKind::Led => 1,
        GateKind::Clock => 0,
        GateKind::BinaryDisplay4 => 4,
        GateKind::HexDisplay => 4,
        GateKind::SevenSegment => 7,
        GateKind::HalfAdder => 2,
        GateKind::FullAdder => 3,
        GateKind::HalfSubtractor => 2,
        GateKind::FullSubtractor => 3,
        GateKind::RippleCarryAdder4 => 9,
        GateKind::CarryLookaheadAdder4 => 9,
        GateKind::SrLatch => 2,
        GateKind::DLatch => 2,
        GateKind::DFlipFlop => 2,
        GateKind::JkFlipFlop => 3,
        GateKind::TFlipFlop => 2,
        GateKind::Register4 => 5,
        GateKind::ShiftRegister4 => 5,
        GateKind::Counter4 => 5,
        GateKind::ClockDivider => 2,
        GateKind::Mux2 => 3,
        GateKind::Mux4 => 6,
        GateKind::Demux2 => 2,
        GateKind::Demux4 => 4,
        GateKind::Encoder4to2 => 4,
        GateKind::Decoder2to4 => 2,
        GateKind::Comparator2 => 4,
        GateKind::Alu4 => 11,
        GateKind::Rom16x4 => 4,
        GateKind::Ram16x4 => 10,
        GateKind::SubcircuitInstance(_) => 2,
    }
}

/// Default number of output ports.
pub open spec fn spec_output_count(k: GateKind) -> nat {
    match k {
        GateKind::And => 1,
        GateKind::Or => 1,
        GateKind::Not => 1,
        GateKind::Nand => 1,
        GateKind::Nor => 1,
        GateKind::Xor => 1,
        GateKind::Xnor => 1,
        GateKind::ToggleSwitch => 1,
        GateKind::Led => 0,
        GateKind::Clock => 1,
        GateKind::BinaryDisplay4 => 0,
        GateKind::HexDisplay => 0,
        GateKind::SevenSegment => 0,
        GateKind::HalfAdder => 2,
        GateKind::FullAdder => 2,
        GateKind::HalfSubtractor => 2,
        GateKind::FullSubtractor => 2,
        GateKind::RippleCarryAdder4 => 5,
        GateKind::CarryLookaheadAdder4 => 5,
        GateKind::SrLatch => 2,
        GateKind::DLatch => 2,
        GateKind::DFlipFlop => 2,
        GateKind::JkFlipFlop => 2,
        GateKind::TFlipFlop => 2,
        GateKind::Register4 => 4,
        GateKind::ShiftRegister4 => 4,
        GateKind::Counter4 => 4,
        GateKind::ClockDivider => 2,
        GateKind::Mux2 => 1,
        GateKind::Mux4 => 1,
        GateKind::Demux2 => 2,
        GateKind::Demux4 => 4,
        GateKind::Encoder4to2 => 2,
        GateKind::Decoder2to4 => 4,
        GateKind::Comparator2 => 3,
        GateKind::Alu4 => 6,
        GateKind::Rom16x4 => 4,
        GateKind::Ram16x4 => 4,
        GateKind::SubcircuitInstance(_) => 1,
    }
}

/// Whether the kind keeps state between evaluations.
pub open spec fn spec_is_sequential(k: GateKind) -> bool {
    match k {
        GateKind::And => false,
        GateKind::Or => false,
        GateKind::Not => false,
        GateKind::Nand => false,
        GateKind::Nor => false,
        GateKind::Xor => false,
        GateKind::Xnor => false,
        GateKind::ToggleSwitch => false,
        GateKind::Led => false,
        GateKind::Clock => true,
        GateKind::BinaryDisplay4 => false,
        GateKind::HexDisplay => false,
        GateKind::SevenSegment => false,
        GateKind::HalfAdder => false,
        GateKind::FullAdder => false,
        GateKind::HalfSubtractor => false,
        GateKind::FullSubtractor => false,
        GateKind::RippleCarryAdder4 => false,
        GateKind::CarryLookaheadAdder4 => false,
        GateKind::SrLatch => true,
        GateKind::DLatch => true,
        GateKind::DFlipFlop => true,
        GateKind::JkFlipFlop => true,
        GateKind::TFlipFlop => true,
        GateKind::Register4 => true,
        GateKind::ShiftRegister4 => true,
        GateKind::Counter4 => true,
        GateKind::ClockDivider => true,
        GateKind::Mux2 => false,
        GateKind::Mux4 => false,
        GateKind::Demux2 => false,
        GateKind::Demux4 => false,
        GateKind::Encoder4to2 => false,
        GateKind::Decoder2to4 => false,
        GateKind::Comparator2 => false,
        GateKind::Alu4 => false,
        GateKind::Rom16x4 => false,
        GateKind::Ram16x4 => true,
        GateKind::SubcircuitInstance(_) => false,
    }
}

impl GateKind {
    /// Position of the variant in the declaration.
    pub fn tag(&self) -> (r: u8)
        ensures
            r as nat == kind_tag(*self),
    {
        match self {
            GateKind::And => 0,
            GateKind::Or => 1,
            GateKind::Not => 2,
            GateKind::Nand => 3,
            GateKind::Nor => 4,
            GateKind::Xor => 5,
            GateKind::Xnor => 6,
            GateKind::ToggleSwitch => 7,
            GateKind::Led => 8,
            GateKind::Clock => 9,
            GateKind::BinaryDisplay4 => 10,
            GateKind::HexDisplay => 11,
            GateKind::SevenSegment => 12,
            GateKind::HalfAdder => 13,
            GateKind::FullAdder => 14,
            GateKind::HalfSubtractor => 15,
            GateKind::FullSubtractor => 16,
            GateKind::RippleCarryAdder4 => 17,
            GateKind::CarryLookaheadAdder4 => 18,
            GateKind::SrLatch => 19,
            GateKind::DLatch => 20,
            GateKind::DFlipFlop => 21,
            GateKind::JkFlipFlop => 22,
            GateKind::TFlipFlop => 23,
            GateKind::Register4 => 24,
            GateKind::ShiftRegister4 => 25,
            GateKind::Counter4 => 26,
            GateKind::ClockDivider => 27,
            GateKind::Mux2 => 28,
            GateKind::Mux4 => 29,
            GateKind::Demux2 => 30,
            GateKind::Demux4 => 31,
            GateKind::Encoder4to2 => 32,
            GateKind::Decoder2to4 => 33,
            GateKind::Comparator2 => 34,
            GateKind::Alu4 => 35,
            GateKind::Rom16x4 => 36,
            GateKind::Ram16x4 => 37,
            GateKind::SubcircuitInstance(_) => 38,
        }
    }

    /// The field-less kind at a position of the declaration.
    fn from_tag(t: u8) -> (r: GateKind)
        requires
            t < 38,
        ensures
            kind_tag(r) == t,
            !(r is SubcircuitInstance),
    {
        match t {
            0 => GateKind::And,
            1 => GateKind::Or,
            2 => GateKind::Not,
            3 => GateKind::Nand,
            4 => GateKind::Nor,
            5 => GateKind::Xor,
            6 => GateKind::Xnor,
            7 => GateKind::ToggleSwitch,
            8 => GateKind::Led,
            9 => GateKind::Clock,
            10 => GateKind::BinaryDisplay4,
            11 => GateKind::HexDisplay,
            12 => GateKind::SevenSegment,
            13 => GateKind::HalfAdder,
            14 => GateKind::FullAdder,
            15 => GateKind::HalfSubtractor,
            16 => GateKind::FullSubtractor,
            17 => GateKind::RippleCarryAdder4,
            18 => GateKind::CarryLookaheadAdder4,
            19 => GateKind::SrLatch,
            20 => GateKind::DLatch,
            21 => GateKind::DFlipFlop,
            22 => GateKind::JkFlipFlop,
            23 => GateKind::TFlipFlop,
            24 => GateKind::Register4,
            25 => GateKind::ShiftRegister4,
            26 => GateKind::Counter4,
            27 => GateKind::ClockDivider,
            28 => GateKind::Mux2,
            29 => GateKind::Mux4,
            30 => GateKind::Demux2,
            31 => GateKind::Demux4,
            32 => GateKind::Encoder4to2,
            33 => GateKind::Decoder2to4,
            34 => GateKind::Comparator2,
            35 => GateKind::Alu4,
            36 => GateKind::Rom16x4,
            _ => GateKind::Ram16x4,
        }
    }

    /// Human-readable name, e.g. "AND Gate" or "IC: name".
    pub fn display_name(&self) -> (r: String)
        ensures
            r@ == spec_display_name(*self),
    {
        match self {
            GateKind::And => String::from_str("AND Gate"),
            GateKind::Or => String::from_str("OR Gate"),
            GateKind::Not => String::from_str("NOT Gate"),
            GateKind::Nand => String::from_str("NAND Gate"),
            GateKind::Nor => String::from_str("NOR Gate"),
            GateKind::Xor => String::from_str("XOR Gate"),
            GateKind::Xnor => String::from_str("XNOR Gate"),
            GateKind::ToggleSwitch => String::from_str("Toggle Switch"),
            GateKind::Led => String::from_str("LED"),
            GateKind::Clock => String::from_str("Clock Source"),
            GateKind::BinaryDisplay4 => String::from_str("4-Bit Binary Display"),
            GateKind::HexDisplay => String::from_str("Hex Display"),
            GateKind::SevenSegment => String::from_str("7-Segment Display"),
            GateKind::HalfAdder => String::from_str("Half Adder"),
            GateKind::FullAdder => String::from_str("Full Adder"),
            GateKind::HalfSubtractor => String::from_str("Half Subtractor"),
            GateKind::FullSubtractor => String::from_str("Full Subtractor"),
            GateKind::RippleCarryAdder4 => String::from_str("4-Bit Ripple Carry Adder"),
            GateKind::CarryLookaheadAdder4 => String::from_str("4-Bit Carry-Lookahead Adder"),
            GateKind::SrLatch => String::from_str("SR Latch"),
            GateKind::DLatch => String::from_str("D Latch"),
            GateKind::DFlipFlop => String::from_str("D Flip-Flop"),
            GateKind::JkFlipFlop => String::from_str("JK Flip-Flop"),
            GateKind::TFlipFlop => String::from_str("T Flip-Flop"),
            GateKind::Register4 => String::from_str("4-Bit Register"),
            GateKind::ShiftRegister4 => String::from_str("4-Bit Shift Register"),
            GateKind::Counter4 => String::from_str("4-Bit Counter"),
            GateKind::ClockDivider => String::from_str("Clock Divider (/2, /4)"),
            GateKind::Mux2 => String::from_str("2:1 Multiplexer"),
            GateKind::Mux4 => String::from_str("4:1 Multiplexer"),
            GateKind::Demux2 => String::from_str("1:2 Demultiplexer"),
            GateKind::Demux4 => String::from_str("1:4 Demultiplexer"),
            GateKind::Encoder4to2 => String::from_str("4:2 Priority Encoder"),
            GateKind::Decoder2to4 => String::from_str("2:4 Decoder"),
            GateKind::Comparator2 => String::from_str("2-Bit Comparator"),
            GateKind::Alu4 => String::from_str("4-Bit ALU"),
            GateKind::Rom16x4 => String::from_str("16x4 ROM"),
            GateKind::Ram16x4 => String::from_str("16x4 RAM"),
            GateKind::SubcircuitInstance(name) => {
                let mut s = String::from_str("IC: ");
                s.append(name.as_str());
                s
            },
        }
    }

    /// Short code drawn on the component body; for a subcircuit with an
    /// ASCII name, the ASCII upper case of its first four characters.
    pub fn short_code(&self) -> (r: String)
        ensures
            r@ == spec_short_code(*self),
            self matches GateKind::SubcircuitInstance(name) ==> (all_ascii(name@) ==> r@ == name@.take(
                if name@.len() < 4 { name@.len() as int } else { 4 },
            ).map_values(|c: char| ascii_upper(c))),
    {
        match self {
            GateKind::And => String::from_str("AND"),
            GateKind::Or => String::from_str("OR"),
            GateKind::Not => String::from_str("NOT"),
            GateKind::Nand => String::from_str("NAND"),
            GateKind::Nor => String::from_str("NOR"),
            GateKind::Xor => String::from_str("XOR"),
            GateKind::Xnor => String::from_str("XNOR"),
            GateKind::ToggleSwitch => String::from_str("SW"),
            GateKind::Led => String::from_str("LED"),
            GateKind::Clock => String::from_str("CLK"),
            GateKind::BinaryDisplay4 => String::from_str("BIN4"),
            GateKind::HexDisplay => String::from_str("HEX"),
            GateKind::SevenSegment => String::from_str("7SEG"),
            GateKind::HalfAdder => String::from_str("HA"),
            GateKind::FullAdder => String::from_str("FA"),
            GateKind::HalfSubtractor => String::from_str("HS"),
            GateKind::FullSubtractor => String::from_str("FS"),
            GateKind::RippleCarryAdder4 => String::from_str("ADD4"),
            GateKind::CarryLookaheadAdder4 => String::from_str("CLA4"),
            GateKind::SrLatch => String::from_str("SR"),
            GateKind::DLatch => String::from_str("DLAT"),
            GateKind::DFlipFlop => String::from_str("DFF"),
            GateKind::JkFlipFlop => String::from_str("JKFF"),
            GateKind::TFlipFlop => String::from_str("TFF"),
            GateKind::Register4 => String::from_str("REG4"),
            GateKind::ShiftRegister4 => String::from_str("SHF4"),
            GateKind::Counter4 => String::from_str("CNT4"),
            GateKind::ClockDivider => String::from_str("DIV"),
            GateKind::Mux2 => String::from_str("MUX2"),
            GateKind::Mux4 => String::from_str("MUX4"),
            GateKind::Demux2 => String::from_str("DMX2"),
            GateKind::Demux4 => String::from_str("DMX4"),
            GateKind::Encoder4to2 => String::from_str("ENC"),
            GateKind::Decoder2to4 => String::from_str("DEC"),
            GateKind::Comparator2 => String::from_str("CMP"),
            GateKind::Alu4 => String::from_str("ALU4"),
            GateKind::Rom16x4 => String::from_str("ROM"),
            GateKind::Ram16x4 => String::from_str("RAM"),
            GateKind::SubcircuitInstance(name) => {
                let n = name.as_str().unicode_len();
                let take = if n < 4 { n } else { 4 };
                let prefix = name.as_str().substring_char(0, take);
                proof {
                    assert(prefix@ =~= name@.take(take as int));
                    if all_ascii(name@) {
                        assert forall|i: int| 0 <= i < prefix@.len() implies (#[trigger] prefix@[i] as u32) < 128 by {
                            assert(prefix@[i] == name@[i]);
                        }
                    }
                }
                to_uppercase_string(prefix)
            },
        }
    }

    /// Palette category.
    pub fn category(&self) -> (r: &'static str)
        ensures
            r@ == spec_category(*self),
    {
        match self {
            GateKind::And => "Logic Gates",
            GateKind::Or => "Logic Gates",
            GateKind::Not => "Logic Gates",
            GateKind::Nand => "Logic Gates",
            GateKind::Nor => "Logic Gates",
            GateKind::Xor => "Logic Gates",
            GateKind::Xnor => "Logic Gates",
            GateKind::ToggleSwitch => "Input / Output",
            GateKind::Led => "Input / Output",
            GateKind::Clock => "Input / Output",
            GateKind::BinaryDisplay4 => "Displays",
            GateKind::HexDisplay => "Displays",
            GateKind::SevenSegment => "Displays",
            GateKind::HalfAdder => "Arithmetic",
            GateKind::FullAdder => "Arithmetic",
            GateKind::HalfSubtractor => "Arithmetic",
            GateKind::FullSubtractor => "Arithmetic",
            GateKind::RippleCarryAdder4 => "Arithmetic",
            GateKind::CarryLookaheadAdder4 => "Arithmetic",
            GateKind::SrLatch => "Sequential",
            GateKind::DLatch => "Sequential",
            GateKind::DFlipFlop => "Sequential",
            GateKind::JkFlipFlop => "Sequential",
            GateKind::TFlipFlop => "Sequential",
            GateKind::Register4 => "Sequential",
            GateKind::ShiftRegister4 => "Sequential",
            GateKind::Counter4 => "Sequential",
            GateKind::ClockDivider => "Sequential",
            GateKind::Mux2 => "Routing & Selection",
            GateKind::Mux4 => "Routing & Selection",
            GateKind::Demux2 => "Routing & Selection",
            GateKind::Demux4 => "Routing & Selection",
            GateKind::Encoder4to2 => "Routing & Selection",
            GateKind::Decoder2to4 => "Routing & Selection",
            GateKind::Comparator2 => "Routing & Selection",
            GateKind::Alu4 => "Computer Blocks",
            GateKind::Rom16x4 => "Computer Blocks",
            GateKind::Ram16x4 => "Computer Blocks",
            GateKind::SubcircuitInstance(name) => "Subcircuits",
        }
    }

    /// Default number of input ports (a subcircuit instance starts with two).
    pub fn input_count(&self) -> (r: usize)
        ensures
            r as nat == spec_input_count(*self),
    {
        match self {
            GateKind::And => 2,
            GateKind::Or => 2,
            GateKind::Not => 1,
            GateKind::Nand => 2,
            GateKind::Nor => 2,
            GateKind::Xor => 2,
            GateKind::Xnor => 2,
            GateKind::ToggleSwitch => 0,
            GateKind::Led => 1,
            GateKind::Clock => 0,
            GateKind::BinaryDisplay4 => 4,
            GateKind::HexDisplay => 4,
            GateKind::SevenSegment => 7,
            GateKind::HalfAdder => 2,
            GateKind::FullAdder => 3,
            GateKind::HalfSubtractor => 2,
            GateKind::FullSubtractor => 3,
            GateKind::RippleCarryAdder4 => 9,
            GateKind::CarryLookaheadAdder4 => 9,
            GateKind::SrLatch => 2,
            GateKind::DLatch => 2,
            GateKind::DFlipFlop => 2,
            GateKind::JkFlipFlop => 3,
            GateKind::TFlipFlop => 2,
            GateKind::Register4 => 5,
            GateKind::ShiftRegister4 => 5,
            GateKind::Counter4 => 5,
            GateKind::ClockDivider => 2,
            GateKind::Mux2 => 3,
            GateKind::Mux4 => 6,
            GateKind::Demux2 => 2,
            GateKind::Demux4 => 4,
            GateKind::Encoder4to2 => 4,
            GateKind::Decoder2to4 => 2,
            GateKind::Comparator2 => 4,
            GateKind::Alu4 => 11,
            GateKind::Rom16x4 => 4,
            GateKind::Ram16x4 => 10,
            GateKind::SubcircuitInstance(_) => 2,
        }
    }

    /// Default number of output ports.
    pub fn output_count(&self) -> (r: usize)
        ensures
            r as nat == spec_output_count(*self),
    {
        match self {
            GateKind::And => 1,
            GateKind::Or => 1,
            GateKind::Not => 1,
            GateKind::Nand => 1,
            GateKind::Nor => 1,
            GateKind::Xor => 1,
            GateKind::Xnor => 1,
            GateKind::ToggleSwitch => 1,
            GateKind::Led => 0,
            GateKind::Clock => 1,
            GateKind::BinaryDisplay4 => 0,
            GateKind::HexDisplay => 0,
            GateKind::SevenSegment => 0,
            GateKind::HalfAdder => 2,
            GateKind::FullAdder => 2,
            GateKind::HalfSubtractor => 2,
            GateKind::FullSubtractor => 2,
            GateKind::RippleCarryAdder4 => 5,
            GateKind::CarryLookaheadAdder4 => 5,
            GateKind::SrLatch => 2,
            GateKind::DLatch => 2,
            GateKind::DFlipFlop => 2,
            GateKind::JkFlipFlop => 2,
            GateKind::TFlipFlop => 2,
            GateKind::Register4 => 4,
            GateKind::ShiftRegister4 => 4,
            GateKind::Counter4 => 4,
            GateKind::ClockDivider => 2,
            GateKind::Mux2 => 1,
            GateKind::Mux4 => 1,
            GateKind::Demux2 => 2,
            GateKind::Demux4 => 4,
            GateKind::Encoder4to2 => 2,
            GateKind::Decoder2to4 => 4,
            GateKind::Comparator2 => 3,
            GateKind::Alu4 => 6,
            GateKind::Rom16x4 => 4,
            GateKind::Ram16x4 => 4,
            GateKind::SubcircuitInstance(_) => 1,
        }
    }

    /// Whether the kind keeps state between evaluations.
    pub fn is_sequential(&self) -> (r: bool)
        ensures
            r == spec_is_sequential(*self),
    {
        match self {
            GateKind::And => false,
            GateKind::Or => false,
            GateKind::Not => false,
            GateKind::Nand => false,
            GateKind::Nor => false,
            GateKind::Xor => false,
            GateKind::Xnor => false,
            GateKind::ToggleSwitch => false,
            GateKind::Led => false,
            GateKind::Clock => true,
            GateKind::BinaryDisplay4 => false,
            GateKind::HexDisplay => false,
            GateKind::SevenSegment => false,
            GateKind::HalfAdder => false,
            GateKind::FullAdder => false,
            GateKind::HalfSubtractor => false,
            GateKind::FullSubtractor => false,
            GateKind::RippleCarryAdder4 => false,
            GateKind::CarryLookaheadAdder4 => false,
            GateKind::SrLatch => true,
            GateKind::DLatch => true,
            GateKind::DFlipFlop => true,
            GateKind::JkFlipFlop => true,
            GateKind::TFlipFlop => true,
            GateKind::Register4 => true,
            GateKind::ShiftRegister4 => true,
            GateKind::Counter4 => true,
            GateKind::ClockDivider => true,
            GateKind::Mux2 => false,
            GateKind::Mux4 => false,
            GateKind::Demux2 => false,
            GateKind::Demux4 => false,
            GateKind::Encoder4to2 => false,
            GateKind::Decoder2to4 => false,
            GateKind::Comparator2 => false,
            GateKind::Alu4 => false,
            GateKind::Rom16x4 => false,
            GateKind::Ram16x4 => true,
            GateKind::SubcircuitInstance(_) => false,
        }
    }

    /// Label of input port `idx`.
    pub fn port_label_in(&self, idx: usize) -> (r: &'static str)
        ensures
            r@ == spec_port_label_in(*self, idx as int),
    {
        match self {
            GateKind::And | GateKind::Or | GateKind::Nand | GateKind::Nor | GateKind::Xor
            | GateKind::Xnor | GateKind::HalfAdder | GateKind::HalfSubtractor => {
                if idx == 0 { "A" } else { "B" }
            },
            GateKind::Not => "A",
            GateKind::FullAdder | GateKind::FullSubtractor => {
                if idx == 0 { "A" } else if idx == 1 { "B" } else { "Cin" }
            },
            GateKind::SrLatch => if idx == 0 { "S" } else { "R" },
            GateKind::DLatch => if idx == 0 { "D" } else { "EN" },
            GateKind::DFlipFlop => if idx == 0 { "D" } else { "CLK" },
            GateKind::JkFlipFlop => {
                if idx == 0 { "J" } else if idx == 1 { "K" } else { "CLK" }
            },
            GateKind::TFlipFlop => if idx == 0 { "T" } else { "CLK" },
            GateKind::ClockDivider => if idx == 0 { "CLK" } else { "RST" },
            GateKind::Mux2 => {
                if idx == 0 { "I0" } else if idx == 1 { "I1" } else { "S" }
            },
            GateKind::Mux4 => {
                if idx == 0 { "I0" }
                else if idx == 1 { "I1" }
                else if idx == 2 { "I2" }
                else if idx == 3 { "I3" }
                else if idx == 4 { "S0" }
                else { "S1" }
            },
            GateKind::Demux2 => if idx == 0 { "IN" } else { "S" },
            GateKind::Demux4 => {
                if idx == 0 { "IN" } else if idx == 1 { "EN" } else if idx == 2 { "S0" } else { "S1" }
            },
            GateKind::Comparator2 => {
                if idx == 0 { "A0" } else if idx == 1 { "A1" } else if idx == 2 { "B0" } else { "B1" }
            },
            GateKind::RippleCarryAdder4 | GateKind::CarryLookaheadAdder4 => {
                if idx == 0 { "A0" }
                else if idx == 1 { "A1" }
                else if idx == 2 { "A2" }
                else if idx == 3 { "A3" }
                else if idx == 4 { "B0" }
                else if idx == 5 { "B1" }
                else if idx == 6 { "B2" }
                else if idx == 7 { "B3" }
                else { "Cin" }
            },
            _ => "IN",
        }
    }

    /// Label of output port `idx`.
    pub fn port_label_out(&self, idx: usize) -> (r: &'static str)
        ensures
            r@ == spec_port_label_out(*self, idx as int),
    {
        match self {
            GateKind::And | GateKind::Or | GateKind::Not | GateKind::Nand | GateKind::Nor
            | GateKind::Xor | GateKind::Xnor | GateKind::ToggleSwitch | GateKind::Mux2
            | GateKind::Mux4 => "Q",
            GateKind::Clock => "CLK",
            GateKind::HalfAdder | GateKind::FullAdder => if idx == 0 { "SUM" } else { "COUT" },
            GateKind::HalfSubtractor | GateKind::FullSubtractor => {
                if idx == 0 { "DIFF" } else { "BOUT" }
            },
            GateKind::SrLatch | GateKind::DLatch | GateKind::DFlipFlop | GateKind::JkFlipFlop
            | GateKind::TFlipFlop => if idx == 0 { "Q" } else { "!Q" },
            GateKind::ClockDivider => if idx == 0 { "/2" } else { "/4" },
            GateKind::Comparator2 => {
                if idx == 0 { "A>B" } else if idx == 1 { "A=B" } else { "A<B" }
            },
            GateKind::RippleCarryAdder4 | GateKind::CarryLookaheadAdder4 => {
                if idx == 0 { "S0" }
                else if idx == 1 { "S1" }
                else if idx == 2 { "S2" }
                else if idx == 3 { "S3" }
                else { "Cout" }
            },
            _ => "OUT",
        }
    }
}

/// Label of input port `idx` of a kind.
pub open spec fn spec_port_label_in(k: GateKind, idx: int) -> Seq<char> {
    match k {
        GateKind::And | GateKind::Or | GateKind::Nand | GateKind::Nor | GateKind::Xor
        | GateKind::Xnor | GateKind::HalfAdder | GateKind::HalfSubtractor => {
            if idx == 0 { "A"@ } else { "B"@ }
        },
        GateKind::Not => "A"@,
        GateKind::FullAdder | GateKind::FullSubtractor => {
            if idx == 0 { "A"@ } else if idx == 1 { "B"@ } else { "Cin"@ }
        },
        GateKind::SrLatch => if idx == 0 { "S"@ } else { "R"@ },
        GateKind::DLatch => if idx == 0 { "D"@ } else { "EN"@ },
        GateKind::DFlipFlop => if idx == 0 { "D"@ } else { "CLK"@ },
        GateKind::JkFlipFlop => if idx == 0 { "J"@ } else if idx == 1 { "K"@ } else { "CLK"@ },
        GateKind::TFlipFlop => if idx == 0 { "T"@ } else { "CLK"@ },
        GateKind::ClockDivider => if idx == 0 { "CLK"@ } else { "RST"@ },
        GateKind::Mux2 => if idx == 0 { "I0"@ } else if idx == 1 { "I1"@ } else { "S"@ },
        GateKind::Mux4 => {
            if idx == 0 { "I0"@ }
            else if idx == 1 { "I1"@ }
            else if idx == 2 { "I2"@ }
            else if idx == 3 { "I3"@ }
            else if idx == 4 { "S0"@ }
            else { "S1"@ }
        },
        GateKind::Demux2 => if idx == 0 { "IN"@ } else { "S"@ },
        GateKind::Demux4 => {
            if idx == 0 { "IN"@ } else if idx == 1 { "EN"@ } else if idx == 2 { "S0"@ } else { "S1"@ }
        },
        GateKind::Comparator2 => {
            if idx == 0 { "A0"@ } else if idx == 1 { "A1"@ } else if idx == 2 { "B0"@ } else { "B1"@ }
        },
        GateKind::RippleCarryAdder4 | GateKind::CarryLookaheadAdder4 => {
            if idx == 0 { "A0"@ }
            else if idx == 1 { "A1"@ }
            else if idx == 2 { "A2"@ }
            else if idx == 3 { "A3"@ }
            else if idx == 4 { "B0"@ }
            else if idx == 5 { "B1"@ }
            else if idx == 6 { "B2"@ }
            else if idx == 7 { "B3"@ }
            else { "Cin"@ }
        },
        _ => "IN"@,
    }
}

/// Label of output port `idx` of a kind.
pub open spec fn spec_port_label_out(k: GateKind, idx: int) -> Seq<char> {
    match k {
        GateKind::And | GateKind::Or | GateKind::Not | GateKind::Nand | GateKind::Nor
        | GateKind::Xor | GateKind::Xnor | GateKind::ToggleSwitch | GateKind::Mux2
        | GateKind::Mux4 => "Q"@,
        GateKind::Clock => "CLK"@,
        GateKind::HalfAdder | GateKind::FullAdder => if idx == 0 { "SUM"@ } else { "COUT"@ },
        GateKind::HalfSubtractor | GateKind::FullSubtractor => if idx == 0 { "DIFF"@ } else { "BOUT"@ },
        GateKind::SrLatch | GateKind::DLatch | GateKind::DFlipFlop | GateKind::JkFlipFlop
        | GateKind::TFlipFlop => if idx == 0 { "Q"@ } else { "!Q"@ },
        GateKind::ClockDivider => if idx == 0 { "/2"@ } else { "/4"@ },
        GateKind::Comparator2 => if idx == 0 { "A>B"@ } else if idx == 1 { "A=B"@ } else { "A<B"@ },
        GateKind::RippleCarryAdder4 | GateKind::CarryLookaheadAdder4 => {
            if idx == 0 { "S0"@ }
            else if idx == 1 { "S1"@ }
            else if idx == 2 { "S2"@ }
            else if idx == 3 { "S3"@ }
            else { "Cout"@ }
        },
        _ => "OUT"@,
    }
}

impl Clone for GateKind {
    fn clone(&self) -> (r: Self)
        ensures
            r == *self,
    {
        match self {
            GateKind::SubcircuitInstance(name) => GateKind::SubcircuitInstance(name.clone()),
            _ => {
                let t = self.tag();
                let r = GateKind::from_tag(t);
                proof { lemma_tag_determines_plain(r, *self); }
                r
            },
        }
    }
}

/// Two field-less kinds with the same position are the same kind.
proof fn lemma_tag_determines_plain(a: GateKind, b: GateKind)
    requires
        !(a is SubcircuitInstance),
        !(b is SubcircuitInstance),
        kind_tag(a) == kind_tag(b),
    ensures
        a == b,
{
}

impl PartialEq for GateKind {
    fn eq(&self, other: &Self) -> (r: bool) {
        match (self, other) {
            (GateKind::SubcircuitInstance(x), GateKind::SubcircuitInstance(y)) => x.eq(y),
            _ => self.tag() == other.tag(),
        }
    }
}

impl PartialEqSpecImpl for GateKind {
    open spec fn obeys_eq_spec() -> bool {
        true
    }

    open spec fn eq_spec(&self, other: &GateKind) -> bool {
        same_kind(*self, *other)
    }
}

impl Eq for GateKind {
}

} // verus!
