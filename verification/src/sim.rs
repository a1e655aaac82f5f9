//! Component evaluation and event-driven propagation through a circuit.
use vstd::prelude::*;
use crate::component::{ClockEdge, GateKind};
use crate::graph::{
    Circuit, ComponentNode, NodeView, NetView, SubcircuitDef, lib_lookup, spec_new_node,
    valid_key,
};
use crate::signal::{Signal, spec_and, spec_or, spec_xor, spec_not, from_bool, is_bool};
use crate::slots::{
    ComponentSlots, NetSlots, component_slots, net_slots, slot_keys, slot_get, slot_set,
    slot_has, slots_wf, lemma_slot_set_keys, component_slots_get, component_slots_get_mut,
    component_slots_keys, net_slots_get, net_slots_get_mut, net_slots_keys,
};

verus! {

// ------------------------------------------------------------------
// Reading inputs
// ------------------------------------------------------------------

/// Input `i`, or `Zero` when the port does not exist.
pub open spec fn sig_at(ins: Seq<Signal>, i: int) -> Signal {
    if 0 <= i < ins.len() { ins[i] } else { Signal::Zero }
}

/// Input `i` exists and is `One`.
pub open spec fn high_at(ins: Seq<Signal>, i: int) -> bool {
    0 <= i < ins.len() && ins[i] == Signal::One
}

pub open spec fn bit(b: bool) -> nat {
    if b { 1 } else { 0 }
}

/// `2^i`.
pub open spec fn weight(i: nat) -> nat
    decreases i,
{
    if i == 0 { 1 } else { 2 * weight((i - 1) as nat) }
}

/// The unsigned number whose bit `j` is input `start + j` being high, for
/// `j < n` (least significant first).
pub open spec fn bits_value(ins: Seq<Signal>, start: int, n: nat) -> nat
    decreases n,
{
    if n == 0 {
        0
    } else {
        bits_value(ins, start, (n - 1) as nat) + bit(high_at(ins, start + n - 1)) * weight((n - 1) as nat)
    }
}

/// AND of all inputs, folded from `One`.
pub open spec fn and_all(s: Seq<Signal>) -> Signal
    decreases s.len(),
{
    if s.len() == 0 { Signal::One } else { spec_and(and_all(s.drop_last()), s.last()) }
}

/// OR of all inputs, folded from `Zero`.
pub open spec fn or_all(s: Seq<Signal>) -> Signal
    decreases s.len(),
{
    if s.len() == 0 { Signal::Zero } else { spec_or(or_all(s.drop_last()), s.last()) }
}

/// Number of inputs that are `One`.
pub open spec fn count_high(s: Seq<Signal>) -> nat
    decreases s.len(),
{
    if s.len() == 0 { 0 } else { count_high(s.drop_last()) + bit(s.last() == Signal::One) }
}

/// The four low bits of a byte as signals, least significant first.
pub open spec fn nibble_bits(v: u8) -> Seq<Signal> {
    seq![
        from_bool(v & 1u8 != 0),
        from_bool(v & 2u8 != 0),
        from_bool(v & 4u8 != 0),
        from_bool(v & 8u8 != 0),
    ]
}

/// Each memory byte equal to 1 as `One`, anything else as `Zero`.
pub open spec fn memory_bits(m: Seq<u8>) -> Seq<Signal> {
    Seq::new(m.len(), |i: int| from_bool(m[i] == 1))
}

// ------------------------------------------------------------------
// What evaluation needs of the library
// ------------------------------------------------------------------

/// An `f32` bit pattern that is a NaN.
pub open spec fn is_nan_bits(b: u32) -> bool {
    (b / 0x80_0000) % 256 == 255 && b % 0x80_0000 != 0
}

/// Switches, clocks and LEDs (the nodes a subcircuit orders by height)
/// have a vertical position that is a number.
pub open spec fn io_positions_ordered(comps: Seq<(u64, NodeView)>) -> bool {
    forall|i: int|
        0 <= i < comps.len() && is_io_kind((#[trigger] comps[i].1).kind) ==> !is_nan_bits(comps[i].1.pos.1)
}

pub open spec fn is_io_kind(k: GateKind) -> bool {
    k is ToggleSwitch || k is Clock || k is Led
}

/// Some component is a subcircuit instance (and so reads the library).
pub open spec fn has_instance(comps: Seq<(u64, NodeView)>) -> bool {
    exists|i: int| 0 <= i < comps.len() && (#[trigger] comps[i].1).kind is SubcircuitInstance
}

/// The library's definitions can be evaluated: their switches, clocks and
/// LEDs have numeric heights (evaluation orders them by height), and the
/// library of each definition that holds instances can be evaluated in turn.
pub open spec fn lib_ok(lib: Seq<(String, SubcircuitDef)>) -> bool
    decreases lib,
{
    forall|i: int|
        0 <= i < lib.len() ==> {
            let c = (#[trigger] lib[i]).1.circuit;
            &&& io_positions_ordered(component_slots(c.components))
            &&& (has_instance(component_slots(c.components)) ==> lib_ok(c.subcircuits@))
        }
}

/// Settling these components with this library can run: a library is read
/// only through instances.
pub open spec fn lib_ok_for(comps: Seq<(u64, NodeView)>, lib: Seq<(String, SubcircuitDef)>) -> bool {
    has_instance(comps) ==> lib_ok(lib)
}

} // verus!

verus! {

// ------------------------------------------------------------------
// What one evaluation of a component does
// ------------------------------------------------------------------

pub open spec fn with_state(n: NodeView, state_flag: bool) -> NodeView {
    NodeView { state_flag, ..n }
}

pub open spec fn q_pair(q: bool) -> Seq<Signal> {
    seq![from_bool(q), spec_not(from_bool(q))]
}

/// SR latch: S alone sets, R alone resets, otherwise hold.
pub open spec fn eval_sr(n: NodeView) -> (Seq<Signal>, NodeView) {
    let s = high_at(n.input_signals, 0);
    let r = high_at(n.input_signals, 1);
    let q = if s && !r { true } else if !s && r { false } else { n.state_flag };
    (q_pair(q), with_state(n, q))
}

/// D latch: transparent while EN is high.
pub open spec fn eval_d_latch(n: NodeView) -> (Seq<Signal>, NodeView) {
    let d = high_at(n.input_signals, 0);
    let en = high_at(n.input_signals, 1);
    let q = if en { d } else { n.state_flag };
    (q_pair(q), with_state(n, q))
}

/// A rising clock edge: high now, low at the previous evaluation.
pub open spec fn rising(n: NodeView, clk: bool) -> bool {
    clk && !n.clock_prev
}

/// D flip-flop: takes D on a rising edge of CLK.
pub open spec fn eval_dff(n: NodeView) -> (Seq<Signal>, NodeView) {
    let d = high_at(n.input_signals, 0);
    let clk = high_at(n.input_signals, 1);
    let q = if rising(n, clk) { d } else { n.state_flag };
    (q_pair(q), NodeView { state_flag: q, clock_prev: clk, ..n })
}

/// JK flip-flop: on a rising edge J sets, K resets, both toggle.
pub open spec fn eval_jk(n: NodeView) -> (Seq<Signal>, NodeView) {
    let j = high_at(n.input_signals, 0);
    let k = high_at(n.input_signals, 1);
    let clk = high_at(n.input_signals, 2);
    let q = if rising(n, clk) {
        if j && !k { true } else if !j && k { false } else if j && k { !n.state_flag } else { n.state_flag }
    } else {
        n.state_flag
    };
    (q_pair(q), NodeView { state_flag: q, clock_prev: clk, ..n })
}

/// T flip-flop: toggles on a rising edge while T is high.
pub open spec fn eval_tff(n: NodeView) -> (Seq<Signal>, NodeView) {
    let t = high_at(n.input_signals, 0);
    let clk = high_at(n.input_signals, 1);
    let q = if rising(n, clk) && t { !n.state_flag } else { n.state_flag };
    (q_pair(q), NodeView { state_flag: q, clock_prev: clk, ..n })
}

/// `1 - b` in a byte, wrapping around below zero.
pub open spec fn flip_bit(b: u8) -> u8 {
    if b <= 1 { (1 - b) as u8 } else { (257 - b) as u8 }
}

/// Clock divider: the /2 flag toggles on every rising edge, the /4 flag
/// when /2 falls; RST clears both.
pub open spec fn eval_divider(n: NodeView) -> (Seq<Signal>, NodeView) {
    let clk = high_at(n.input_signals, 0);
    let rst = high_at(n.input_signals, 1);
    let m = if n.memory.len() < 2 { seq![0u8, 0u8] } else { n.memory };
    let m2 = if rst {
        m.update(0, 0u8).update(1, 0u8)
    } else if rising(n, clk) {
        let a = flip_bit(m[0]);
        let b = if m[0] == 1 && a == 0 { flip_bit(m[1]) } else { m[1] };
        m.update(0, a).update(1, b)
    } else {
        m
    };
    (seq![from_bool(m2[0] == 1), from_bool(m2[1] == 1)], NodeView { memory: m2, clock_prev: clk, ..n })
}

/// The memory a register-like component works on (four zero bytes if it
/// holds fewer than four).
pub open spec fn reg_memory(n: NodeView) -> Seq<u8> {
    if n.memory.len() < 4 { Seq::new(4, |i: int| 0u8) } else { n.memory }
}

/// 4-bit register: on a rising edge of CLK (input 4) stores D0..D3.
pub open spec fn eval_register(n: NodeView) -> (Seq<Signal>, NodeView) {
    let clk = high_at(n.input_signals, 4);
    let m = reg_memory(n);
    let m2 = if rising(n, clk) {
        Seq::new(m.len(), |i: int| if i < 4 { if high_at(n.input_signals, i) { 1u8 } else { 0u8 } } else { m[i] })
    } else {
        m
    };
    (memory_bits(m2), NodeView { memory: m2, clock_prev: clk, ..n })
}

/// 4-bit shift register: on a rising edge of CLK (input 1) shifts D in at
/// bit 0.
pub open spec fn eval_shift(n: NodeView) -> (Seq<Signal>, NodeView) {
    let d = high_at(n.input_signals, 0);
    let clk = high_at(n.input_signals, 1);
    let m = reg_memory(n);
    let m2 = if rising(n, clk) {
        m.update(3, m[2]).update(2, m[1]).update(1, m[0]).update(0, if d { 1u8 } else { 0u8 })
    } else {
        m
    };
    (memory_bits(m2), NodeView { memory: m2, clock_prev: clk, ..n })
}

/// 4-bit counter: counts rising edges modulo 16; RST clears.
pub open spec fn eval_counter(n: NodeView) -> (Seq<Signal>, NodeView) {
    let clk = high_at(n.input_signals, 0);
    let rst = high_at(n.input_signals, 1);
    let m = if n.memory.len() == 0 { seq![0u8] } else { n.memory };
    let m2 = if rst {
        m.update(0, 0u8)
    } else if rising(n, clk) {
        m.update(0, ((m[0] + 1) % 16) as u8)
    } else {
        m
    };
    (nibble_bits(m2[0]), NodeView { memory: m2, clock_prev: clk, ..n })
}

/// Result and carry of the 4-bit ALU for opcode `op` on `a` and `b`
/// (both below 16): add, subtract, and, or, xor, not, shift left, shift right.
pub open spec fn alu_result(a: u8, b: u8, op: nat) -> (u8, bool) {
    if op == 0 {
        (((a + b) % 16) as u8, a + b > 15)
    } else if op == 1 {
        (((a - b) % 16) as u8, a < b)
    } else if op == 2 {
        (a & b, false)
    } else if op == 3 {
        (a | b, false)
    } else if op == 4 {
        (a ^ b, false)
    } else if op == 5 {
        ((15 - a) as u8, false)
    } else if op == 6 {
        (((2 * a) % 16) as u8, a >= 8)
    } else {
        ((a / 2) as u8, a % 2 == 1)
    }
}

/// 4-bit ALU: result bits, then zero flag, then carry.
pub open spec fn eval_alu(ins: Seq<Signal>) -> Seq<Signal> {
    let a = bits_value(ins, 0, 4) as u8;
    let b = bits_value(ins, 4, 4) as u8;
    let op = bits_value(ins, 8, 3);
    let (res, carry) = alu_result(a, b, op);
    nibble_bits(res) + seq![from_bool(res == 0), from_bool(carry)]
}

/// 16x4 RAM: on a rising edge of CLK with WE high stores DIN at ADDR; reads
/// ADDR.
pub open spec fn eval_ram(n: NodeView) -> (Seq<Signal>, NodeView) {
    let ins = n.input_signals;
    let addr = bits_value(ins, 0, 4) as int;
    let din = bits_value(ins, 4, 4) as u8;
    let we = high_at(ins, 8);
    let clk = high_at(ins, 9);
    let m = if n.memory.len() < 16 { Seq::new(16, |i: int| 0u8) } else { n.memory };
    let m2 = if rising(n, clk) && we { m.update(addr, din) } else { m };
    (nibble_bits(m2[addr]), NodeView { memory: m2, clock_prev: clk, ..n })
}

/// 16x4 ROM: reads the nibble at ADDR (0 past the end of memory).
pub open spec fn eval_rom(n: NodeView) -> Seq<Signal> {
    let addr = bits_value(n.input_signals, 0, 4) as int;
    let v = if addr < n.memory.len() { n.memory[addr] } else { 0u8 };
    nibble_bits(v)
}

/// Ripple-carry addition of A (inputs 0..3) and B (inputs 4..7) from bit
/// `i` on with carry `c`: the sum bits, then the carry out.
pub open spec fn ripple(ins: Seq<Signal>, i: nat, c: Signal) -> Seq<Signal>
    decreases 4 - i,
{
    if i >= 4 {
        seq![c]
    } else {
        let a = sig_at(ins, i as int);
        let b = sig_at(ins, 4 + i as int);
        let s = spec_xor(spec_xor(a, b), c);
        let c2 = spec_or(spec_and(a, b), spec_and(c, spec_xor(a, b)));
        seq![s] + ripple(ins, i + 1, c2)
    }
}

/// Carry-lookahead addition: propagate/generate terms, carries in closed form.
pub open spec fn eval_cla(ins: Seq<Signal>) -> Seq<Signal> {
    let c0 = sig_at(ins, 8);
    let p0 = spec_xor(sig_at(ins, 0), sig_at(ins, 4));
    let p1 = spec_xor(sig_at(ins, 1), sig_at(ins, 5));
    let p2 = spec_xor(sig_at(ins, 2), sig_at(ins, 6));
    let p3 = spec_xor(sig_at(ins, 3), sig_at(ins, 7));
    let g0 = spec_and(sig_at(ins, 0), sig_at(ins, 4));
    let g1 = spec_and(sig_at(ins, 1), sig_at(ins, 5));
    let g2 = spec_and(sig_at(ins, 2), sig_at(ins, 6));
    let g3 = spec_and(sig_at(ins, 3), sig_at(ins, 7));
    let c1 = spec_or(g0, spec_and(p0, c0));
    let c2 = spec_or(spec_or(g1, spec_and(p1, g0)), spec_and(spec_and(p1, p0), c0));
    let c3 = spec_or(
        spec_or(spec_or(g2, spec_and(p2, g1)), spec_and(spec_and(p2, p1), g0)),
        spec_and(spec_and(spec_and(p2, p1), p0), c0),
    );
    let c4 = spec_or(
        spec_or(
            spec_or(spec_or(g3, spec_and(p3, g2)), spec_and(spec_and(p3, p2), g1)),
            spec_and(spec_and(spec_and(p3, p2), p1), g0),
        ),
        spec_and(spec_and(spec_and(spec_and(p3, p2), p1), p0), c0),
    );
    seq![spec_xor(p0, c0), spec_xor(p1, c1), spec_xor(p2, c2), spec_xor(p3, c3), c4]
}

/// 4:2 priority encoder: the index of the highest high input among 1..3.
pub open spec fn eval_encoder(ins: Seq<Signal>) -> Seq<Signal> {
    let d3 = high_at(ins, 3);
    let d2 = high_at(ins, 2);
    let d1 = high_at(ins, 1);
    if d3 {
        seq![Signal::One, Signal::One]
    } else if d2 {
        seq![Signal::Zero, Signal::One]
    } else if d1 {
        seq![Signal::One, Signal::Zero]
    } else {
        seq![Signal::Zero, Signal::Zero]
    }
}

/// 1:4 demultiplexer: IN to the selected output while EN is high (EN counts
/// as high when the port is missing).
pub open spec fn eval_demux4(ins: Seq<Signal>) -> Seq<Signal> {
    let val = sig_at(ins, 0);
    let en = if ins.len() > 1 { ins[1] == Signal::One } else { true };
    let idx = bit(high_at(ins, 2)) + 2 * bit(high_at(ins, 3));
    let z = Seq::new(4, |i: int| Signal::Zero);
    if en { z.update(idx as int, val) } else { z }
}

/// 2-bit comparator: A>B, A=B, A<B.
pub open spec fn eval_comparator(ins: Seq<Signal>) -> Seq<Signal> {
    let a = bit(high_at(ins, 0)) + 2 * bit(high_at(ins, 1));
    let b = bit(high_at(ins, 2)) + 2 * bit(high_at(ins, 3));
    seq![from_bool(a > b), from_bool(a == b), from_bool(a < b)]
}

/// The outputs of a stateless kind for the given inputs and state flag
/// (subcircuit instances and the stateful kinds are handled elsewhere).
pub open spec fn eval_plain(k: GateKind, ins: Seq<Signal>, state: bool) -> Seq<Signal> {
    match k {
        GateKind::And => seq![and_all(ins)],
        GateKind::Or => seq![or_all(ins)],
        GateKind::Not => seq![spec_not(sig_at(ins, 0))],
        GateKind::Nand => seq![spec_not(and_all(ins))],
        GateKind::Nor => seq![spec_not(or_all(ins))],
        GateKind::Xor => seq![from_bool(count_high(ins) % 2 == 1)],
        GateKind::Xnor => seq![from_bool(count_high(ins) % 2 == 0)],
        GateKind::ToggleSwitch | GateKind::Clock => seq![from_bool(state)],
        GateKind::HalfAdder => {
            let a = sig_at(ins, 0);
            let b = sig_at(ins, 1);
            seq![spec_xor(a, b), spec_and(a, b)]
        },
        GateKind::FullAdder => {
            let a = sig_at(ins, 0);
            let b = sig_at(ins, 1);
            let c = sig_at(ins, 2);
            seq![spec_xor(spec_xor(a, b), c), spec_or(spec_and(a, b), spec_and(c, spec_xor(a, b)))]
        },
        GateKind::HalfSubtractor => {
            let a = sig_at(ins, 0);
            let b = sig_at(ins, 1);
            seq![spec_xor(a, b), spec_and(spec_not(a), b)]
        },
        GateKind::FullSubtractor => {
            let a = sig_at(ins, 0);
            let b = sig_at(ins, 1);
            let c = sig_at(ins, 2);
            seq![
                spec_xor(spec_xor(a, b), c),
                spec_or(spec_and(spec_not(a), b), spec_and(c, spec_not(spec_xor(a, b)))),
            ]
        },
        GateKind::RippleCarryAdder4 => ripple(ins, 0, sig_at(ins, 8)),
        GateKind::CarryLookaheadAdder4 => eval_cla(ins),
        GateKind::Mux2 => seq![if high_at(ins, 2) { sig_at(ins, 1) } else { sig_at(ins, 0) }],
        GateKind::Mux4 => seq![sig_at(ins, (bit(high_at(ins, 4)) + 2 * bit(high_at(ins, 5))) as int)],
        GateKind::Demux2 => if high_at(ins, 1) {
            seq![Signal::Zero, sig_at(ins, 0)]
        } else {
            seq![sig_at(ins, 0), Signal::Zero]
        },
        GateKind::Demux4 => eval_demux4(ins),
        GateKind::Encoder4to2 => eval_encoder(ins),
        GateKind::Decoder2to4 => Seq::new(4, |i: int| Signal::Zero).update(
            (bit(high_at(ins, 0)) + 2 * bit(high_at(ins, 1))) as int,
            Signal::One,
        ),
        GateKind::Comparator2 => eval_comparator(ins),
        GateKind::Alu4 => eval_alu(ins),
        _ => Seq::empty(),
    }
}

/// Whether a kind's evaluation changes the node (state, edge memory, memory).
pub open spec fn is_stateful_eval(k: GateKind) -> bool {
    k is SrLatch || k is DLatch || k is DFlipFlop || k is JkFlipFlop || k is TFlipFlop
        || k is ClockDivider || k is Register4 || k is ShiftRegister4 || k is Counter4
        || k is Ram16x4
}

/// Evaluates one component: its outputs for the current inputs, and the
/// component afterwards (only state, edge memory and memory change).
/// A subcircuit instance evaluates the first definition registered under
/// its name; without one it passes input 0 through.
pub open spec fn spec_eval(n: NodeView, lib: Seq<(String, SubcircuitDef)>) -> (Seq<Signal>, NodeView)
    decreases lib, 1int, 0int,
{
    match n.kind {
        GateKind::SrLatch => eval_sr(n),
        GateKind::DLatch => eval_d_latch(n),
        GateKind::DFlipFlop => eval_dff(n),
        GateKind::JkFlipFlop => eval_jk(n),
        GateKind::TFlipFlop => eval_tff(n),
        GateKind::ClockDivider => eval_divider(n),
        GateKind::Register4 => eval_register(n),
        GateKind::ShiftRegister4 => eval_shift(n),
        GateKind::Counter4 => eval_counter(n),
        GateKind::Ram16x4 => eval_ram(n),
        GateKind::Rom16x4 => (eval_rom(n), n),
        GateKind::SubcircuitInstance(name) => {
            match lib_lookup(lib, name@) {
                Some(def) => {
                    proof { lemma_lookup_decreases(lib, name@); }
                    (spec_evaluate_subcircuit(def, n.input_signals), n)
                },
                None => (seq![sig_at(n.input_signals, 0)], n),
            }
        },
        _ => (eval_plain(n.kind, n.input_signals, n.state_flag), n),
    }
}

/// A definition found in a library is smaller than the library.
pub proof fn lemma_lookup_decreases(lib: Seq<(String, SubcircuitDef)>, name: Seq<char>)
    ensures
        lib_lookup(lib, name) matches Some(d) ==> decreases_to!(lib => d),
    decreases lib.len(),
{
    if lib.len() > 0 {
        if lib[0].0@ == name {
            assert(decreases_to!(lib => lib[0]));
            assert(decreases_to!(lib[0] => lib[0].1));
        } else {
            lemma_lookup_decreases(lib.drop_first(), name);
            assert(decreases_to!(lib => lib.drop_first()));
        }
    }
}

} // verus!

verus! {

// ------------------------------------------------------------------
// Settling a circuit
// ------------------------------------------------------------------

/// The node with its outputs replaced by a fresh evaluation.
pub open spec fn spec_phase1(comps: Seq<(u64, NodeView)>, lib: Seq<(String, SubcircuitDef)>, j: int) -> Seq<(u64, NodeView)>
    decreases lib, 2int, comps.len() - j,
{
    if j < 0 || j >= comps.len() {
        comps
    } else {
        let r = spec_eval(comps[j].1, lib);
        spec_phase1(comps.update(j, (comps[j].0, NodeView { output_signals: r.0, ..r.1 })), lib, j + 1)
    }
}

/// Drives input port `s` to `sig` when its component and port exist.
pub open spec fn drive_sink(comps: Seq<(u64, NodeView)>, s: crate::graph::PortEndpoint, sig: Signal) -> Seq<(u64, NodeView)> {
    let id = s.component_id@;
    match slot_get(comps, id) {
        Some(n) => if s.port_index < n.input_signals.len() {
            slot_set(comps, id, NodeView { input_signals: n.input_signals.update(s.port_index as int, sig), ..n })
        } else {
            comps
        },
        None => comps,
    }
}

/// Drives the first `k` sinks to `sig`, in order.
pub open spec fn drive_sinks(comps: Seq<(u64, NodeView)>, sinks: Seq<crate::graph::PortEndpoint>, sig: Signal, k: int) -> Seq<(u64, NodeView)>
    decreases k,
{
    if k <= 0 || k > sinks.len() {
        comps
    } else {
        drive_sink(drive_sinks(comps, sinks, sig, k - 1), sinks[k - 1], sig)
    }
}

/// Copies a net's source output onto the net and its sinks (when the source
/// port exists).
pub open spec fn sync_net(comps: Seq<(u64, NodeView)>, nets: Seq<(u64, NetView)>, j: int) -> (Seq<(u64, NodeView)>, Seq<(u64, NetView)>) {
    let net = nets[j].1;
    match slot_get(comps, net.source.component_id@) {
        Some(src) => if net.source.port_index < src.output_signals.len() {
            let sig = src.output_signals[net.source.port_index as int];
            (
                drive_sinks(comps, net.sinks, sig, net.sinks.len() as int),
                nets.update(j, (nets[j].0, NetView { current_signal: sig, ..net })),
            )
        } else {
            (comps, nets)
        },
        None => (comps, nets),
    }
}

/// Synchronises the first `j` nets with their sources, in order.
pub open spec fn spec_phase2(comps: Seq<(u64, NodeView)>, nets: Seq<(u64, NetView)>, j: int) -> (Seq<(u64, NodeView)>, Seq<(u64, NetView)>)
    decreases j,
{
    if j <= 0 || j > nets.len() {
        (comps, nets)
    } else {
        let prev = spec_phase2(comps, nets, j - 1);
        sync_net(prev.0, prev.1, j - 1)
    }
}

/// New outputs over the old ones; old outputs past the new ones stay.
pub open spec fn merge_outputs(old: Seq<Signal>, new: Seq<Signal>) -> Seq<Signal> {
    Seq::new(
        if new.len() > old.len() { new.len() } else { old.len() },
        |i: int| if i < new.len() { new[i] } else { old[i] },
    )
}

/// The positions among the first `k` new outputs that differ from the old
/// ones (or had none), with their new values, in order.
pub open spec fn changed_outputs(old: Seq<Signal>, new: Seq<Signal>, k: int) -> Seq<(usize, Signal)>
    decreases k,
{
    if k <= 0 || k > new.len() {
        Seq::empty()
    } else {
        let r = changed_outputs(old, new, k - 1);
        let i = k - 1;
        if i >= old.len() || old[i] != new[i] { r.push((i as usize, new[i])) } else { r }
    }
}

/// The net is driven by output `idx` of component `id`.
pub open spec fn is_source(n: NetView, id: u64, idx: int) -> bool {
    n.source.component_id@ == id && n.source.is_output && n.source.port_index == idx
}

/// Position `i` holds the first net driven by output `idx` of `id`.
pub open spec fn first_source(nets: Seq<(u64, NetView)>, i: int, id: u64, idx: int) -> bool {
    &&& 0 <= i < nets.len()
    &&& is_source(nets[i].1, id, idx)
    &&& forall|j: int| 0 <= j < i ==> !is_source(#[trigger] nets[j].1, id, idx)
}

/// Drives the first `k` sinks to `sig` where their input differs, queueing
/// each changed component not yet queued.
pub open spec fn push_sinks(
    comps: Seq<(u64, NodeView)>,
    queue: Seq<u64>,
    sinks: Seq<crate::graph::PortEndpoint>,
    sig: Signal,
    k: int,
) -> (Seq<(u64, NodeView)>, Seq<u64>)
    decreases k,
{
    if k <= 0 || k > sinks.len() {
        (comps, queue)
    } else {
        let prev = push_sinks(comps, queue, sinks, sig, k - 1);
        let c = prev.0;
        let q = prev.1;
        let s = sinks[k - 1];
        let id = s.component_id@;
        match slot_get(c, id) {
            Some(n) => if s.port_index < n.input_signals.len() && n.input_signals[s.port_index as int] != sig {
                (
                    slot_set(c, id, NodeView { input_signals: n.input_signals.update(s.port_index as int, sig), ..n }),
                    if q.contains(id) { q } else { q.push(id) },
                )
            } else {
                (c, q)
            },
            None => (c, q),
        }
    }
}

/// Carries one changed output of `id` to the first net it drives and that
/// net's sinks.
pub open spec fn propagate_change(
    comps: Seq<(u64, NodeView)>,
    nets: Seq<(u64, NetView)>,
    queue: Seq<u64>,
    id: u64,
    ch: (usize, Signal),
) -> (Seq<(u64, NodeView)>, Seq<(u64, NetView)>, Seq<u64>) {
    if exists|i: int| first_source(nets, i, id, ch.0 as int) {
        let i = choose|i: int| first_source(nets, i, id, ch.0 as int);
        let net = nets[i].1;
        let r = push_sinks(comps, queue, net.sinks, ch.1, net.sinks.len() as int);
        (r.0, nets.update(i, (nets[i].0, NetView { current_signal: ch.1, ..net })), r.1)
    } else {
        (comps, nets, queue)
    }
}

/// Carries the first `k` changes, in order.
pub open spec fn propagate_all(
    comps: Seq<(u64, NodeView)>,
    nets: Seq<(u64, NetView)>,
    queue: Seq<u64>,
    id: u64,
    changes: Seq<(usize, Signal)>,
    k: int,
) -> (Seq<(u64, NodeView)>, Seq<(u64, NetView)>, Seq<u64>)
    decreases k,
{
    if k <= 0 || k > changes.len() {
        (comps, nets, queue)
    } else {
        let prev = propagate_all(comps, nets, queue, id, changes, k - 1);
        propagate_change(prev.0, prev.1, prev.2, id, changes[k - 1])
    }
}

/// Every output of every component unknown.
pub open spec fn all_outputs_x(comps: Seq<(u64, NodeView)>) -> Seq<(u64, NodeView)> {
    Seq::new(comps.len(), |i: int| node_x(comps[i]))
}

/// A component entry with every output unknown.
pub open spec fn node_x(e: (u64, NodeView)) -> (u64, NodeView) {
    (e.0, NodeView { output_signals: Seq::new(e.1.output_signals.len(), |i: int| Signal::X), ..e.1 })
}

/// Every net unknown.
pub open spec fn all_nets_x(nets: Seq<(u64, NetView)>) -> Seq<(u64, NetView)> {
    Seq::new(nets.len(), |i: int| net_x(nets[i]))
}

/// A net entry carrying an unknown signal.
pub open spec fn net_x(e: (u64, NetView)) -> (u64, NetView) {
    (e.0, NetView { current_signal: Signal::X, ..e.1 })
}

/// The work-list phase of settling: take the next queued component,
/// re-evaluate it, and carry each changed output onward. After more than
/// `max` steps every output and net becomes unknown and work stops.
pub open spec fn spec_settle_loop(
    comps: Seq<(u64, NodeView)>,
    nets: Seq<(u64, NetView)>,
    queue: Seq<u64>,
    count: int,
    max: int,
    lib: Seq<(String, SubcircuitDef)>,
) -> (Seq<(u64, NodeView)>, Seq<(u64, NetView)>)
    decreases lib, 3int, max + 1 - count,
{
    if queue.len() == 0 || count < 0 {
        (comps, nets)
    } else if count + 1 > max {
        (all_outputs_x(comps), all_nets_x(nets))
    } else {
        let id = queue[0];
        let q1 = queue.drop_first();
        match slot_get(comps, id) {
            Some(n) => {
                let r = spec_eval(n, lib);
                let changes = changed_outputs(n.output_signals, r.0, r.0.len() as int);
                let comps2 = slot_set(
                    comps,
                    id,
                    NodeView { output_signals: merge_outputs(n.output_signals, r.0), ..r.1 },
                );
                let p = propagate_all(comps2, nets, q1, id, changes, changes.len() as int);
                spec_settle_loop(p.0, p.1, p.2, count + 1, max, lib)
            },
            None => spec_settle_loop(comps, nets, q1, count + 1, max, lib),
        }
    }
}

/// The step budget of a settle: 40 per component plus 150.
pub open spec fn settle_budget(n: nat) -> int {
    (n * 40 + 150) as int
}

/// Settles a circuit: evaluates every component once, synchronises every
/// net with its source, then re-evaluates components whose inputs changed
/// until nothing changes or the step budget runs out (then everything is
/// unknown).
pub open spec fn spec_settle(
    comps: Seq<(u64, NodeView)>,
    nets: Seq<(u64, NetView)>,
    lib: Seq<(String, SubcircuitDef)>,
) -> (Seq<(u64, NodeView)>, Seq<(u64, NetView)>)
    decreases lib, 4int, 0int,
{
    let c1 = spec_phase1(comps, lib, 0);
    let p2 = spec_phase2(c1, nets, nets.len() as int);
    spec_settle_loop(p2.0, p2.1, slot_keys(comps), 0, settle_budget(comps.len()), lib)
}

// ------------------------------------------------------------------
// Evaluating a subcircuit instance
// ------------------------------------------------------------------

/// An ordering key for an `f32` bit pattern: for numbers, a < b exactly
/// when key(a) < key(b), and the two zeros share a key.
pub open spec fn y_key(bits: u32) -> u32 {
    if bits == 0x8000_0000u32 {
        0x8000_0000u32
    } else if bits >= 0x8000_0000u32 {
        (0xFFFF_FFFFu32 - bits) as u32
    } else {
        (bits + 0x8000_0000u32) as u32
    }
}

/// Where a stable insertion puts key `k`: after every entry whose key is
/// not greater.
pub open spec fn insert_pos(s: Seq<(u64, u32)>, k: u32) -> int
    decreases s.len(),
{
    if s.len() == 0 {
        0
    } else if s[0].1 > k {
        0
    } else {
        1 + insert_pos(s.drop_first(), k)
    }
}

/// Stable sort by key (insertion sort).
pub open spec fn sort_by_key(s: Seq<(u64, u32)>) -> Seq<(u64, u32)>
    decreases s.len(),
{
    if s.len() == 0 {
        s
    } else {
        let r = sort_by_key(s.drop_last());
        r.insert(insert_pos(r, s.last().1), s.last())
    }
}

pub open spec fn is_input_kind(k: GateKind) -> bool {
    k is ToggleSwitch || k is Clock
}

/// Whether a component is one a subcircuit reads its inputs from
/// (`leds == false`: switches and clocks) or its outputs from
/// (`leds == true`: LEDs).
pub open spec fn wanted(k: GateKind, leds: bool) -> bool {
    if leds { k is Led } else { is_input_kind(k) }
}

/// The keys of the wanted components, in iteration order, paired with the
/// ordering keys of their heights.
pub open spec fn keyed(comps: Seq<(u64, NodeView)>, leds: bool) -> Seq<(u64, u32)>
    decreases comps.len(),
{
    if comps.len() == 0 {
        Seq::empty()
    } else {
        let r = keyed(comps.drop_last(), leds);
        let e = comps.last();
        if wanted(e.1.kind, leds) { r.push((e.0, y_key(e.1.pos.1))) } else { r }
    }
}

/// Switches and clocks from top to bottom (stable for equal heights).
pub open spec fn input_order(comps: Seq<(u64, NodeView)>) -> Seq<u64> {
    slot_keys(sort_by_key(keyed(comps, false)))
}

/// LEDs from top to bottom (stable for equal heights).
pub open spec fn led_order(comps: Seq<(u64, NodeView)>) -> Seq<u64> {
    slot_keys(sort_by_key(keyed(comps, true)))
}

/// Drives the `j` first ordered inputs: the switch or clock takes the
/// level of the instance input at the same position.
pub open spec fn drive_inputs(comps: Seq<(u64, NodeView)>, ids: Seq<u64>, ins: Seq<Signal>, j: int) -> Seq<(u64, NodeView)>
    decreases j,
{
    if j <= 0 || j > ids.len() {
        comps
    } else {
        let c = drive_inputs(comps, ids, ins, j - 1);
        let idx = j - 1;
        if idx < ins.len() {
            match slot_get(c, ids[idx]) {
                Some(n) => slot_set(
                    c,
                    ids[idx],
                    NodeView { state_flag: ins[idx] == Signal::One, output_signals: seq![ins[idx]], ..n },
                ),
                None => c,
            }
        } else {
            c
        }
    }
}

/// Input 0 of each listed component that exists, in order.
pub open spec fn read_leds(comps: Seq<(u64, NodeView)>, ids: Seq<u64>) -> Seq<Signal>
    decreases ids.len(),
{
    if ids.len() == 0 {
        Seq::empty()
    } else {
        let r = read_leds(comps, ids.drop_last());
        match slot_get(comps, ids.last()) {
            Some(n) => r.push(sig_at(n.input_signals, 0)),
            None => r,
        }
    }
}

/// Evaluates a subcircuit for the given instance inputs: a copy of its
/// circuit gets its switches and clocks (top to bottom) driven by the
/// inputs, is settled, and its LEDs (top to bottom) are read; with no LEDs
/// the result is a single `Zero`.
pub open spec fn spec_evaluate_subcircuit(def: SubcircuitDef, ins: Seq<Signal>) -> Seq<Signal>
    decreases def, 5int, 0int,
{
    let c = def.circuit;
    let comps0 = component_slots(c.components);
    let comps1 = drive_inputs(comps0, input_order(comps0), ins, input_order(comps0).len() as int);
    proof {
        assert(decreases_to!(def => def.circuit));
        assert(decreases_to!(def.circuit => def.circuit.subcircuits));
        assert(decreases_to!(def.circuit.subcircuits => def.circuit.subcircuits@));
    }
    let settled = spec_settle(comps1, net_slots(c.nets), c.subcircuits@);
    let res = read_leds(settled.0, led_order(settled.0));
    if res.len() == 0 { seq![Signal::Zero] } else { res }
}

} // verus!

verus! {

// ------------------------------------------------------------------
// Executable evaluation
// ------------------------------------------------------------------

fn sig_in(ins: &Vec<Signal>, i: usize) -> (r: Signal)
    ensures
        r == sig_at(ins@, i as int),
{
    if i < ins.len() { ins[i] } else { Signal::Zero }
}

fn high_in(ins: &Vec<Signal>, i: usize) -> (r: bool)
    ensures
        r == high_at(ins@, i as int),
{
    i < ins.len() && ins[i] == Signal::One
}

fn bit_of(b: bool) -> (r: u8)
    ensures
        r as nat == bit(b),
{
    if b { 1 } else { 0 }
}

/// The number formed by `n` (at most 4) consecutive inputs, least
/// significant first.
fn read_bits(ins: &Vec<Signal>, start: usize, n: usize) -> (r: u8)
    requires
        n <= 4,
        start + n <= usize::MAX,
    ensures
        r as nat == bits_value(ins@, start as int, n as nat),
        r < 16,
        (r as nat) < weight(n as nat),
{
    let mut v: u8 = 0;
    let mut w: u8 = 1;
    let mut j: usize = 0;
    while j < n
        invariant
            j <= n,
            n <= 4,
            start + n <= usize::MAX,
            v as nat == bits_value(ins@, start as int, j as nat),
            w as nat == weight(j as nat),
            v < w,
            w <= 8 ==> true,
            w == 1 || w == 2 || w == 4 || w == 8 || w == 16,
            j == 0 ==> w == 1,
            j == 1 ==> w == 2,
            j == 2 ==> w == 4,
            j == 3 ==> w == 8,
            j == 4 ==> w == 16,
        decreases n - j,
    {
        proof {
            assert(bits_value(ins@, start as int, (j + 1) as nat) == bits_value(ins@, start as int, j as nat)
                + bit(high_at(ins@, start + j)) * weight(j as nat));
            reveal_with_fuel(weight, 5);
        }
        if high_in(ins, start + j) {
            v = v + w;
        }
        j = j + 1;
        if j < 5 {
            w = w * 2;
        }
    }
    v
}

fn and_fold(ins: &Vec<Signal>) -> (r: Signal)
    ensures
        r == and_all(ins@),
{
    let mut res = Signal::One;
    let mut i: usize = 0;
    while i < ins.len()
        invariant
            i <= ins.len(),
            res == and_all(ins@.take(i as int)),
        decreases ins.len() - i,
    {
        res = core::ops::BitAnd::bitand(res, ins[i]);
        assert(ins@.take(i + 1).drop_last() =~= ins@.take(i as int));
        i = i + 1;
    }
    assert(ins@.take(ins.len() as int) =~= ins@);
    res
}

fn or_fold(ins: &Vec<Signal>) -> (r: Signal)
    ensures
        r == or_all(ins@),
{
    let mut res = Signal::Zero;
    let mut i: usize = 0;
    while i < ins.len()
        invariant
            i <= ins.len(),
            res == or_all(ins@.take(i as int)),
        decreases ins.len() - i,
    {
        res = core::ops::BitOr::bitor(res, ins[i]);
        assert(ins@.take(i + 1).drop_last() =~= ins@.take(i as int));
        i = i + 1;
    }
    assert(ins@.take(ins.len() as int) =~= ins@);
    res
}

/// Whether the number of high inputs is odd.
fn odd_high(ins: &Vec<Signal>) -> (r: bool)
    ensures
        r == (count_high(ins@) % 2 == 1),
{
    let mut count: usize = 0;
    let mut i: usize = 0;
    while i < ins.len()
        invariant
            i <= ins.len(),
            count as nat == count_high(ins@.take(i as int)),
            count <= i,
        decreases ins.len() - i,
    {
        if ins[i].is_high() {
            count = count + 1;
        }
        assert(ins@.take(i + 1).drop_last() =~= ins@.take(i as int));
        i = i + 1;
    }
    assert(ins@.take(ins.len() as int) =~= ins@);
    count % 2 == 1
}

fn nibble(v: u8) -> (r: Vec<Signal>)
    ensures
        r@ == nibble_bits(v),
{
    let r = vec![
        Signal::from_bool(v & 1 != 0),
        Signal::from_bool(v & 2 != 0),
        Signal::from_bool(v & 4 != 0),
        Signal::from_bool(v & 8 != 0),
    ];
    assert(r@ =~= nibble_bits(v));
    r
}

fn pair(q: bool) -> (r: Vec<Signal>)
    ensures
        r@ == q_pair(q),
{
    let s = Signal::from_bool(q);
    let r = vec![s, core::ops::Not::not(s)];
    assert(r@ =~= q_pair(q));
    r
}

fn ripple_exec(ins: &Vec<Signal>) -> (r: Vec<Signal>)
    ensures
        r@ == ripple(ins@, 0, sig_at(ins@, 8)),
{
    let mut c = sig_in(ins, 8);
    let mut sums: Vec<Signal> = Vec::new();
    let mut i: usize = 0;
    while i < 4
        invariant
            i <= 4,
            sums@ + ripple(ins@, i as nat, c) == ripple(ins@, 0, sig_at(ins@, 8)),
        decreases 4 - i,
    {
        let a = sig_in(ins, i);
        let b = sig_in(ins, 4 + i);
        let ab = core::ops::BitXor::bitxor(a, b);
        let s = core::ops::BitXor::bitxor(ab, c);
        let ghost old_sums = sums@;
        let ghost old_c = c;
        c = core::ops::BitOr::bitor(core::ops::BitAnd::bitand(a, b), core::ops::BitAnd::bitand(c, ab));
        sums.push(s);
        assert(ripple(ins@, i as nat, old_c) == seq![s] + ripple(ins@, (i + 1) as nat, c));
        assert(sums@ + ripple(ins@, (i + 1) as nat, c) =~= old_sums + ripple(ins@, i as nat, old_c));
        i = i + 1;
    }
    assert(ripple(ins@, 4, c) == seq![c]);
    sums.push(c);
    assert(sums@ =~= ripple(ins@, 0, sig_at(ins@, 8)));
    sums
}

fn and3(a: Signal, b: Signal) -> (r: Signal)
    ensures
        r == spec_and(a, b),
{
    core::ops::BitAnd::bitand(a, b)
}

fn or3(a: Signal, b: Signal) -> (r: Signal)
    ensures
        r == spec_or(a, b),
{
    core::ops::BitOr::bitor(a, b)
}

fn xor3(a: Signal, b: Signal) -> (r: Signal)
    ensures
        r == spec_xor(a, b),
{
    core::ops::BitXor::bitxor(a, b)
}

fn not3(a: Signal) -> (r: Signal)
    ensures
        r == spec_not(a),
{
    core::ops::Not::not(a)
}

fn cla_exec(ins: &Vec<Signal>) -> (r: Vec<Signal>)
    ensures
        r@ == eval_cla(ins@),
{
    let c0 = sig_in(ins, 8);
    let p0 = xor3(sig_in(ins, 0), sig_in(ins, 4));
    let p1 = xor3(sig_in(ins, 1), sig_in(ins, 5));
    let p2 = xor3(sig_in(ins, 2), sig_in(ins, 6));
    let p3 = xor3(sig_in(ins, 3), sig_in(ins, 7));
    let g0 = and3(sig_in(ins, 0), sig_in(ins, 4));
    let g1 = and3(sig_in(ins, 1), sig_in(ins, 5));
    let g2 = and3(sig_in(ins, 2), sig_in(ins, 6));
    let g3 = and3(sig_in(ins, 3), sig_in(ins, 7));
    let c1 = or3(g0, and3(p0, c0));
    let c2 = or3(or3(g1, and3(p1, g0)), and3(and3(p1, p0), c0));
    let c3 = or3(or3(or3(g2, and3(p2, g1)), and3(and3(p2, p1), g0)), and3(and3(and3(p2, p1), p0), c0));
    let c4 = or3(
        or3(or3(or3(g3, and3(p3, g2)), and3(and3(p3, p2), g1)), and3(and3(and3(p3, p2), p1), g0)),
        and3(and3(and3(and3(p3, p2), p1), p0), c0),
    );
    let r = vec![xor3(p0, c0), xor3(p1, c1), xor3(p2, c2), xor3(p3, c3), c4];
    assert(r@ =~= eval_cla(ins@));
    r
}

} // verus!

verus! {

// ------------------------------------------------------------------
// Executable evaluation of the stateful kinds
// ------------------------------------------------------------------

fn step_sr(comp: &mut ComponentNode) -> (r: Vec<Signal>)
    ensures
        (r@, final(comp)@) == eval_sr(old(comp)@),
{
    let s = high_in(&comp.input_signals, 0);
    let rr = high_in(&comp.input_signals, 1);
    if s && !rr {
        comp.state_flag = true;
    } else if !s && rr {
        comp.state_flag = false;
    }
    pair(comp.state_flag)
}

fn step_d_latch(comp: &mut ComponentNode) -> (r: Vec<Signal>)
    ensures
        (r@, final(comp)@) == eval_d_latch(old(comp)@),
{
    let d = high_in(&comp.input_signals, 0);
    let en = high_in(&comp.input_signals, 1);
    if en {
        comp.state_flag = d;
    }
    pair(comp.state_flag)
}

fn step_dff(comp: &mut ComponentNode) -> (r: Vec<Signal>)
    ensures
        (r@, final(comp)@) == eval_dff(old(comp)@),
{
    let d = high_in(&comp.input_signals, 0);
    let clk = high_in(&comp.input_signals, 1);
    if clk && !comp.clock_prev {
        comp.state_flag = d;
    }
    comp.clock_prev = clk;
    pair(comp.state_flag)
}

fn step_jk(comp: &mut ComponentNode) -> (r: Vec<Signal>)
    ensures
        (r@, final(comp)@) == eval_jk(old(comp)@),
{
    let j = high_in(&comp.input_signals, 0);
    let k = high_in(&comp.input_signals, 1);
    let clk = high_in(&comp.input_signals, 2);
    if clk && !comp.clock_prev {
        if j && !k {
            comp.state_flag = true;
        } else if !j && k {
            comp.state_flag = false;
        } else if j && k {
            comp.state_flag = !comp.state_flag;
        }
    }
    comp.clock_prev = clk;
    pair(comp.state_flag)
}

fn step_tff(comp: &mut ComponentNode) -> (r: Vec<Signal>)
    ensures
        (r@, final(comp)@) == eval_tff(old(comp)@),
{
    let t = high_in(&comp.input_signals, 0);
    let clk = high_in(&comp.input_signals, 1);
    if clk && !comp.clock_prev && t {
        comp.state_flag = !comp.state_flag;
    }
    comp.clock_prev = clk;
    pair(comp.state_flag)
}

fn flip_bit_exec(b: u8) -> (r: u8)
    ensures
        r == flip_bit(b),
{
    if b <= 1 { 1 - b } else { (257u16 - b as u16) as u8 }
}

fn step_divider(comp: &mut ComponentNode) -> (r: Vec<Signal>)
    ensures
        (r@, final(comp)@) == eval_divider(old(comp)@),
{
    let clk = high_in(&comp.input_signals, 0);
    let rst = high_in(&comp.input_signals, 1);
    if comp.memory.len() < 2 {
        comp.memory = vec![0u8, 0u8];
    }
    if rst {
        comp.memory.set(0, 0);
        comp.memory.set(1, 0);
    } else if clk && !comp.clock_prev {
        let prev_div2 = comp.memory[0];
        let a = flip_bit_exec(comp.memory[0]);
        comp.memory.set(0, a);
        if prev_div2 == 1 && a == 0 {
            let b = flip_bit_exec(comp.memory[1]);
            comp.memory.set(1, b);
        }
    }
    comp.clock_prev = clk;
    let r = vec![Signal::from_bool(comp.memory[0] == 1), Signal::from_bool(comp.memory[1] == 1)];
    proof {
        let e = eval_divider(old(comp)@);
        assert(comp@.memory =~= e.1.memory);
        assert(r@ =~= e.0);
    }
    r
}

/// Each memory byte as a signal (1 is `One`).
fn memory_signals(m: &Vec<u8>) -> (r: Vec<Signal>)
    ensures
        r@ == memory_bits(m@),
{
    let mut out: Vec<Signal> = Vec::new();
    let mut i: usize = 0;
    while i < m.len()
        invariant
            i <= m.len(),
            out@ =~= memory_bits(m@).take(i as int),
        decreases m.len() - i,
    {
        out.push(Signal::from_bool(m[i] == 1));
        i = i + 1;
    }
    assert(memory_bits(m@).take(m.len() as int) =~= memory_bits(m@));
    out
}

/// Stores inputs 0..3 as bytes 0..3 (1 for high, 0 otherwise).
fn latch_inputs(m: &mut Vec<u8>, ins: &Vec<Signal>)
    requires
        old(m)@.len() >= 4,
    ensures
        final(m)@ == Seq::new(
            old(m)@.len(),
            |k: int| if k < 4 { if high_at(ins@, k) { 1u8 } else { 0u8 } } else { old(m)@[k] },
        ),
{
    let mut i: usize = 0;
    while i < 4
        invariant
            i <= 4,
            old(m)@.len() >= 4,
            m@ =~= Seq::new(
                old(m)@.len(),
                |k: int| if k < i { if high_at(ins@, k) { 1u8 } else { 0u8 } } else { old(m)@[k] },
            ),
        decreases 4 - i,
    {
        let v: u8 = if high_in(ins, i) { 1 } else { 0 };
        m.set(i, v);
        i = i + 1;
    }
}

fn step_register(comp: &mut ComponentNode) -> (r: Vec<Signal>)
    ensures
        (r@, final(comp)@) == eval_register(old(comp)@),
{
    let clk = high_in(&comp.input_signals, 4);
    if comp.memory.len() < 4 {
        comp.memory = crate::graph::zero_bytes(4);
    }
    assert(comp.memory@ =~= reg_memory(old(comp)@));
    if clk && !comp.clock_prev {
        latch_inputs(&mut comp.memory, &comp.input_signals);
    }
    comp.clock_prev = clk;
    let r = memory_signals(&comp.memory);
    proof {
        let e = eval_register(old(comp)@);
        assert(comp@.memory =~= e.1.memory);
    }
    r
}

fn step_shift(comp: &mut ComponentNode) -> (r: Vec<Signal>)
    ensures
        (r@, final(comp)@) == eval_shift(old(comp)@),
{
    let d = high_in(&comp.input_signals, 0);
    let clk = high_in(&comp.input_signals, 1);
    if comp.memory.len() < 4 {
        comp.memory = crate::graph::zero_bytes(4);
    }
    assert(comp.memory@ =~= reg_memory(old(comp)@));
    if clk && !comp.clock_prev {
        let m2 = comp.memory[2];
        comp.memory.set(3, m2);
        let m1 = comp.memory[1];
        comp.memory.set(2, m1);
        let m0 = comp.memory[0];
        comp.memory.set(1, m0);
        comp.memory.set(0, if d { 1 } else { 0 });
    }
    comp.clock_prev = clk;
    let r = memory_signals(&comp.memory);
    proof {
        let e = eval_shift(old(comp)@);
        assert(comp@.memory =~= e.1.memory);
    }
    r
}

fn step_counter(comp: &mut ComponentNode) -> (r: Vec<Signal>)
    ensures
        (r@, final(comp)@) == eval_counter(old(comp)@),
{
    let clk = high_in(&comp.input_signals, 0);
    let rst = high_in(&comp.input_signals, 1);
    if comp.memory.len() == 0 {
        comp.memory = vec![0u8];
    }
    if rst {
        comp.memory.set(0, 0);
    } else if clk && !comp.clock_prev {
        let m0 = comp.memory[0];
        let v = if m0 == 255 { 0 } else { (m0 + 1) % 16 };
        comp.memory.set(0, v);
    }
    comp.clock_prev = clk;
    let r = nibble(comp.memory[0]);
    proof {
        let e = eval_counter(old(comp)@);
        assert(comp@.memory =~= e.1.memory);
    }
    r
}

fn step_ram(comp: &mut ComponentNode) -> (r: Vec<Signal>)
    ensures
        (r@, final(comp)@) == eval_ram(old(comp)@),
{
    let addr = read_bits(&comp.input_signals, 0, 4) as usize;
    let din = read_bits(&comp.input_signals, 4, 4);
    let we = high_in(&comp.input_signals, 8);
    let clk = high_in(&comp.input_signals, 9);
    if comp.memory.len() < 16 {
        comp.memory = crate::graph::zero_bytes(16);
    }
    if clk && !comp.clock_prev && we {
        comp.memory.set(addr, din);
    }
    comp.clock_prev = clk;
    let r = nibble(comp.memory[addr]);
    proof {
        let e = eval_ram(old(comp)@);
        assert(comp@.memory =~= e.1.memory);
    }
    r
}

fn rom_read(comp: &ComponentNode) -> (r: Vec<Signal>)
    ensures
        r@ == eval_rom(comp@),
{
    let addr = read_bits(&comp.input_signals, 0, 4) as usize;
    let v: u8 = if addr < comp.memory.len() { comp.memory[addr] } else { 0 };
    nibble(v)
}

} // verus!

verus! {

fn demux4_exec(ins: &Vec<Signal>) -> (r: Vec<Signal>)
    ensures
        r@ == eval_demux4(ins@),
{
    let val = sig_in(ins, 0);
    let en = if ins.len() > 1 { ins[1] == Signal::One } else { true };
    let idx = (bit_of(high_in(ins, 2)) + 2 * bit_of(high_in(ins, 3))) as usize;
    let mut outs = crate::graph::zeros(4);
    if en {
        outs.set(idx, val);
    }
    assert(outs@ =~= eval_demux4(ins@));
    outs
}

fn encoder_exec(ins: &Vec<Signal>) -> (r: Vec<Signal>)
    ensures
        r@ == eval_encoder(ins@),
{
    let d3 = high_in(ins, 3);
    let d2 = high_in(ins, 2);
    let d1 = high_in(ins, 1);
    let r = if d3 {
        vec![Signal::One, Signal::One]
    } else if d2 {
        vec![Signal::Zero, Signal::One]
    } else if d1 {
        vec![Signal::One, Signal::Zero]
    } else {
        vec![Signal::Zero, Signal::Zero]
    };
    assert(r@ =~= eval_encoder(ins@));
    r
}

fn decoder_exec(ins: &Vec<Signal>) -> (r: Vec<Signal>)
    ensures
        r@ == Seq::new(4, |i: int| Signal::Zero).update(
            (bit(high_at(ins@, 0)) + 2 * bit(high_at(ins@, 1))) as int,
            Signal::One,
        ),
{
    let idx = (bit_of(high_in(ins, 0)) + 2 * bit_of(high_in(ins, 1))) as usize;
    let mut outs = crate::graph::zeros(4);
    outs.set(idx, Signal::One);
    assert(outs@ =~= Seq::new(4, |i: int| Signal::Zero).update(idx as int, Signal::One));
    outs
}

fn comparator_exec(ins: &Vec<Signal>) -> (r: Vec<Signal>)
    ensures
        r@ == eval_comparator(ins@),
{
    let a = bit_of(high_in(ins, 0)) + 2 * bit_of(high_in(ins, 1));
    let b = bit_of(high_in(ins, 2)) + 2 * bit_of(high_in(ins, 3));
    let r = vec![Signal::from_bool(a > b), Signal::from_bool(a == b), Signal::from_bool(a < b)];
    assert(r@ =~= eval_comparator(ins@));
    r
}

/// Result and carry of the ALU operation (see `alu_result`).
fn alu_exec(a: u8, b: u8, op: u8) -> (r: (u8, bool))
    requires
        a < 16,
        b < 16,
        op < 8,
    ensures
        r == alu_result(a, b, op as nat),
{
    if op == 0 {
        ((a + b) % 16, a + b > 15)
    } else if op == 1 {
        ((a + 16 - b) % 16, a < b)
    } else if op == 2 {
        (a & b, false)
    } else if op == 3 {
        (a | b, false)
    } else if op == 4 {
        (a ^ b, false)
    } else if op == 5 {
        (15 - a, false)
    } else if op == 6 {
        ((2 * a) % 16, a >= 8)
    } else {
        (a / 2, a % 2 == 1)
    }
}

fn alu4_exec(ins: &Vec<Signal>) -> (r: Vec<Signal>)
    ensures
        r@ == eval_alu(ins@),
{
    let a = read_bits(ins, 0, 4);
    let b = read_bits(ins, 4, 4);
    let op = read_bits(ins, 8, 3);
    proof {
        reveal_with_fuel(bits_value, 4);
        reveal_with_fuel(weight, 4);
    }
    let (res, carry) = alu_exec(a, b, op);
    let mut outs = nibble(res);
    outs.push(Signal::from_bool(res == 0));
    outs.push(Signal::from_bool(carry));
    assert(outs@ =~= eval_alu(ins@));
    outs
}

/// The outputs of a stateless kind (see `eval_plain`).
fn plain_outputs(kind: &GateKind, ins: &Vec<Signal>, state: bool) -> (r: Vec<Signal>)
    ensures
        r@ == eval_plain(*kind, ins@, state),
{
    let r = match kind {
        GateKind::And => vec![and_fold(ins)],
        GateKind::Or => vec![or_fold(ins)],
        GateKind::Not => vec![not3(sig_in(ins, 0))],
        GateKind::Nand => vec![not3(and_fold(ins))],
        GateKind::Nor => vec![not3(or_fold(ins))],
        GateKind::Xor => vec![Signal::from_bool(odd_high(ins))],
        GateKind::Xnor => vec![Signal::from_bool(!odd_high(ins))],
        GateKind::ToggleSwitch | GateKind::Clock => vec![Signal::from_bool(state)],
        GateKind::HalfAdder => {
            let a = sig_in(ins, 0);
            let b = sig_in(ins, 1);
            vec![xor3(a, b), and3(a, b)]
        },
        GateKind::FullAdder => {
            let a = sig_in(ins, 0);
            let b = sig_in(ins, 1);
            let c = sig_in(ins, 2);
            vec![xor3(xor3(a, b), c), or3(and3(a, b), and3(c, xor3(a, b)))]
        },
        GateKind::HalfSubtractor => {
            let a = sig_in(ins, 0);
            let b = sig_in(ins, 1);
            vec![xor3(a, b), and3(not3(a), b)]
        },
        GateKind::FullSubtractor => {
            let a = sig_in(ins, 0);
            let b = sig_in(ins, 1);
            let c = sig_in(ins, 2);
            vec![xor3(xor3(a, b), c), or3(and3(not3(a), b), and3(c, not3(xor3(a, b))))]
        },
        GateKind::RippleCarryAdder4 => ripple_exec(ins),
        GateKind::CarryLookaheadAdder4 => cla_exec(ins),
        GateKind::Mux2 => vec![if high_in(ins, 2) { sig_in(ins, 1) } else { sig_in(ins, 0) }],
        GateKind::Mux4 => {
            let idx = (bit_of(high_in(ins, 4)) + 2 * bit_of(high_in(ins, 5))) as usize;
            vec![sig_in(ins, idx)]
        },
        GateKind::Demux2 => if high_in(ins, 1) {
            vec![Signal::Zero, sig_in(ins, 0)]
        } else {
            vec![sig_in(ins, 0), Signal::Zero]
        },
        GateKind::Demux4 => demux4_exec(ins),
        GateKind::Encoder4to2 => encoder_exec(ins),
        GateKind::Decoder2to4 => decoder_exec(ins),
        GateKind::Comparator2 => comparator_exec(ins),
        GateKind::Alu4 => alu4_exec(ins),
        _ => Vec::new(),
    };
    proof {
        let e = eval_plain(*kind, ins@, state);
        assert(r@ =~= e);
    }
    r
}

} // verus!

verus! {

// ------------------------------------------------------------------
// Executable settling: the parts that evaluate nothing
// ------------------------------------------------------------------

/// Drives each listed input port to `sig` (see `drive_sinks`).
fn drive_all(comps: &mut ComponentSlots, sinks: &Vec<crate::graph::PortEndpoint>, sig: Signal)
    requires
        slots_wf(component_slots(*old(comps))),
    ensures
        component_slots(*final(comps)) == drive_sinks(component_slots(*old(comps)), sinks@, sig, sinks@.len() as int),
        slot_keys(component_slots(*final(comps))) == slot_keys(component_slots(*old(comps))),
        slots_wf(component_slots(*final(comps))),
{
    let mut k: usize = 0;
    while k < sinks.len()
        invariant
            k <= sinks.len(),
            component_slots(*comps) == drive_sinks(component_slots(*old(comps)), sinks@, sig, k as int),
            slot_keys(component_slots(*comps)) == slot_keys(component_slots(*old(comps))),
            slots_wf(component_slots(*comps)),
        decreases sinks.len() - k,
    {
        let s = sinks[k];
        let sid = s.component_id.raw();
        let ghost c = component_slots(*comps);
        let present = match component_slots_get(comps, sid) {
            Some(n) => s.port_index < n.input_signals.len(),
            None => false,
        };
        if present {
            let n = component_slots_get_mut(comps, sid);
            n.input_signals.set(s.port_index, sig);
            proof {
                let nv = slot_get(c, sid)->0;
                lemma_slot_set_keys(c, sid, NodeView { input_signals: nv.input_signals.update(s.port_index as int, sig), ..nv });
            }
        }
        k = k + 1;
    }
}

/// Copies each net's source output onto the net and its sinks, in order
/// (see `spec_phase2`).
fn sync_nets(comps: &mut ComponentSlots, nets: &mut NetSlots)
    requires
        slots_wf(component_slots(*old(comps))),
    ensures
        (component_slots(*final(comps)), net_slots(*final(nets))) == spec_phase2(
            component_slots(*old(comps)),
            net_slots(*old(nets)),
            net_slots(*old(nets)).len() as int,
        ),
        slot_keys(component_slots(*final(comps))) == slot_keys(component_slots(*old(comps))),
        slot_keys(net_slots(*final(nets))) == slot_keys(net_slots(*old(nets))),
        slots_wf(component_slots(*final(comps))),
{
    let keys = net_slots_keys(nets);
    let mut j: usize = 0;
    while j < keys.len()
        invariant
            j <= keys.len(),
            keys@ == slot_keys(net_slots(*old(nets))),
            keys@.no_duplicates(),
            forall|i: int| 0 <= i < keys@.len() ==> valid_key(#[trigger] keys@[i]),
            (component_slots(*comps), net_slots(*nets)) == spec_phase2(
                component_slots(*old(comps)),
                net_slots(*old(nets)),
                j as int,
            ),
            slot_keys(component_slots(*comps)) == slot_keys(component_slots(*old(comps))),
            slot_keys(net_slots(*nets)) == keys@,
            slots_wf(component_slots(*comps)),
        decreases keys.len() - j,
    {
        let ghost cs = component_slots(*comps);
        let ghost ns = net_slots(*nets);
        proof {
            assert(slot_keys(ns)[j as int] == keys@[j as int]);
            crate::slots::lemma_slot_get_at(ns, j as int);
        }
        let (source, sinks) = match net_slots_get(nets, keys[j]) {
            Some(net) => (net.source, copy_endpoints_of(net)),
            None => {
                proof { assert(false); }
                (crate::graph::PortEndpoint { component_id: crate::graph::ComponentId::from_key(keys[j]), is_output: true, port_index: 0 }, Vec::new())
            },
        };
        let sid = source.component_id.raw();
        let found = match component_slots_get(comps, sid) {
            Some(src) => if source.port_index < src.output_signals.len() {
                Some(src.output_signals[source.port_index])
            } else {
                None
            },
            None => None,
        };
        match found {
            Some(sig) => {
                let net = net_slots_get_mut(nets, keys[j]);
                net.current_signal = sig;
                proof {
                    let nv = ns[j as int].1;
                    crate::slots::lemma_slot_set_at(ns, j as int, NetView { current_signal: sig, ..nv });
                    lemma_slot_set_keys(ns, keys@[j as int], NetView { current_signal: sig, ..nv });
                }
                drive_all(comps, &sinks, sig);
            },
            None => {},
        }
        proof {
            assert(spec_phase2(component_slots(*old(comps)), net_slots(*old(nets)), j + 1)
                == sync_net(cs, ns, j as int));
        }
        j = j + 1;
    }
    proof {
        assert(keys@.len() == net_slots(*old(nets)).len());
    }
}

/// The sinks of a net.
fn copy_endpoints_of(net: &crate::graph::Net) -> (r: Vec<crate::graph::PortEndpoint>)
    ensures
        r@ == net@.sinks,
{
    crate::graph::copy_endpoints(&net.sinks)
}

} // verus!

verus! {

/// Whether `x` is still queued (at or after `head`).
fn queue_contains(q: &Vec<u64>, head: usize, x: u64) -> (r: bool)
    requires
        head <= q.len(),
    ensures
        r == q@.skip(head as int).contains(x),
{
    let mut i: usize = head;
    while i < q.len()
        invariant
            head <= i <= q.len(),
            forall|j: int| head <= j < i ==> q@[j] != x,
        decreases q.len() - i,
    {
        if q[i] == x {
            assert(q@.skip(head as int)[i - head] == x);
            return true;
        }
        i = i + 1;
    }
    assert forall|j: int| 0 <= j < q@.skip(head as int).len() implies q@.skip(head as int)[j] != x by {
        assert(q@.skip(head as int)[j] == q@[head + j]);
    }
    false
}

/// Writes the new outputs over the old ones and lists the positions that
/// changed (see `merge_outputs` and `changed_outputs`).
fn merge_into(outs: &mut Vec<Signal>, new: &Vec<Signal>) -> (changes: Vec<(usize, Signal)>)
    ensures
        final(outs)@ == merge_outputs(old(outs)@, new@),
        changes@ == changed_outputs(old(outs)@, new@, new@.len() as int),
{
    let ghost o = old(outs)@;
    let mut changes: Vec<(usize, Signal)> = Vec::new();
    let mut i: usize = 0;
    while i < new.len()
        invariant
            i <= new.len(),
            o == old(outs)@,
            outs@ =~= merge_outputs(o, new@.take(i as int)),
            changes@ == changed_outputs(o, new@, i as int),
        decreases new.len() - i,
    {
        let s = new[i];
        let differs = if i < outs.len() { outs[i] != s } else { true };
        if differs {
            if i < outs.len() {
                outs.set(i, s);
            } else {
                outs.push(s);
            }
            changes.push((i, s));
        }
        i = i + 1;
        assert(outs@ =~= merge_outputs(o, new@.take(i as int)));
    }
    assert(new@.take(new.len() as int) =~= new@);
    changes
}

/// Drives each sink whose input differs from `sig` and queues its component
/// unless already queued (see `push_sinks`).
fn push_sinks_exec(
    comps: &mut ComponentSlots,
    q: &mut Vec<u64>,
    head: usize,
    sinks: &Vec<crate::graph::PortEndpoint>,
    sig: Signal,
)
    requires
        slots_wf(component_slots(*old(comps))),
        head <= old(q).len(),
    ensures
        (component_slots(*final(comps)), final(q)@.skip(head as int)) == push_sinks(
            component_slots(*old(comps)),
            old(q)@.skip(head as int),
            sinks@,
            sig,
            sinks@.len() as int,
        ),
        head <= final(q).len(),
        slot_keys(component_slots(*final(comps))) == slot_keys(component_slots(*old(comps))),
        slots_wf(component_slots(*final(comps))),
        all_valid(old(q)@) ==> all_valid(final(q)@),
{
    let mut k: usize = 0;
    while k < sinks.len()
        invariant
            k <= sinks.len(),
            head <= q.len(),
            (component_slots(*comps), q@.skip(head as int)) == push_sinks(
                component_slots(*old(comps)),
                old(q)@.skip(head as int),
                sinks@,
                sig,
                k as int,
            ),
            slot_keys(component_slots(*comps)) == slot_keys(component_slots(*old(comps))),
            slots_wf(component_slots(*comps)),
            all_valid(old(q)@) ==> all_valid(q@),
        decreases sinks.len() - k,
    {
        let s = sinks[k];
        let sid = s.component_id.raw();
        let ghost c = component_slots(*comps);
        let ghost qs = q@.skip(head as int);
        let change = match component_slots_get(comps, sid) {
            Some(n) => s.port_index < n.input_signals.len() && n.input_signals[s.port_index] != sig,
            None => false,
        };
        if change {
            let n = component_slots_get_mut(comps, sid);
            n.input_signals.set(s.port_index, sig);
            proof {
                let nv = slot_get(c, sid)->0;
                lemma_slot_set_keys(c, sid, NodeView { input_signals: nv.input_signals.update(s.port_index as int, sig), ..nv });
            }
            if !queue_contains(q, head, sid) {
                q.push(sid);
                assert(q@.skip(head as int) =~= qs.push(sid));
            }
        }
        k = k + 1;
    }
}

/// Finds the first net driven by output `idx` of `id` (see `first_source`).
fn find_source_net(nets: &NetSlots, id: u64, idx: usize) -> (r: Option<u64>)
    ensures
        r matches Some(k) ==> exists|i: int| first_source(net_slots(*nets), i, id, idx as int) && net_slots(*nets)[i].0 == k,
        r is None ==> !exists|i: int| first_source(net_slots(*nets), i, id, idx as int),
        r matches Some(k) ==> valid_key(k),
{
    let keys = net_slots_keys(nets);
    let ghost ns = net_slots(*nets);
    let mut j: usize = 0;
    while j < keys.len()
        invariant
            j <= keys.len(),
            ns == net_slots(*nets),
            keys@ == slot_keys(ns),
            keys@.no_duplicates(),
            forall|i: int| 0 <= i < keys@.len() ==> valid_key(#[trigger] keys@[i]),
            forall|i: int| 0 <= i < j ==> !is_source(#[trigger] ns[i].1, id, idx as int),
        decreases keys.len() - j,
    {
        proof {
            assert(slot_keys(ns)[j as int] == keys@[j as int]);
            crate::slots::lemma_slot_get_at(ns, j as int);
        }
        let hit = match net_slots_get(nets, keys[j]) {
            Some(net) => net.source.component_id.raw() == id && net.source.is_output && net.source.port_index == idx,
            None => false,
        };
        if hit {
            assert(first_source(ns, j as int, id, idx as int));
            return Some(keys[j]);
        }
        j = j + 1;
    }
    proof {
        assert forall|i: int| !first_source(ns, i, id, idx as int) by {
            if 0 <= i < ns.len() {
                assert(!is_source(ns[i].1, id, idx as int));
            }
        }
    }
    None
}

/// Two positions that both hold the first such net are the same.
proof fn lemma_first_source_unique(nets: Seq<(u64, NetView)>, i: int, j: int, id: u64, idx: int)
    requires
        first_source(nets, i, id, idx),
        first_source(nets, j, id, idx),
    ensures
        i == j,
{
    if i < j {
        assert(!is_source(nets[i].1, id, idx));
    } else if j < i {
        assert(!is_source(nets[j].1, id, idx));
    }
}

} // verus!

verus! {

/// Carries one changed output to the first net it drives (see
/// `propagate_change`).
fn propagate_change_exec(
    comps: &mut ComponentSlots,
    nets: &mut NetSlots,
    q: &mut Vec<u64>,
    head: usize,
    id: u64,
    ch: (usize, Signal),
)
    requires
        slots_wf(component_slots(*old(comps))),
        slot_keys(net_slots(*old(nets))).no_duplicates(),
        head <= old(q).len(),
    ensures
        (component_slots(*final(comps)), net_slots(*final(nets)), final(q)@.skip(head as int)) == propagate_change(
            component_slots(*old(comps)),
            net_slots(*old(nets)),
            old(q)@.skip(head as int),
            id,
            ch,
        ),
        head <= final(q).len(),
        slot_keys(component_slots(*final(comps))) == slot_keys(component_slots(*old(comps))),
        slots_wf(component_slots(*final(comps))),
        slot_keys(net_slots(*final(nets))) == slot_keys(net_slots(*old(nets))),
        all_valid(old(q)@) ==> all_valid(final(q)@),
{
    let ghost ns = net_slots(*nets);
    match find_source_net(nets, id, ch.0) {
        Some(k) => {
            let ghost i = choose|i: int| first_source(ns, i, id, ch.0 as int) && ns[i].0 == k;
            proof {
                let c = choose|i: int| first_source(ns, i, id, ch.0 as int);
                lemma_first_source_unique(ns, i, c, id, ch.0 as int);
                crate::slots::lemma_slot_get_at(ns, i);
            }
            let net = net_slots_get_mut(nets, k);
            let sinks = crate::graph::copy_endpoints(&net.sinks);
            net.current_signal = ch.1;
            proof {
                let nv = ns[i].1;
                crate::slots::lemma_slot_set_at(ns, i, NetView { current_signal: ch.1, ..nv });
                lemma_slot_set_keys(ns, k, NetView { current_signal: ch.1, ..nv });
            }
            push_sinks_exec(comps, q, head, &sinks, ch.1);
        },
        None => {},
    }
}

/// Carries every change, in order (see `propagate_all`).
fn propagate_all_exec(
    comps: &mut ComponentSlots,
    nets: &mut NetSlots,
    q: &mut Vec<u64>,
    head: usize,
    id: u64,
    changes: &Vec<(usize, Signal)>,
)
    requires
        slots_wf(component_slots(*old(comps))),
        slot_keys(net_slots(*old(nets))).no_duplicates(),
        head <= old(q).len(),
    ensures
        (component_slots(*final(comps)), net_slots(*final(nets)), final(q)@.skip(head as int)) == propagate_all(
            component_slots(*old(comps)),
            net_slots(*old(nets)),
            old(q)@.skip(head as int),
            id,
            changes@,
            changes@.len() as int,
        ),
        head <= final(q).len(),
        slot_keys(component_slots(*final(comps))) == slot_keys(component_slots(*old(comps))),
        slots_wf(component_slots(*final(comps))),
        slot_keys(net_slots(*final(nets))) == slot_keys(net_slots(*old(nets))),
        all_valid(old(q)@) ==> all_valid(final(q)@),
{
    let mut k: usize = 0;
    while k < changes.len()
        invariant
            k <= changes.len(),
            head <= q.len(),
            (component_slots(*comps), net_slots(*nets), q@.skip(head as int)) == propagate_all(
                component_slots(*old(comps)),
                net_slots(*old(nets)),
                old(q)@.skip(head as int),
                id,
                changes@,
                k as int,
            ),
            slot_keys(component_slots(*comps)) == slot_keys(component_slots(*old(comps))),
            slots_wf(component_slots(*comps)),
            slot_keys(net_slots(*nets)) == slot_keys(net_slots(*old(nets))),
            slot_keys(net_slots(*nets)).no_duplicates(),
            all_valid(old(q)@) ==> all_valid(q@),
        decreases changes.len() - k,
    {
        propagate_change_exec(comps, nets, q, head, id, changes[k]);
        k = k + 1;
    }
}

/// Sets every output of every component and every net to `X`.
fn all_unknown(comps: &mut ComponentSlots, nets: &mut NetSlots)
    ensures
        component_slots(*final(comps)) == all_outputs_x(component_slots(*old(comps))),
        net_slots(*final(nets)) == all_nets_x(net_slots(*old(nets))),
{
    let keys = component_slots_keys(comps);
    let ghost c0 = component_slots(*comps);
    let mut i: usize = 0;
    while i < keys.len()
        invariant
            i <= keys.len(),
            keys@ == slot_keys(c0),
            keys@.no_duplicates(),
            forall|j: int| 0 <= j < keys@.len() ==> valid_key(#[trigger] keys@[j]),
            c0 == component_slots(*old(comps)),
            nets == old(nets),
            component_slots(*comps).len() == c0.len(),
            forall|j: int| 0 <= j < c0.len() ==> #[trigger] component_slots(*comps)[j] == if j < i { node_x(c0[j]) } else { c0[j] },
        decreases keys.len() - i,
    {
        let ghost c = component_slots(*comps);
        proof {
            assert(slot_keys(c) =~= slot_keys(c0));
            assert(slot_keys(c)[i as int] == keys@[i as int]);
            crate::slots::lemma_slot_get_at(c, i as int);
        }
        let n = component_slots_get_mut(comps, keys[i]);
        fill_x(&mut n.output_signals);
        proof {
            crate::slots::lemma_slot_set_at(c, i as int, node_x(c0[i as int]).1);
        }
        i = i + 1;
    }
    assert(component_slots(*comps) =~= all_outputs_x(c0));
    let nkeys = net_slots_keys(nets);
    let ghost n0 = net_slots(*nets);
    let mut j: usize = 0;
    while j < nkeys.len()
        invariant
            j <= nkeys.len(),
            nkeys@ == slot_keys(n0),
            nkeys@.no_duplicates(),
            forall|k: int| 0 <= k < nkeys@.len() ==> valid_key(#[trigger] nkeys@[k]),
            n0 == net_slots(*old(nets)),
            component_slots(*comps) == all_outputs_x(component_slots(*old(comps))),
            net_slots(*nets).len() == n0.len(),
            forall|k: int| 0 <= k < n0.len() ==> #[trigger] net_slots(*nets)[k] == if k < j { net_x(n0[k]) } else { n0[k] },
        decreases nkeys.len() - j,
    {
        let ghost c = net_slots(*nets);
        proof {
            assert(slot_keys(c) =~= slot_keys(n0));
            assert(slot_keys(c)[j as int] == nkeys@[j as int]);
            crate::slots::lemma_slot_get_at(c, j as int);
        }
        let n = net_slots_get_mut(nets, nkeys[j]);
        n.current_signal = Signal::X;
        proof {
            crate::slots::lemma_slot_set_at(c, j as int, net_x(n0[j as int]).1);
        }
        j = j + 1;
    }
    assert(net_slots(*nets) =~= all_nets_x(n0));
}

/// Sets every signal of a vector to `X`.
fn fill_x(v: &mut Vec<Signal>)
    ensures
        final(v)@ == Seq::new(old(v)@.len(), |i: int| Signal::X),
{
    let mut i: usize = 0;
    while i < v.len()
        invariant
            i <= v.len(),
            v@.len() == old(v)@.len(),
            forall|j: int| 0 <= j < i ==> v@[j] == Signal::X,
        decreases v.len() - i,
    {
        v.set(i, Signal::X);
        i = i + 1;
    }
    assert(v@ =~= Seq::new(old(v)@.len(), |i: int| Signal::X));
}

} // verus!

verus! {

// ------------------------------------------------------------------
// Executable subcircuit plumbing
// ------------------------------------------------------------------

/// Every key of a list is one a slot map can hand out.
pub open spec fn all_valid(q: Seq<u64>) -> bool {
    forall|i: int| 0 <= i < q.len() ==> valid_key(#[trigger] q[i])
}

/// Every entry of a keyed list carries a key a slot map can hand out.
pub open spec fn all_valid_keyed(q: Seq<(u64, u32)>) -> bool {
    forall|i: int| 0 <= i < q.len() ==> valid_key(#[trigger] q[i].0)
}

fn y_key_exec(bits: u32) -> (r: u32)
    ensures
        r == y_key(bits),
{
    if bits == 0x8000_0000u32 {
        0x8000_0000u32
    } else if bits >= 0x8000_0000u32 {
        0xFFFF_FFFFu32 - bits
    } else {
        bits + 0x8000_0000u32
    }
}

fn wanted_exec(k: &GateKind, leds: bool) -> (r: bool)
    ensures
        r == wanted(*k, leds),
{
    if leds {
        matches!(k, GateKind::Led)
    } else {
        matches!(k, GateKind::ToggleSwitch | GateKind::Clock)
    }
}

/// The wanted components with their height keys (see `keyed`).
fn keyed_exec(comps: &ComponentSlots, leds: bool) -> (r: Vec<(u64, u32)>)
    ensures
        r@ == keyed(component_slots(*comps), leds),
        all_valid_keyed(r@),
{
    let keys = component_slots_keys(comps);
    let ghost cs = component_slots(*comps);
    let mut r: Vec<(u64, u32)> = Vec::new();
    let mut i: usize = 0;
    while i < keys.len()
        invariant
            i <= keys.len(),
            cs == component_slots(*comps),
            keys@ == slot_keys(cs),
            keys@.no_duplicates(),
            forall|j: int| 0 <= j < keys@.len() ==> valid_key(#[trigger] keys@[j]),
            r@ == keyed(cs.take(i as int), leds),
            all_valid_keyed(r@),
        decreases keys.len() - i,
    {
        proof {
            assert(slot_keys(cs)[i as int] == keys@[i as int]);
            crate::slots::lemma_slot_get_at(cs, i as int);
            assert(cs.take(i + 1).drop_last() =~= cs.take(i as int));
        }
        match component_slots_get(comps, keys[i]) {
            Some(n) => {
                if wanted_exec(&n.kind, leds) {
                    r.push((keys[i], y_key_exec(n.pos.1)));
                }
            },
            None => {},
        }
        i = i + 1;
    }
    assert(cs.take(keys.len() as int) =~= cs);
    r
}

/// Where `insert_pos` puts a key: after the first `j` entries when they are
/// all not greater and the next one (if any) is greater.
proof fn lemma_insert_pos(s: Seq<(u64, u32)>, k: u32, j: int)
    requires
        0 <= j <= s.len(),
        forall|m: int| 0 <= m < j ==> (#[trigger] s[m]).1 <= k,
        j == s.len() || s[j].1 > k,
    ensures
        insert_pos(s, k) == j,
    decreases j,
{
    if j > 0 {
        assert forall|m: int| 0 <= m < j - 1 implies (#[trigger] s.drop_first()[m]).1 <= k by {
            assert(s.drop_first()[m] == s[m + 1]);
        }
        lemma_insert_pos(s.drop_first(), k, j - 1);
    }
}

fn insert_position(r: &Vec<(u64, u32)>, k: u32) -> (p: usize)
    ensures
        p as int == insert_pos(r@, k),
        p <= r.len(),
{
    let mut j: usize = 0;
    while j < r.len() && r[j].1 <= k
        invariant
            j <= r.len(),
            forall|m: int| 0 <= m < j ==> (#[trigger] r@[m]).1 <= k,
        decreases r.len() - j,
    {
        j = j + 1;
    }
    proof { lemma_insert_pos(r@, k, j as int); }
    j
}

/// Stable insertion sort by height key (see `sort_by_key`).
fn sort_keyed(s: &Vec<(u64, u32)>) -> (r: Vec<(u64, u32)>)
    ensures
        r@ == sort_by_key(s@),
        all_valid_keyed(s@) ==> all_valid_keyed(r@),
{
    let mut r: Vec<(u64, u32)> = Vec::new();
    let mut i: usize = 0;
    while i < s.len()
        invariant
            i <= s.len(),
            r@ == sort_by_key(s@.take(i as int)),
            all_valid_keyed(s@) ==> all_valid_keyed(r@),
        decreases s.len() - i,
    {
        let e = s[i];
        let p = insert_position(&r, e.1);
        let ghost before = r@;
        r.insert(p, e);
        proof {
            assert(s@.take(i + 1).drop_last() =~= s@.take(i as int));
            assert(s@.take(i + 1).last() == e);
            if all_valid_keyed(s@) {
                assert forall|m: int| 0 <= m < r@.len() implies valid_key(#[trigger] r@[m].0) by {
                    if m < p {
                        assert(r@[m] == before[m]);
                    } else if m > p {
                        assert(r@[m] == before[m - 1]);
                    }
                }
            }
        }
        i = i + 1;
    }
    assert(s@.take(s.len() as int) =~= s@);
    r
}

/// The keys of a keyed list.
fn keys_of(v: &Vec<(u64, u32)>) -> (r: Vec<u64>)
    ensures
        r@ == slot_keys(v@),
        all_valid_keyed(v@) ==> all_valid(r@),
{
    let mut r: Vec<u64> = Vec::new();
    let mut i: usize = 0;
    while i < v.len()
        invariant
            i <= v.len(),
            r@ =~= slot_keys(v@.take(i as int)),
        decreases v.len() - i,
    {
        r.push(v[i].0);
        i = i + 1;
        assert(r@ =~= slot_keys(v@.take(i as int)));
    }
    assert(v@.take(v.len() as int) =~= v@);
    r
}

/// Drives the listed switches and clocks from the instance inputs (see
/// `drive_inputs`).
fn drive_inputs_exec(comps: &mut ComponentSlots, ids: &Vec<u64>, ins: &[Signal])
    requires
        all_valid(ids@),
        slots_wf(component_slots(*old(comps))),
    ensures
        component_slots(*final(comps)) == drive_inputs(component_slots(*old(comps)), ids@, ins@, ids@.len() as int),
        slots_wf(component_slots(*final(comps))),
        crate::settle_laws::same_kinds(component_slots(*old(comps)), component_slots(*final(comps))),
{
    let mut idx: usize = 0;
    while idx < ids.len()
        invariant
            idx <= ids.len(),
            all_valid(ids@),
            component_slots(*comps) == drive_inputs(component_slots(*old(comps)), ids@, ins@, idx as int),
            slots_wf(component_slots(*comps)),
            crate::settle_laws::same_kinds(component_slots(*old(comps)), component_slots(*comps)),
        decreases ids.len() - idx,
    {
        let ghost c = component_slots(*comps);
        if idx < ins.len() {
            let k = ids[idx];
            let present = component_slots_get(comps, k).is_some();
            if present {
                let n = component_slots_get_mut(comps, k);
                let sig = ins[idx];
                n.state_flag = sig == Signal::One;
                n.output_signals = vec![sig];
                proof {
                    let nv = slot_get(c, k)->0;
                    assert(n.output_signals@ =~= seq![ins@[idx as int]]);
                    lemma_slot_set_keys(c, k, NodeView { state_flag: ins@[idx as int] == Signal::One, output_signals: seq![ins@[idx as int]], ..nv });
                    crate::settle_laws::lemma_set_same_kind(c, k, NodeView { state_flag: ins@[idx as int] == Signal::One, output_signals: seq![ins@[idx as int]], ..nv });
                }
            }
        }
        proof {
            assert(drive_inputs(component_slots(*old(comps)), ids@, ins@, idx + 1) == {
                let idx2 = idx as int;
                if idx2 < ins@.len() {
                    match slot_get(c, ids@[idx2]) {
                        Some(n) => slot_set(
                            c,
                            ids@[idx2],
                            NodeView { state_flag: ins@[idx2] == Signal::One, output_signals: seq![ins@[idx2]], ..n },
                        ),
                        None => c,
                    }
                } else {
                    c
                }
            });
        }
        idx = idx + 1;
    }
}

/// Input 0 of each listed component that exists (see `read_leds`).
fn read_leds_exec(comps: &ComponentSlots, ids: &Vec<u64>) -> (r: Vec<Signal>)
    requires
        all_valid(ids@),
    ensures
        r@ == read_leds(component_slots(*comps), ids@),
{
    let mut r: Vec<Signal> = Vec::new();
    let mut i: usize = 0;
    while i < ids.len()
        invariant
            i <= ids.len(),
            all_valid(ids@),
            r@ == read_leds(component_slots(*comps), ids@.take(i as int)),
        decreases ids.len() - i,
    {
        proof {
            assert(ids@.take(i + 1).drop_last() =~= ids@.take(i as int));
        }
        match component_slots_get(comps, ids[i]) {
            Some(n) => {
                let s = if n.input_signals.len() > 0 { n.input_signals[0] } else { Signal::Zero };
                r.push(s);
            },
            None => {},
        }
        i = i + 1;
    }
    assert(ids@.take(ids.len() as int) =~= ids@);
    r
}

} // verus!

verus! {

/// Evaluation changes only a node's state, edge memory and memory.
pub proof fn lemma_eval_keeps(n: NodeView, lib: Seq<(String, SubcircuitDef)>)
    ensures
        evaluation_keeps(n, spec_eval(n, lib).1),
{
}

/// `b` is `a` with at most its state, edge memory and memory changed.
pub open spec fn evaluation_keeps(a: NodeView, b: NodeView) -> bool {
    b == (NodeView { state_flag: b.state_flag, clock_prev: b.clock_prev, memory: b.memory, ..a })
}

/// The first library entry registered under `name`, by position.
fn find_def(lib: &Vec<(String, SubcircuitDef)>, name: &str) -> (r: Option<usize>)
    ensures
        r matches Some(i) ==> i < lib@.len() && lib_lookup(lib@, name@) == Some(lib@[i as int].1),
        r is None ==> lib_lookup(lib@, name@) is None,
{
    let mut i: usize = 0;
    while i < lib.len()
        invariant
            i <= lib.len(),
            forall|j: int| 0 <= j < i ==> (#[trigger] lib@[j]).0@ != name@,
        decreases lib.len() - i,
    {
        if crate::graph::str_eq(lib[i].0.as_str(), name) {
            proof { crate::graph::lemma_lib_lookup_at(lib@, i as int, name@); }
            return Some(i);
        }
        i = i + 1;
    }
    proof { crate::graph::lemma_lib_lookup_absent(lib@, name@); }
    None
}

/// Gate-level simulation of circuits.
pub struct Simulator;

impl Simulator {
    /// Evaluates a component with access to the registered subcircuit
    /// definitions: returns its outputs for its current inputs and updates
    /// its state, edge memory and memory (see `spec_eval`). Only a
    /// subcircuit instance reads the definitions; they must then be ones
    /// that can be evaluated (see `lib_ok`).
    pub fn eval_node_with_subcircuits(comp: &mut ComponentNode, subcircuits: &Vec<(String, SubcircuitDef)>) -> (r: Vec<Signal>)
        requires
            old(comp)@.kind is SubcircuitInstance ==> lib_ok(subcircuits@),
        ensures
            (r@, final(comp)@) == spec_eval(old(comp)@, subcircuits@),
        decreases subcircuits@, 1int, 0int,
    {
        proof { lemma_eval_keeps(comp@, subcircuits@); }
        match &comp.kind {
            GateKind::SrLatch => step_sr(comp),
            GateKind::DLatch => step_d_latch(comp),
            GateKind::DFlipFlop => step_dff(comp),
            GateKind::JkFlipFlop => step_jk(comp),
            GateKind::TFlipFlop => step_tff(comp),
            GateKind::ClockDivider => step_divider(comp),
            GateKind::Register4 => step_register(comp),
            GateKind::ShiftRegister4 => step_shift(comp),
            GateKind::Counter4 => step_counter(comp),
            GateKind::Ram16x4 => step_ram(comp),
            GateKind::Rom16x4 => rom_read(comp),
            GateKind::SubcircuitInstance(name) => {
                match find_def(subcircuits, name.as_str()) {
                    Some(i) => {
                        let def = &subcircuits[i].1;
                        proof {
                            lemma_lookup_decreases(subcircuits@, name@);
                            assert(subcircuits@[i as int] == subcircuits@[i as int]);
                        }
                        Self::evaluate_subcircuit(def, comp.input_signals.as_slice())
                    },
                    None => vec![sig_in(&comp.input_signals, 0)],
                }
            },
            _ => plain_outputs(&comp.kind, &comp.input_signals, comp.state_flag),
        }
    }

    /// Evaluates a component without subcircuit definitions.
    pub fn eval_node(comp: &mut ComponentNode) -> (r: Vec<Signal>)
        ensures
            (r@, final(comp)@) == spec_eval(old(comp)@, Seq::empty()),
    {
        let empty: Vec<(String, SubcircuitDef)> = Vec::new();
        Self::eval_node_with_subcircuits(comp, &empty)
    }

    /// Evaluates a subcircuit for the given instance inputs (see
    /// `spec_evaluate_subcircuit`).
    pub fn evaluate_subcircuit(sub_def: &SubcircuitDef, inputs: &[Signal]) -> (r: Vec<Signal>)
        requires
            io_positions_ordered(component_slots(sub_def.circuit.components)),
            lib_ok_for(component_slots(sub_def.circuit.components), sub_def.circuit.subcircuits@),
        ensures
            r@ == spec_evaluate_subcircuit(*sub_def, inputs@),
        decreases *sub_def, 5int, 0int,
    {
        let mut comps = crate::slots::component_slots_clone(&sub_def.circuit.components);
        let mut nets = crate::slots::net_slots_clone(&sub_def.circuit.nets);
        let _k = component_slots_keys(&comps);
        proof { crate::graph::lemma_keys_wf(component_slots(comps), _k@); }
        let ins_keyed = keyed_exec(&comps, false);
        let ins_sorted = sort_keyed(&ins_keyed);
        let in_ids = keys_of(&ins_sorted);
        let ghost c_before = component_slots(comps);
        drive_inputs_exec(&mut comps, &in_ids, inputs);
        proof {
            crate::settle_laws::lemma_same_kinds_instance(c_before, component_slots(comps));
            assert(decreases_to!(*sub_def => sub_def.circuit));
            assert(decreases_to!(sub_def.circuit => sub_def.circuit.subcircuits));
            assert(decreases_to!(sub_def.circuit.subcircuits => sub_def.circuit.subcircuits@));
        }
        Self::settle_any(&mut comps, &mut nets, &sub_def.circuit.subcircuits);
        let led_keyed = keyed_exec(&comps, true);
        let led_sorted = sort_keyed(&led_keyed);
        let led_ids = keys_of(&led_sorted);
        let mut res = read_leds_exec(&comps, &led_ids);
        if res.len() == 0 {
            res.push(Signal::Zero);
        }
        proof {
            if res@.len() == 1 && read_leds(component_slots(comps), led_ids@).len() == 0 {
                assert(res@ =~= seq![Signal::Zero]);
            }
        }
        res
    }

    /// Settles the given component and net maps with the given subcircuit
    /// definitions, which are read only when some component is an instance
    /// (see `spec_settle`).
    pub(crate) fn settle_any(comps: &mut ComponentSlots, nets: &mut NetSlots, lib: &Vec<(String, SubcircuitDef)>)
        requires
            lib_ok_for(component_slots(*old(comps)), lib@),
        ensures
            (component_slots(*final(comps)), net_slots(*final(nets))) == spec_settle(
                component_slots(*old(comps)),
                net_slots(*old(nets)),
                lib@,
            ),
            slot_keys(component_slots(*final(comps))) == slot_keys(component_slots(*old(comps))),
            slot_keys(net_slots(*final(nets))) == slot_keys(net_slots(*old(nets))),
        decreases lib@, 4int, 1int,
    {
        if instance_check(comps) || lib.len() == 0 {
            Self::settle_parts(comps, nets, lib);
        } else {
            // Without instances the library is never read: settle without it.
            let none: Vec<(String, SubcircuitDef)> = Vec::new();
            let _k = component_slots_keys(comps);
            proof {
                crate::graph::lemma_keys_wf(component_slots(*comps), _k@);
                crate::settle_laws::lemma_settle_lib_free(component_slots(*comps), net_slots(*nets), lib@);
                assert(none@ =~= lib@.subrange(0, 0));
                assert(decreases_to!(lib@ => lib@.subrange(0, 0)));
            }
            Self::settle_parts(comps, nets, &none);
        }
    }

    /// Settles the given component and net maps with the given subcircuit
    /// definitions (see `spec_settle`).
    pub(crate) fn settle_parts(comps: &mut ComponentSlots, nets: &mut NetSlots, lib: &Vec<(String, SubcircuitDef)>)
        requires
            lib_ok(lib@),
        ensures
            (component_slots(*final(comps)), net_slots(*final(nets))) == spec_settle(
                component_slots(*old(comps)),
                net_slots(*old(nets)),
                lib@,
            ),
            slot_keys(component_slots(*final(comps))) == slot_keys(component_slots(*old(comps))),
            slot_keys(net_slots(*final(nets))) == slot_keys(net_slots(*old(nets))),
        decreases lib@, 4int, 0int,
    {
        let keys = component_slots_keys(comps);
        let ghost c0 = component_slots(*comps);
        proof { crate::graph::lemma_keys_wf(c0, keys@); }
        // Evaluate every component once.
        let mut i: usize = 0;
        while i < keys.len()
            invariant
                i <= keys.len(),
                keys@ == slot_keys(c0),
                keys@.no_duplicates(),
                forall|j: int| 0 <= j < keys@.len() ==> valid_key(#[trigger] keys@[j]),
                c0 == component_slots(*old(comps)),
                slot_keys(component_slots(*comps)) == keys@,
                slots_wf(component_slots(*comps)),
                lib_ok(lib@),
                spec_phase1(component_slots(*comps), lib@, i as int) == spec_phase1(c0, lib@, 0),
            decreases keys.len() - i,
        {
            let ghost c = component_slots(*comps);
            proof {
                assert(slot_keys(c)[i as int] == keys@[i as int]);
                crate::slots::lemma_slot_get_at(c, i as int);
            }
            let n = component_slots_get_mut(comps, keys[i]);
            let out = Self::eval_node_with_subcircuits(n, lib);
            n.output_signals = out;
            proof {
                let r = spec_eval(c[i as int].1, lib@);
                let nv = NodeView { output_signals: r.0, ..r.1 };
                crate::slots::lemma_slot_set_at(c, i as int, nv);
                lemma_slot_set_keys(c, keys@[i as int], nv);
            }
            i = i + 1;
        }
        let ghost c1 = component_slots(*comps);
        proof { assert(c1 == spec_phase1(c0, lib@, 0)); }
        // Bring every net in line with its source.
        sync_nets(comps, nets);
        let _nk = net_slots_keys(nets);
        // Work through the queue.
        let mut q: Vec<u64> = Vec::new();
        let mut t: usize = 0;
        while t < keys.len()
            invariant
                t <= keys.len(),
                q@ == keys@.take(t as int),
            decreases keys.len() - t,
        {
            q.push(keys[t]);
            t = t + 1;
            assert(q@ =~= keys@.take(t as int));
        }
        assert(q@ =~= keys@);
        let max: u128 = (keys.len() as u128) * 40 + 150;
        let mut count: u128 = 0;
        let mut head: usize = 0;
        let ghost target = spec_settle_loop(component_slots(*comps), net_slots(*nets), q@, 0, max as int, lib@);
        assert(q@.skip(0) =~= q@);
        while head < q.len()
            invariant_except_break
                head <= q.len(),
                count <= max,
                max == settle_budget(c0.len()),
                all_valid(q@),
                slots_wf(component_slots(*comps)),
                slot_keys(net_slots(*nets)).no_duplicates(),
                spec_settle_loop(component_slots(*comps), net_slots(*nets), q@.skip(head as int), count as int, max as int, lib@) == target,
            invariant
                lib_ok(lib@),
                slot_keys(component_slots(*comps)) == keys@,
                slot_keys(net_slots(*nets)) == slot_keys(net_slots(*old(nets))),
            ensures
                (component_slots(*comps), net_slots(*nets)) == target,
            decreases max - count,
        {
            let ghost cs = component_slots(*comps);
            let ghost ns = net_slots(*nets);
            let ghost qs = q@.skip(head as int);
            let id = q[head];
            head = head + 1;
            proof { assert(q@.skip(head as int) =~= qs.drop_first()); }
            if count + 1 > max {
                all_unknown(comps, nets);
                proof {
                    assert(slot_keys(all_outputs_x(cs)) =~= slot_keys(cs));
                    assert(slot_keys(all_nets_x(ns)) =~= slot_keys(ns));
                }
                break;
            }
            count = count + 1;
            let present = component_slots_get(comps, id).is_some();
            if present {
                let n = component_slots_get_mut(comps, id);
                let out = Self::eval_node_with_subcircuits(n, lib);
                let changes = merge_into(&mut n.output_signals, &out);
                proof {
                    let nv0 = slot_get(cs, id)->0;
                    let r = spec_eval(nv0, lib@);
                    lemma_eval_keeps(nv0, lib@);
                    let nv = NodeView { output_signals: merge_outputs(nv0.output_signals, r.0), ..r.1 };
                    lemma_slot_set_keys(cs, id, nv);
                }
                propagate_all_exec(comps, nets, &mut q, head, id, &changes);
            }
        }
    }

    /// Full settle: evaluates every component, synchronises every net with
    /// its source, then propagates changes until nothing changes or the
    /// step budget runs out (see `spec_settle`).
    pub fn settle(circuit: &mut Circuit)
        requires
            lib_ok_for(old(circuit).comps(), old(circuit).subcircuits@),
        ensures
            (final(circuit).comps(), final(circuit).net_seq()) == spec_settle(
                old(circuit).comps(),
                old(circuit).net_seq(),
                old(circuit).subcircuits@,
            ),
            final(circuit).subcircuits == old(circuit).subcircuits,
            slot_keys(final(circuit).comps()) == slot_keys(old(circuit).comps()),
            slot_keys(final(circuit).net_seq()) == slot_keys(old(circuit).net_seq()),
    {
        Self::settle_any(&mut circuit.components, &mut circuit.nets, &circuit.subcircuits);
    }
}

} // verus!

verus! {

/// A component entry with its clock toggled (other kinds unchanged).
pub open spec fn clock_toggled(e: (u64, NodeView)) -> (u64, NodeView) {
    if e.1.kind is Clock {
        (e.0, NodeView { state_flag: !e.1.state_flag, ..e.1 })
    } else {
        e
    }
}

/// Every clock toggled.
pub open spec fn toggle_clocks(comps: Seq<(u64, NodeView)>) -> Seq<(u64, NodeView)> {
    Seq::new(comps.len(), |i: int| clock_toggled(comps[i]))
}

/// A clock step: on a rising edge every clock flips its level; then the
/// circuit settles.
pub open spec fn spec_tick(
    comps: Seq<(u64, NodeView)>,
    nets: Seq<(u64, NetView)>,
    lib: Seq<(String, SubcircuitDef)>,
    edge: ClockEdge,
) -> (Seq<(u64, NodeView)>, Seq<(u64, NetView)>) {
    spec_settle(if edge is Rising { toggle_clocks(comps) } else { comps }, nets, lib)
}

/// A fresh component of kind `k` with the given inputs and state flag.
pub open spec fn probe_node(k: GateKind, ins: Seq<Signal>, state_flag: bool) -> NodeView {
    NodeView { input_signals: ins, state_flag, ..spec_new_node(k, (0, 0)) }
}

impl Simulator {
    /// Advances the clocks (on a rising edge every clock toggles) and
    /// settles the circuit.
    pub fn tick(circuit: &mut Circuit, edge: ClockEdge)
        requires
            lib_ok_for(old(circuit).comps(), old(circuit).subcircuits@),
        ensures
            (final(circuit).comps(), final(circuit).net_seq()) == spec_tick(
                old(circuit).comps(),
                old(circuit).net_seq(),
                old(circuit).subcircuits@,
                edge,
            ),
            final(circuit).subcircuits == old(circuit).subcircuits,
            slot_keys(final(circuit).comps()) == slot_keys(old(circuit).comps()),
            slot_keys(final(circuit).net_seq()) == slot_keys(old(circuit).net_seq()),
    {
        if edge == ClockEdge::Rising {
            let keys = component_slots_keys(&circuit.components);
            let ghost c0 = circuit.comps();
            let mut i: usize = 0;
            while i < keys.len()
                invariant
                    i <= keys.len(),
                    keys@ == slot_keys(c0),
                    keys@.no_duplicates(),
                    forall|j: int| 0 <= j < keys@.len() ==> valid_key(#[trigger] keys@[j]),
                    c0 == old(circuit).comps(),
                    circuit.net_seq() == old(circuit).net_seq(),
                    circuit.subcircuits == old(circuit).subcircuits,
                    circuit.comps().len() == c0.len(),
                    forall|j: int| 0 <= j < c0.len() ==> #[trigger] circuit.comps()[j] == if j < i { clock_toggled(c0[j]) } else { c0[j] },
                decreases keys.len() - i,
            {
                let ghost c = circuit.comps();
                proof {
                    assert(slot_keys(c) =~= slot_keys(c0));
                    assert(slot_keys(c)[i as int] == keys@[i as int]);
                    crate::slots::lemma_slot_get_at(c, i as int);
                }
                let is_clock = match component_slots_get(&circuit.components, keys[i]) {
                    Some(n) => matches!(n.kind, GateKind::Clock),
                    None => false,
                };
                if is_clock {
                    let n = component_slots_get_mut(&mut circuit.components, keys[i]);
                    n.state_flag = !n.state_flag;
                    proof {
                        crate::slots::lemma_slot_set_at(c, i as int, clock_toggled(c0[i as int]).1);
                    }
                }
                i = i + 1;
            }
            assert(circuit.comps() =~= toggle_clocks(c0));
            assert(slot_keys(toggle_clocks(c0)) =~= slot_keys(c0));
            proof {
                assert(crate::settle_laws::same_kinds(c0, circuit.comps()));
                crate::settle_laws::lemma_same_kinds_instance(c0, circuit.comps());
            }
        }
        Self::settle(circuit);
    }
}

impl GateKind {
    /// Evaluates a fresh component of this kind on the given inputs and
    /// state flag, without subcircuit definitions.
    pub fn eval(&self, inputs: &[Signal], state_flag: bool) -> (r: Vec<Signal>)
        ensures
            r@ == spec_eval(probe_node(*self, inputs@, state_flag), Seq::empty()).0,
    {
        let mut node = ComponentNode::new(self.clone(), (0, 0));
        node.input_signals = vstd::slice::slice_to_vec(inputs);
        node.state_flag = state_flag;
        assert(node@ == probe_node(*self, inputs@, state_flag));
        Simulator::eval_node(&mut node)
    }
}

} // verus!

verus! {

// ------------------------------------------------------------------
// Laws of the arithmetic components
// ------------------------------------------------------------------

/// 1 for `One`, 0 for anything else.
pub open spec fn level(s: Signal) -> int {
    if s == Signal::One { 1 } else { 0 }
}

/// The first `n` inputs (missing ones count as `Zero`) are driven levels.
pub open spec fn inputs_driven(ins: Seq<Signal>, n: int) -> bool {
    forall|i: int| 0 <= i < n ==> is_bool(#[trigger] sig_at(ins, i))
}

/// A half adder adds: sum + 2 * carry = a + b, on driven inputs.
pub proof fn lemma_half_adder_adds(ins: Seq<Signal>, st: bool)
    requires
        inputs_driven(ins, 2),
    ensures
        ({
            let o = eval_plain(GateKind::HalfAdder, ins, st);
            level(o[0]) + 2 * level(o[1]) == level(sig_at(ins, 0)) + level(sig_at(ins, 1))
        }),
{
    assert(is_bool(sig_at(ins, 0)) && is_bool(sig_at(ins, 1)));
}

/// A full adder adds: sum + 2 * carry = a + b + carry-in, on driven inputs.
pub proof fn lemma_full_adder_adds(ins: Seq<Signal>, st: bool)
    requires
        inputs_driven(ins, 3),
    ensures
        ({
            let o = eval_plain(GateKind::FullAdder, ins, st);
            level(o[0]) + 2 * level(o[1]) == level(sig_at(ins, 0)) + level(sig_at(ins, 1)) + level(sig_at(ins, 2))
        }),
{
    assert(is_bool(sig_at(ins, 0)) && is_bool(sig_at(ins, 1)) && is_bool(sig_at(ins, 2)));
}

/// A half subtractor subtracts: a - b = difference - 2 * borrow, on driven
/// inputs.
pub proof fn lemma_half_subtractor_subtracts(ins: Seq<Signal>, st: bool)
    requires
        inputs_driven(ins, 2),
    ensures
        ({
            let o = eval_plain(GateKind::HalfSubtractor, ins, st);
            level(sig_at(ins, 0)) - level(sig_at(ins, 1)) == level(o[0]) - 2 * level(o[1])
        }),
{
    assert(is_bool(sig_at(ins, 0)) && is_bool(sig_at(ins, 1)));
}

/// A full subtractor subtracts: a - b - borrow-in = difference - 2 * borrow,
/// on driven inputs.
pub proof fn lemma_full_subtractor_subtracts(ins: Seq<Signal>, st: bool)
    requires
        inputs_driven(ins, 3),
    ensures
        ({
            let o = eval_plain(GateKind::FullSubtractor, ins, st);
            level(sig_at(ins, 0)) - level(sig_at(ins, 1)) - level(sig_at(ins, 2)) == level(o[0]) - 2 * level(o[1])
        }),
{
    assert(is_bool(sig_at(ins, 0)) && is_bool(sig_at(ins, 1)) && is_bool(sig_at(ins, 2)));
}

/// The value of the `n` signals of `s` from `start` on (missing ones count
/// as `Zero`), least significant first.
pub open spec fn word(s: Seq<Signal>, start: int, n: nat) -> int
    decreases n,
{
    if n == 0 { 0 } else { level(sig_at(s, start)) + 2 * word(s, start + 1, (n - 1) as nat) }
}

/// Operand bits `i..3` of A plus those of B, weighted from bit `i`.
pub open spec fn stage_sum(ins: Seq<Signal>, i: nat) -> int
    decreases 4 - i,
{
    if i >= 4 {
        0
    } else {
        level(sig_at(ins, i as int)) + level(sig_at(ins, 4 + i as int)) + 2 * stage_sum(ins, i + 1)
    }
}

/// Reading past a prepended signal reads the original sequence.
proof fn lemma_word_shift(x: Signal, s: Seq<Signal>, a: int, n: nat)
    requires
        a >= 0,
    ensures
        word(seq![x] + s, a + 1, n) == word(s, a, n),
    decreases n,
{
    if n > 0 {
        let t = seq![x] + s;
        assert(sig_at(t, a + 1) == sig_at(s, a));
        lemma_word_shift(x, s, a + 1, (n - 1) as nat);
    }
}

/// Prepending a signal doubles the value and adds its level.
proof fn lemma_word_cons(x: Signal, s: Seq<Signal>, n: nat)
    ensures
        word(seq![x] + s, 0, n + 1) == level(x) + 2 * word(s, 0, n),
{
    let t = seq![x] + s;
    assert(sig_at(t, 0) == x);
    lemma_word_shift(x, s, 0, n);
}

/// One ripple stage: with driven operands and carry, the stage's sum bit
/// and the later stages together add the remaining operand bits.
proof fn lemma_ripple_from(ins: Seq<Signal>, i: nat, c: Signal)
    requires
        i <= 4,
        inputs_driven(ins, 9),
        is_bool(c),
    ensures
        ripple(ins, i, c).len() == 5 - i,
        word(ripple(ins, i, c), 0, (5 - i) as nat) == stage_sum(ins, i) + level(c),
    decreases 4 - i,
{
    reveal_with_fuel(weight, 6);
    if i < 4 {
        let a = sig_at(ins, i as int);
        let b = sig_at(ins, 4 + i as int);
        assert(is_bool(a) && is_bool(b));
        let c2 = spec_or(spec_and(a, b), spec_and(c, spec_xor(a, b)));
        lemma_ripple_from(ins, i + 1, c2);
        let rest = ripple(ins, i + 1, c2);
        let r = ripple(ins, i, c);
        assert(r == seq![spec_xor(spec_xor(a, b), c)] + rest);
        lemma_word_cons(spec_xor(spec_xor(a, b), c), rest, (4 - i) as nat);
    } else {
        assert(ripple(ins, i, c) == seq![c]);
        reveal_with_fuel(word, 2);
    }
}

/// The 4-bit ripple-carry adder adds: its five outputs (sum bits, then
/// carry) read as a number equal A (inputs 0..3) + B (inputs 4..7) +
/// carry-in (input 8), on driven inputs.
pub proof fn lemma_ripple_adder_adds(ins: Seq<Signal>)
    requires
        inputs_driven(ins, 9),
    ensures
        ({
            let o = ripple(ins, 0, sig_at(ins, 8));
            &&& o.len() == 5
            &&& word(o, 0, 5) == word(ins, 0, 4) + word(ins, 4, 4) + level(sig_at(ins, 8))
        }),
{
    assert(is_bool(sig_at(ins, 8)));
    lemma_ripple_from(ins, 0, sig_at(ins, 8));
    reveal_with_fuel(stage_sum, 5);
    reveal_with_fuel(word, 5);
}

/// A nibble is the sum of its four bits.
proof fn lemma_nibble_parts(v: u8)
    by (bit_vector)
    requires
        v < 16,
    ensures
        v == (if v & 1u8 != 0 { 1u8 } else { 0u8 }) + 2 * (if v & 2u8 != 0 { 1u8 } else { 0u8 }) + 4 * (if v & 4u8
            != 0 { 1u8 } else { 0u8 }) + 8 * (if v & 8u8 != 0 { 1u8 } else { 0u8 }),
{
}

/// The bits of a nibble put together from four bits.
proof fn lemma_nibble_from_bits(v: u8, x0: u8, x1: u8, x2: u8, x3: u8)
    by (bit_vector)
    requires
        x0 <= 1,
        x1 <= 1,
        x2 <= 1,
        x3 <= 1,
        v == x0 + 2 * x1 + 4 * x2 + 8 * x3,
    ensures
        v < 16,
        (v & 1u8 != 0) == (x0 == 1),
        (v & 2u8 != 0) == (x1 == 1),
        (v & 4u8 != 0) == (x2 == 1),
        (v & 8u8 != 0) == (x3 == 1),
{
}

/// Bitwise operations act bit by bit on nibbles.
proof fn lemma_nibble_logic(a: u8, b: u8)
    by (bit_vector)
    requires
        a < 16,
        b < 16,
    ensures
        a & b < 16,
        a | b < 16,
        a ^ b < 16,
        ((a & b) & 1u8 != 0) == (a & 1u8 != 0 && b & 1u8 != 0),
        ((a & b) & 2u8 != 0) == (a & 2u8 != 0 && b & 2u8 != 0),
        ((a & b) & 4u8 != 0) == (a & 4u8 != 0 && b & 4u8 != 0),
        ((a & b) & 8u8 != 0) == (a & 8u8 != 0 && b & 8u8 != 0),
        ((a | b) & 1u8 != 0) == (a & 1u8 != 0 || b & 1u8 != 0),
        ((a | b) & 2u8 != 0) == (a & 2u8 != 0 || b & 2u8 != 0),
        ((a | b) & 4u8 != 0) == (a & 4u8 != 0 || b & 4u8 != 0),
        ((a | b) & 8u8 != 0) == (a & 8u8 != 0 || b & 8u8 != 0),
        ((a ^ b) & 1u8 != 0) == ((a & 1u8 != 0) != (b & 1u8 != 0)),
        ((a ^ b) & 2u8 != 0) == ((a & 2u8 != 0) != (b & 2u8 != 0)),
        ((a ^ b) & 4u8 != 0) == ((a & 4u8 != 0) != (b & 4u8 != 0)),
        ((a ^ b) & 8u8 != 0) == ((a & 8u8 != 0) != (b & 8u8 != 0)),
{
}

/// A nibble's four output bits read back as the nibble.
pub(crate) proof fn lemma_nibble_word(v: u8)
    requires
        v < 16,
    ensures
        word(nibble_bits(v), 0, 4) == v,
        forall|i: int| 0 <= i < 4 ==> is_bool(#[trigger] nibble_bits(v)[i]),
{
    reveal_with_fuel(word, 5);
    lemma_nibble_parts(v);
}

/// Four inputs from `start` read as a nibble, bit by bit.
pub(crate) proof fn lemma_operand(ins: Seq<Signal>, start: int)
    ensures
        bits_value(ins, start, 4) == word(ins, start, 4),
        bits_value(ins, start, 4) < 16,
        ((bits_value(ins, start, 4) as u8) & 1u8 != 0) == high_at(ins, start),
        ((bits_value(ins, start, 4) as u8) & 2u8 != 0) == high_at(ins, start + 1),
        ((bits_value(ins, start, 4) as u8) & 4u8 != 0) == high_at(ins, start + 2),
        ((bits_value(ins, start, 4) as u8) & 8u8 != 0) == high_at(ins, start + 3),
{
    reveal_with_fuel(bits_value, 5);
    reveal_with_fuel(weight, 5);
    reveal_with_fuel(word, 5);
    let h0 = bit(high_at(ins, start));
    let h1 = bit(high_at(ins, start + 1));
    let h2 = bit(high_at(ins, start + 2));
    let h3 = bit(high_at(ins, start + 3));
    assert(weight(0) == 1 && weight(1) == 2 && weight(2) == 4 && weight(3) == 8);
    assert(h0 * weight(0) == h0) by (nonlinear_arith)
        requires
            weight(0) == 1,
    ;
    assert(h1 * weight(1) == 2 * h1) by (nonlinear_arith)
        requires
            weight(1) == 2,
    ;
    assert(h2 * weight(2) == 4 * h2) by (nonlinear_arith)
        requires
            weight(2) == 4,
    ;
    assert(h3 * weight(3) == 8 * h3) by (nonlinear_arith)
        requires
            weight(3) == 8,
    ;
    assert(bits_value(ins, start, 1) == h0);
    assert(bits_value(ins, start, 2) == h0 + 2 * h1);
    assert(bits_value(ins, start, 3) == h0 + 2 * h1 + 4 * h2);
    assert(bits_value(ins, start, 4) == h0 + 2 * h1 + 4 * h2 + 8 * h3);
    let x0 = h0 as u8;
    let x1 = h1 as u8;
    let x2 = h2 as u8;
    let x3 = h3 as u8;
    lemma_nibble_from_bits(bits_value(ins, start, 4) as u8, x0, x1, x2, x3);
}

/// The opcode inputs read as a number.
proof fn lemma_opcode(ins: Seq<Signal>)
    ensures
        bits_value(ins, 8, 3) == word(ins, 8, 3),
{
    reveal_with_fuel(bits_value, 4);
    reveal_with_fuel(weight, 4);
    reveal_with_fuel(word, 4);
}

/// The 4-bit ALU on inputs A (0..3), B (4..7) and opcode (8..10), all
/// least significant first: its four result outputs read as a number `r`,
/// then the zero flag (high exactly when `r` is 0), then the carry. Opcode 0
/// adds (`r` plus 16 times the carry is A + B), opcode 1 subtracts (`r` is
/// A - B plus 16 when borrowing, and the carry is the borrow), opcodes 2,
/// 3 and 4 combine A and B bit by bit with AND, OR and XOR (carry low),
/// opcode 5 complements A (`r + A == 15`, carry low), opcode 6 shifts A left
/// (the carry takes the bit shifted out) and opcode 7 shifts A right (the
/// carry takes the bit shifted out).
#[verifier::rlimit(60)]
pub proof fn lemma_alu_operations(ins: Seq<Signal>, st: bool)
    ensures
        ({
            let o = eval_plain(GateKind::Alu4, ins, st);
            let a = word(ins, 0, 4);
            let b = word(ins, 4, 4);
            let op = word(ins, 8, 3);
            let r = word(o, 0, 4);
            &&& o.len() == 6
            &&& forall|i: int| 0 <= i < 6 ==> is_bool(#[trigger] o[i])
            &&& (o[4] == Signal::One) == (r == 0)
            &&& op == 0 ==> r + 16 * level(o[5]) == a + b
            &&& op == 1 ==> r == a - b + 16 * level(o[5]) && (o[5] == Signal::One) == (a < b)
            &&& op == 2 ==> o[5] == Signal::Zero && forall|i: int|
                0 <= i < 4 ==> (#[trigger] o[i] == Signal::One) == (high_at(ins, i) && high_at(ins, 4 + i))
            &&& op == 3 ==> o[5] == Signal::Zero && forall|i: int|
                0 <= i < 4 ==> (#[trigger] o[i] == Signal::One) == (high_at(ins, i) || high_at(ins, 4 + i))
            &&& op == 4 ==> o[5] == Signal::Zero && forall|i: int|
                0 <= i < 4 ==> (#[trigger] o[i] == Signal::One) == (high_at(ins, i) != high_at(ins, 4 + i))
            &&& op == 5 ==> r + a == 15 && o[5] == Signal::Zero
            &&& op == 6 ==> r + 16 * level(o[5]) == 2 * a
            &&& op == 7 ==> 2 * r + level(o[5]) == a
        }),
{
    let o = eval_plain(GateKind::Alu4, ins, st);
    lemma_operand(ins, 0);
    lemma_operand(ins, 4);
    lemma_opcode(ins);
    let a8 = bits_value(ins, 0, 4) as u8;
    let b8 = bits_value(ins, 4, 4) as u8;
    lemma_nibble_logic(a8, b8);
    let op = bits_value(ins, 8, 3);
    let res = alu_result(a8, b8, op).0;
    if op == 1 {
        if a8 < b8 {
            assert((a8 - b8) % 16 == a8 - b8 + 16);
        } else {
            assert((a8 - b8) % 16 == a8 - b8);
        }
    }
    assert(res < 16);
    lemma_nibble_word(res);
    assert(o == nibble_bits(res) + seq![from_bool(res == 0), from_bool(alu_result(a8, b8, op).1)]);
    assert(o[0] == nibble_bits(res)[0] && o[1] == nibble_bits(res)[1] && o[2] == nibble_bits(res)[2] && o[3] == nibble_bits(res)[3]);
    assert(word(o, 0, 4) == word(nibble_bits(res), 0, 4)) by {
        reveal_with_fuel(word, 5);
    }
}

/// The carry-lookahead adder agrees with the ripple-carry adder on driven
/// inputs.
#[verifier::rlimit(80)]
pub proof fn lemma_lookahead_matches_ripple(ins: Seq<Signal>)
    requires
        inputs_driven(ins, 9),
    ensures
        eval_cla(ins) == ripple(ins, 0, sig_at(ins, 8)),
{
    let a0 = sig_at(ins, 0) == Signal::One;
    let a1 = sig_at(ins, 1) == Signal::One;
    let a2 = sig_at(ins, 2) == Signal::One;
    let a3 = sig_at(ins, 3) == Signal::One;
    let b0 = sig_at(ins, 4) == Signal::One;
    let b1 = sig_at(ins, 5) == Signal::One;
    let b2 = sig_at(ins, 6) == Signal::One;
    let b3 = sig_at(ins, 7) == Signal::One;
    let c = sig_at(ins, 8) == Signal::One;
    assert(is_bool(sig_at(ins, 0)) && is_bool(sig_at(ins, 1)) && is_bool(sig_at(ins, 2)));
    assert(is_bool(sig_at(ins, 3)) && is_bool(sig_at(ins, 4)) && is_bool(sig_at(ins, 5)));
    assert(is_bool(sig_at(ins, 6)) && is_bool(sig_at(ins, 7)) && is_bool(sig_at(ins, 8)));
    assert(forall|x: bool, y: bool| #![trigger spec_and(from_bool(x), from_bool(y))] spec_and(from_bool(x), from_bool(y)) == from_bool(x && y));
    assert(forall|x: bool, y: bool| #![trigger spec_or(from_bool(x), from_bool(y))] spec_or(from_bool(x), from_bool(y)) == from_bool(x || y));
    assert(forall|x: bool, y: bool| #![trigger spec_xor(from_bool(x), from_bool(y))] spec_xor(from_bool(x), from_bool(y)) == from_bool(x != y));
    // carries of the ripple adder, stage by stage
    let r1 = (a0 && b0) || (c && (a0 != b0));
    let r2 = (a1 && b1) || (r1 && (a1 != b1));
    let r3 = (a2 && b2) || (r2 && (a2 != b2));
    let r4 = (a3 && b3) || (r3 && (a3 != b3));
    reveal_with_fuel(ripple, 5);
    let rp = ripple(ins, 0, sig_at(ins, 8));
    assert(rp =~= seq![
        from_bool((a0 != b0) != c),
        from_bool((a1 != b1) != r1),
        from_bool((a2 != b2) != r2),
        from_bool((a3 != b3) != r3),
        from_bool(r4),
    ]);
    assert(eval_cla(ins) =~= seq![
        from_bool((a0 != b0) != c),
        from_bool((a1 != b1) != r1),
        from_bool((a2 != b2) != r2),
        from_bool((a3 != b3) != r3),
        from_bool(r4),
    ]);
}

} // verus!

verus! {

// ------------------------------------------------------------------
// Checking that a circuit can be simulated
// ------------------------------------------------------------------

/// Whether some component is a subcircuit instance (see `has_instance`).
fn instance_check(comps: &ComponentSlots) -> (r: bool)
    ensures
        r == has_instance(component_slots(*comps)),
{
    let keys = component_slots_keys(comps);
    let ghost cs = component_slots(*comps);
    proof { crate::graph::lemma_keys_wf(cs, keys@); }
    let mut i: usize = 0;
    while i < keys.len()
        invariant
            i <= keys.len(),
            cs == component_slots(*comps),
            keys@ == slot_keys(cs),
            slots_wf(cs),
            forall|j: int| 0 <= j < i ==> !((#[trigger] cs[j].1).kind is SubcircuitInstance),
        decreases keys.len() - i,
    {
        proof {
            assert(slot_keys(cs)[i as int] == keys@[i as int]);
            crate::slots::lemma_slot_get_at(cs, i as int);
        }
        match component_slots_get(comps, keys[i]) {
            Some(n) => {
                if matches!(n.kind, GateKind::SubcircuitInstance(_)) {
                    return true;
                }
            },
            None => {},
        }
        i = i + 1;
    }
    assert(keys@.len() == cs.len());
    false
}

/// Whether every switch, clock and LED has a numeric height.
fn heights_check(comps: &ComponentSlots) -> (r: bool)
    ensures
        r == io_positions_ordered(component_slots(*comps)),
{
    let keys = component_slots_keys(comps);
    let ghost cs = component_slots(*comps);
    proof { crate::graph::lemma_keys_wf(cs, keys@); }
    let mut i: usize = 0;
    while i < keys.len()
        invariant
            i <= keys.len(),
            cs == component_slots(*comps),
            keys@ == slot_keys(cs),
            slots_wf(cs),
            forall|j: int| 0 <= j < i && is_io_kind((#[trigger] cs[j].1).kind) ==> !is_nan_bits(cs[j].1.pos.1),
        decreases keys.len() - i,
    {
        proof {
            assert(slot_keys(cs)[i as int] == keys@[i as int]);
            crate::slots::lemma_slot_get_at(cs, i as int);
        }
        match component_slots_get(comps, keys[i]) {
            Some(n) => {
                let k = &n.kind;
                let is_io = matches!(k, GateKind::ToggleSwitch | GateKind::Clock | GateKind::Led);
                let b = n.pos.1;
                if is_io && (b / 0x80_0000) % 256 == 255 && b % 0x80_0000 != 0 {
                    return false;
                }
            },
            None => {},
        }
        i = i + 1;
    }
    assert(keys@.len() == cs.len());
    true
}

/// Whether a library's definitions can be evaluated (see `lib_ok`).
pub fn library_ok(lib: &Vec<(String, SubcircuitDef)>) -> (r: bool)
    ensures
        r == lib_ok(lib@),
    decreases lib@,
{
    let mut i: usize = 0;
    while i < lib.len()
        invariant
            i <= lib.len(),
            forall|j: int|
                0 <= j < i ==> {
                    let c = (#[trigger] lib@[j]).1.circuit;
                    &&& io_positions_ordered(component_slots(c.components))
                    &&& (has_instance(component_slots(c.components)) ==> lib_ok(c.subcircuits@))
                },
        decreases lib.len() - i,
    {
        let c = &lib[i].1.circuit;
        if !heights_check(&c.components) {
            return false;
        }
        proof {
            assert(decreases_to!(lib@ => lib@[i as int]));
            assert(decreases_to!(lib@[i as int] => lib@[i as int].1));
            assert(decreases_to!(lib@[i as int].1 => lib@[i as int].1.circuit));
            assert(decreases_to!(lib@[i as int].1.circuit => lib@[i as int].1.circuit.subcircuits));
            assert(decreases_to!(lib@[i as int].1.circuit.subcircuits => lib@[i as int].1.circuit.subcircuits@));
        }
        if instance_check(&c.components) && !library_ok(&c.subcircuits) {
            return false;
        }
        i = i + 1;
    }
    true
}

/// Whether settling these components with this library can run (see
/// `lib_ok_for`).
pub(crate) fn library_ok_for(comps: &ComponentSlots, lib: &Vec<(String, SubcircuitDef)>) -> (r: bool)
    ensures
        r == lib_ok_for(component_slots(*comps), lib@),
{
    !instance_check(comps) || library_ok(lib)
}

impl Circuit {
    /// Whether the circuit can be settled: it holds no subcircuit instance,
    /// or its subcircuit library can be evaluated.
    pub fn can_simulate(&self) -> (r: bool)
        ensures
            r == lib_ok_for(self.comps(), self.subcircuits@),
    {
        library_ok_for(&self.components, &self.subcircuits)
    }
}

} // verus!
