//! What the latches, flip-flops, registers, counter and memories do on
//! their inputs, and that evaluating again with unchanged inputs changes
//! nothing.
use vstd::prelude::*;
use crate::component::GateKind;
use crate::graph::{NodeView, SubcircuitDef};
use crate::signal::{is_bool, Signal};
use crate::sim::{high_at, nibble_bits, spec_eval, word};

verus! {

/// The low four bits of a byte are its remainder by 16.
proof fn lemma_low_nibble(v: u8)
    by (bit_vector)
    ensures
        v % 16 == (if v & 1u8 != 0 { 1u8 } else { 0u8 }) + 2 * (if v & 2u8 != 0 { 1u8 } else { 0u8 }) + 4 * (if v & 4u8
            != 0 { 1u8 } else { 0u8 }) + 8 * (if v & 8u8 != 0 { 1u8 } else { 0u8 }),
{
}

/// A byte's four output bits read as its remainder by 16.
proof fn lemma_nibble_word_any(v: u8)
    ensures
        word(nibble_bits(v), 0, 4) == v % 16,
        nibble_bits(v).len() == 4,
{
    reveal_with_fuel(word, 5);
    lemma_low_nibble(v);
}

/// A rising edge on input `port`: high now, low at the previous evaluation.
pub open spec fn edge_at(n: NodeView, port: int) -> bool {
    high_at(n.input_signals, port) && !n.clock_prev
}

/// The latches and flip-flops: Q (output 0) and its complement (output 1)
/// are driven and opposite, and Q becomes the new stored bit. An SR latch
/// sets on S (input 0) alone, resets on R (input 1) alone and holds
/// otherwise; a D latch follows D (input 0) while EN (input 1) is high; a D
/// flip-flop takes D on a rising edge of CLK (input 1); a JK flip-flop on a
/// rising edge of CLK (input 2) sets on J alone, resets on K alone, toggles
/// on both and holds on neither; a T flip-flop toggles on a rising edge of
/// CLK (input 1) while T (input 0) is high. Otherwise the stored bit holds.
pub proof fn lemma_latches_and_flip_flops(n: NodeView, lib: Seq<(String, SubcircuitDef)>)
    requires
        n.kind is SrLatch || n.kind is DLatch || n.kind is DFlipFlop || n.kind is JkFlipFlop || n.kind is TFlipFlop,
    ensures
        ({
            let r = spec_eval(n, lib);
            let o = r.0;
            let q = o[0] == Signal::One;
            let ins = n.input_signals;
            let old_q = n.state_flag;
            &&& o.len() == 2
            &&& is_bool(o[0]) && is_bool(o[1])
            &&& (o[1] == Signal::One) == !q
            &&& r.1.state_flag == q
            &&& n.kind is SrLatch ==> q == if high_at(ins, 0) && !high_at(ins, 1) {
                true
            } else if high_at(ins, 1) && !high_at(ins, 0) {
                false
            } else {
                old_q
            }
            &&& n.kind is DLatch ==> q == if high_at(ins, 1) { high_at(ins, 0) } else { old_q }
            &&& n.kind is DFlipFlop ==> q == if edge_at(n, 1) { high_at(ins, 0) } else { old_q }
            &&& n.kind is JkFlipFlop ==> q == if !edge_at(n, 2) {
                old_q
            } else if high_at(ins, 0) && high_at(ins, 1) {
                !old_q
            } else if high_at(ins, 0) {
                true
            } else if high_at(ins, 1) {
                false
            } else {
                old_q
            }
            &&& n.kind is TFlipFlop ==> q == (old_q != (edge_at(n, 1) && high_at(ins, 0)))
        }),
{
}

/// The 4-bit counter's outputs read as a number: 0 while RST (input 1) is
/// high; otherwise one more than the count it held (modulo 16) on a rising
/// edge of CLK (input 0), and the count it held otherwise.
pub proof fn lemma_counter_counts(n: NodeView, lib: Seq<(String, SubcircuitDef)>)
    requires
        n.kind is Counter4,
    ensures
        ({
            let r = spec_eval(n, lib);
            let held: int = if n.memory.len() == 0 { 0 } else { n.memory[0] as int };
            &&& r.0.len() == 4
            &&& word(r.0, 0, 4) == if high_at(n.input_signals, 1) {
                0
            } else if edge_at(n, 0) {
                (held + 1) % 16
            } else {
                held % 16
            }
        }),
{
    let m = if n.memory.len() == 0 { seq![0u8] } else { n.memory };
    let rst = high_at(n.input_signals, 1);
    let m2 = if rst {
        m.update(0, 0u8)
    } else if edge_at(n, 0) {
        m.update(0, ((m[0] + 1) % 16) as u8)
    } else {
        m
    };
    lemma_nibble_word_any(m2[0]);
}

/// A RAM written on a rising edge of CLK (input 9) with WE (input 8) high
/// shows the written word DIN (inputs 4..7) at once, and a following
/// evaluation at the same address (inputs 0..3) reads it back, whatever its
/// WE and CLK: the words are read least significant bit first.
pub proof fn lemma_ram_reads_back_write(n: NodeView, next_inputs: Seq<Signal>, lib: Seq<(String, SubcircuitDef)>)
    requires
        n.kind is Ram16x4,
        high_at(n.input_signals, 8),
        edge_at(n, 9),
        word(next_inputs, 0, 4) == word(n.input_signals, 0, 4),
    ensures
        ({
            let w = spec_eval(n, lib);
            let r = spec_eval(NodeView { input_signals: next_inputs, ..w.1 }, lib);
            &&& word(w.0, 0, 4) == word(n.input_signals, 4, 4)
            &&& word(r.0, 0, 4) == word(n.input_signals, 4, 4)
        }),
{
    crate::sim::lemma_operand(n.input_signals, 0);
    crate::sim::lemma_operand(n.input_signals, 4);
    crate::sim::lemma_operand(next_inputs, 0);
    let din = crate::sim::bits_value(n.input_signals, 4, 4) as u8;
    crate::sim::lemma_nibble_word(din);
}

/// A ROM's outputs read as the word stored at the address its inputs 0..3
/// give (least significant bit first), modulo 16, or 0 past the end of its
/// memory.
pub proof fn lemma_rom_reads(n: NodeView, lib: Seq<(String, SubcircuitDef)>)
    requires
        n.kind is Rom16x4,
    ensures
        ({
            let a = word(n.input_signals, 0, 4);
            let o = spec_eval(n, lib).0;
            &&& o.len() == 4
            &&& word(o, 0, 4) == if a < n.memory.len() { n.memory[a] % 16 } else { 0 }
        }),
{
    crate::sim::lemma_operand(n.input_signals, 0);
    let a = crate::sim::bits_value(n.input_signals, 0, 4) as int;
    let v = if a < n.memory.len() { n.memory[a] } else { 0u8 };
    lemma_nibble_word_any(v);
}

/// The 4-bit register shows D0..D3 (inputs 0..3) after a rising edge of
/// CLK (input 4), and otherwise the bits it held.
pub proof fn lemma_register_stores(n: NodeView, lib: Seq<(String, SubcircuitDef)>)
    requires
        n.kind is Register4,
        n.memory.len() >= 4,
    ensures
        ({
            let o = spec_eval(n, lib).0;
            &&& o.len() == n.memory.len()
            &&& forall|i: int|
                0 <= i < 4 ==> (#[trigger] o[i] == Signal::One) == if edge_at(n, 4) {
                    high_at(n.input_signals, i)
                } else {
                    n.memory[i] == 1
                }
        }),
{
}

/// The 4-bit shift register on a rising edge of CLK (input 1) shows D
/// (input 0) at bit 0 and the bit it held at position `i` at position
/// `i + 1`; otherwise it shows the bits it held.
pub proof fn lemma_shift_register_shifts(n: NodeView, lib: Seq<(String, SubcircuitDef)>)
    requires
        n.kind is ShiftRegister4,
        n.memory.len() >= 4,
    ensures
        ({
            let o = spec_eval(n, lib).0;
            &&& o.len() == n.memory.len()
            &&& edge_at(n, 1) ==> (o[0] == Signal::One) == high_at(n.input_signals, 0) && forall|i: int|
                0 <= i < 3 ==> (#[trigger] o[i + 1] == Signal::One) == (n.memory[i] == 1)
            &&& !edge_at(n, 1) ==> forall|i: int| 0 <= i < 4 ==> (#[trigger] o[i] == Signal::One) == (n.memory[i] == 1)
        }),
{
}

/// Evaluating a latch, flip-flop, register, counter, clock divider or
/// memory again with its inputs unchanged changes neither its outputs nor
/// its state: a clock edge is taken once.
pub proof fn lemma_reevaluation_changes_nothing(n: NodeView, lib: Seq<(String, SubcircuitDef)>)
    requires
        n.kind is SrLatch || n.kind is DLatch || n.kind is DFlipFlop || n.kind is JkFlipFlop || n.kind is TFlipFlop
            || n.kind is ClockDivider || n.kind is Register4 || n.kind is ShiftRegister4 || n.kind is Counter4 || n.kind is Ram16x4,
    ensures
        spec_eval(spec_eval(n, lib).1, lib) == spec_eval(n, lib),
{
    let r = spec_eval(n, lib);
    let r2 = spec_eval(r.1, lib);
    match n.kind {
        GateKind::ClockDivider => {
            assert(r.1.memory.len() >= 2);
            assert(r2.1.memory =~= r.1.memory);
        },
        GateKind::Register4 => {
            assert(r.1.memory.len() >= 4);
            assert(r2.1.memory =~= r.1.memory);
        },
        GateKind::ShiftRegister4 => {
            assert(r.1.memory.len() >= 4);
            assert(r2.1.memory =~= r.1.memory);
        },
        GateKind::Counter4 => {
            assert(r.1.memory.len() >= 1);
            assert(r2.1.memory =~= r.1.memory);
        },
        GateKind::Ram16x4 => {
            crate::sim::lemma_operand(n.input_signals, 0);
            assert(r.1.memory.len() >= 16);
            assert(r2.1.memory =~= r.1.memory);
        },
        _ => {},
    }
}

} // verus!
