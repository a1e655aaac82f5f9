//! What the combinational components compute, stated over their inputs
//! read as numbers and sets of levels.
use vstd::prelude::*;
use crate::component::GateKind;
use crate::signal::{from_bool, is_bool, Signal};
use crate::sim::{and_all, bit, count_high, eval_plain, high_at, level, or_all, sig_at, word};

verus! {

/// Every input is a driven level.
pub open spec fn all_driven(ins: Seq<Signal>) -> bool {
    forall|i: int| 0 <= i < ins.len() ==> is_bool(#[trigger] ins[i])
}

/// The AND and OR folds over driven levels: high exactly when every input,
/// or some input, is high.
proof fn lemma_folds(s: Seq<Signal>)
    requires
        all_driven(s),
    ensures
        and_all(s) == from_bool(forall|i: int| 0 <= i < s.len() ==> #[trigger] s[i] == Signal::One),
        or_all(s) == from_bool(exists|i: int| 0 <= i < s.len() && #[trigger] s[i] == Signal::One),
    decreases s.len(),
{
    if s.len() > 0 {
        let p = s.drop_last();
        assert forall|i: int| 0 <= i < p.len() implies is_bool(#[trigger] p[i]) by {
            assert(p[i] == s[i]);
        }
        lemma_folds(p);
        assert(is_bool(s[s.len() - 1]));
        if forall|i: int| 0 <= i < p.len() ==> #[trigger] p[i] == Signal::One {
            if s.last() == Signal::One {
                assert forall|i: int| 0 <= i < s.len() implies #[trigger] s[i] == Signal::One by {
                    if i < p.len() {
                        assert(p[i] == s[i]);
                    }
                }
            }
        } else {
            let i = choose|i: int| 0 <= i < p.len() && !(#[trigger] p[i] == Signal::One);
            assert(s[i] == p[i]);
        }
        if exists|i: int| 0 <= i < p.len() && #[trigger] p[i] == Signal::One {
            let i = choose|i: int| 0 <= i < p.len() && #[trigger] p[i] == Signal::One;
            assert(s[i] == p[i]);
        } else if s.last() != Signal::One {
            assert forall|i: int| 0 <= i < s.len() implies #[trigger] s[i] != Signal::One by {
                if i < p.len() {
                    assert(p[i] == s[i]);
                }
            }
        }
    }
}

/// The number of high inputs is at most the number of inputs.
proof fn lemma_count_high_bound(s: Seq<Signal>)
    ensures
        count_high(s) <= s.len(),
        count_high(s) == 0 <==> forall|i: int| 0 <= i < s.len() ==> #[trigger] s[i] != Signal::One,
    decreases s.len(),
{
    if s.len() > 0 {
        let p = s.drop_last();
        lemma_count_high_bound(p);
        if count_high(p) != 0 {
            let i = choose|i: int| 0 <= i < p.len() && !(#[trigger] p[i] != Signal::One);
            assert(s[i] == p[i]);
        } else {
            assert forall|i: int| 0 <= i < s.len() - 1 implies #[trigger] s[i] != Signal::One by {
                assert(p[i] == s[i]);
            }
        }
    }
}

/// The basic gates on driven inputs of any number: AND is high exactly
/// when every input is, OR when some input is, NAND and NOR are their
/// complements, XOR is high exactly when an odd number of inputs is high
/// and XNOR when an even number is (so XOR of no high input is low), and
/// NOT complements input 0.
pub proof fn lemma_gate_functions(ins: Seq<Signal>, st: bool)
    requires
        all_driven(ins),
    ensures
        (eval_plain(GateKind::And, ins, st)[0] == Signal::One) == (forall|i: int|
            0 <= i < ins.len() ==> #[trigger] ins[i] == Signal::One),
        (eval_plain(GateKind::Or, ins, st)[0] == Signal::One) == (exists|i: int|
            0 <= i < ins.len() && #[trigger] ins[i] == Signal::One),
        (eval_plain(GateKind::Nand, ins, st)[0] == Signal::One) == !(forall|i: int|
            0 <= i < ins.len() ==> #[trigger] ins[i] == Signal::One),
        (eval_plain(GateKind::Nor, ins, st)[0] == Signal::One) == !(exists|i: int|
            0 <= i < ins.len() && #[trigger] ins[i] == Signal::One),
        (eval_plain(GateKind::Xor, ins, st)[0] == Signal::One) == (count_high(ins) % 2 == 1),
        (eval_plain(GateKind::Xnor, ins, st)[0] == Signal::One) == (count_high(ins) % 2 == 0),
        (eval_plain(GateKind::Xor, ins, st)[0] == Signal::One) != (eval_plain(GateKind::Xnor, ins, st)[0] == Signal::One),
        (forall|i: int| 0 <= i < ins.len() ==> #[trigger] ins[i] != Signal::One) ==> eval_plain(GateKind::Xor, ins, st)[0]
            == Signal::Zero,
        ins.len() > 0 ==> (eval_plain(GateKind::Not, ins, st)[0] == Signal::One) == (ins[0] == Signal::Zero),
        forall|k: GateKind|
            #![trigger eval_plain(k, ins, st)]
            k is And || k is Or || k is Nand || k is Nor || k is Xor || k is Xnor || k is Not ==> eval_plain(k, ins, st).len()
                == 1 && is_bool(eval_plain(k, ins, st)[0]),
{
    lemma_folds(ins);
    lemma_count_high_bound(ins);
    if ins.len() > 0 {
        assert(is_bool(ins[0]));
    }
}

/// The two-input multiplexer passes input 0 when its select (input 2) is
/// low and input 1 when it is high; the four-input one passes the data
/// input numbered by its selects (inputs 4 and 5, least significant first).
pub proof fn lemma_mux_selects(ins: Seq<Signal>, st: bool)
    ensures
        eval_plain(GateKind::Mux2, ins, st) == seq![sig_at(ins, word(ins, 2, 1))],
        eval_plain(GateKind::Mux4, ins, st) == seq![sig_at(ins, word(ins, 4, 2))],
{
    reveal_with_fuel(word, 3);
}

/// The four-output decoder drives high exactly the output numbered by its
/// two inputs (least significant first).
pub proof fn lemma_decoder_selects(ins: Seq<Signal>, st: bool)
    ensures
        eval_plain(GateKind::Decoder2to4, ins, st).len() == 4,
        forall|i: int|
            0 <= i < 4 ==> (#[trigger] eval_plain(GateKind::Decoder2to4, ins, st)[i] == Signal::One) == (i == word(ins, 0, 2)),
        forall|i: int| 0 <= i < 4 ==> is_bool(#[trigger] eval_plain(GateKind::Decoder2to4, ins, st)[i]),
{
    reveal_with_fuel(word, 3);
}

/// The demultiplexers route input 0 to the output numbered by their select
/// inputs (input 1 for two outputs; inputs 2 and 3, least significant
/// first, for four, when the enable input 1 is high or absent) and hold
/// every other output low; a disabled four-output one holds all low.
pub proof fn lemma_demux_routes(ins: Seq<Signal>, st: bool)
    ensures
        eval_plain(GateKind::Demux2, ins, st).len() == 2,
        forall|i: int|
            0 <= i < 2 ==> #[trigger] eval_plain(GateKind::Demux2, ins, st)[i] == if i == word(ins, 1, 1) {
                sig_at(ins, 0)
            } else {
                Signal::Zero
            },
        eval_plain(GateKind::Demux4, ins, st).len() == 4,
        forall|i: int|
            0 <= i < 4 ==> #[trigger] eval_plain(GateKind::Demux4, ins, st)[i] == if (ins.len() <= 1 || ins[1] == Signal::One)
                && i == word(ins, 2, 2) {
                sig_at(ins, 0)
            } else {
                Signal::Zero
            },
{
    reveal_with_fuel(word, 3);
}

/// The priority encoder's two outputs (least significant first) read as
/// the highest-numbered high input among 1 to 3, or 0 when none is high.
pub proof fn lemma_encoder_priority(ins: Seq<Signal>, st: bool)
    ensures
        ({
            let o = eval_plain(GateKind::Encoder4to2, ins, st);
            let k = word(o, 0, 2);
            &&& o.len() == 2
            &&& is_bool(o[0]) && is_bool(o[1])
            &&& 0 <= k < 4
            &&& k > 0 ==> high_at(ins, k)
            &&& forall|i: int| k < i < 4 && i > 0 ==> !high_at(ins, i)
        }),
{
    reveal_with_fuel(word, 3);
}

/// The 2-bit comparator's outputs tell A (inputs 0, 1) greater than, equal
/// to, or less than B (inputs 2, 3), both least significant first; exactly
/// one of them is high.
pub proof fn lemma_comparator_orders(ins: Seq<Signal>, st: bool)
    ensures
        ({
            let o = eval_plain(GateKind::Comparator2, ins, st);
            let a = word(ins, 0, 2);
            let b = word(ins, 2, 2);
            &&& o.len() == 3
            &&& (o[0] == Signal::One) == (a > b)
            &&& (o[1] == Signal::One) == (a == b)
            &&& (o[2] == Signal::One) == (a < b)
            &&& is_bool(o[0]) && is_bool(o[1]) && is_bool(o[2])
        }),
{
    reveal_with_fuel(word, 3);
}

} // verus!
