//! What the exported Verilog and VHDL compute for each basic gate.
use vstd::prelude::*;
use crate::component::GateKind;
use crate::graph::{NodeView, PortEndpoint};
use crate::hdl::{h_in, h_out, spec_id_suffix, v_braced, v_in, v_ins_down, v_out, verilog_line, vhdl_line};
use crate::signal::{from_bool, is_bool, Signal};
use crate::sim::{and_all, bit, count_high, eval_plain, high_at, inputs_driven, level, or_all, sig_at, word};

verus! {

// ------------------------------------------------------------------
// What the exported gates compute
// ------------------------------------------------------------------

/// Whether a Verilog gate primitive named `w` drives its output high on two
/// driven levels (`None` when `w` names no such primitive).
pub open spec fn verilog_gate2(w: Seq<char>, sa: Signal, sb: Signal) -> Option<bool> {
    let a = sa == Signal::One;
    let b = sb == Signal::One;
    if w == "and"@ {
        Some(a && b)
    } else if w == "or"@ {
        Some(a || b)
    } else if w == "nand"@ {
        Some(!(a && b))
    } else if w == "nor"@ {
        Some(!(a || b))
    } else if w == "xor"@ {
        Some(a != b)
    } else if w == "xnor"@ {
        Some(a == b)
    } else {
        None
    }
}

/// Whether a VHDL expression `<pre>a<mid>b<post>` is `'1'` on two driven
/// levels (`None` for a form that is not a plain or negated `and`, `or`,
/// `xor`).
pub open spec fn vhdl_gate2(pre: Seq<char>, mid: Seq<char>, post: Seq<char>, sa: Signal, sb: Signal) -> Option<bool> {
    let a = sa == Signal::One;
    let b = sb == Signal::One;
    let op = if mid == " and "@ {
        Some(a && b)
    } else if mid == " or "@ {
        Some(a || b)
    } else if mid == " xor "@ {
        Some(a != b)
    } else {
        None
    };
    match op {
        Some(v) => if pre == ""@ && post == ""@ {
            Some(v)
        } else if pre == "not ("@ && post == ")"@ {
            Some(!v)
        } else {
            None
        },
        None => None,
    }
}

/// The basic two-input gates.
pub open spec fn two_input_gate(k: GateKind) -> bool {
    k is And || k is Or || k is Nand || k is Nor || k is Xor || k is Xnor
}

/// The folds over two driven inputs.
proof fn lemma_two_inputs(a: Signal, b: Signal)
    requires
        is_bool(a),
        is_bool(b),
    ensures
        and_all(seq![a, b]) == from_bool(a == Signal::One && b == Signal::One),
        or_all(seq![a, b]) == from_bool(a == Signal::One || b == Signal::One),
        count_high(seq![a, b]) == bit(a == Signal::One) + bit(b == Signal::One),
{
    let s = seq![a, b];
    let s1 = seq![a];
    let s0 = Seq::<Signal>::empty();
    assert(s.drop_last() =~= s1);
    assert(s1.drop_last() =~= s0);
    assert(and_all(s1) == crate::signal::spec_and(and_all(s0), a));
    assert(or_all(s1) == crate::signal::spec_or(or_all(s0), a));
    assert(count_high(s1) == count_high(s0) + bit(a == Signal::One));
}

/// The primitive names are distinct words.
proof fn lemma_verilog_words_differ()
    ensures
        "and"@ != "or"@, "and"@ != "nand"@, "and"@ != "nor"@, "and"@ != "xor"@, "and"@ != "xnor"@,
        "or"@ != "nand"@, "or"@ != "nor"@, "or"@ != "xor"@, "or"@ != "xnor"@,
        "nand"@ != "nor"@, "nand"@ != "xor"@, "nand"@ != "xnor"@,
        "nor"@ != "xor"@, "nor"@ != "xnor"@,
        "xor"@ != "xnor"@,
{
    reveal_strlit("and");
    reveal_strlit("or");
    reveal_strlit("nand");
    reveal_strlit("nor");
    reveal_strlit("xor");
    reveal_strlit("xnor");
    assert("and"@.len() == 3 && "or"@.len() == 2 && "nand"@.len() == 4 && "nor"@.len() == 3 && "xor"@.len() == 3 && "xnor"@.len() == 4);
    assert("and"@[0] == 'a' && "nor"@[0] == 'n' && "xor"@[0] == 'x' && "nand"@[0] == 'n' && "xnor"@[0] == 'x');
}

/// The operators and brackets of the VHDL expressions are distinct.
proof fn lemma_vhdl_parts_differ()
    ensures
        " and "@ != " or "@, " and "@ != " xor "@, " or "@ != " xor "@, ""@ != "not ("@, ""@ != ")"@,
{
    reveal_strlit(" and ");
    reveal_strlit(" or ");
    reveal_strlit(" xor ");
    reveal_strlit("");
    reveal_strlit("not (");
    reveal_strlit(")");
    assert(" and "@.len() == 5 && " or "@.len() == 4 && " xor "@.len() == 5 && ""@.len() == 0 && "not ("@.len() == 5 && ")"@.len() == 1);
    assert(" and "@[1] == 'a' && " xor "@[1] == 'x');
}

/// The prefix of a longer text.
proof fn lemma_take_prefix(pre: Seq<char>, rest: Seq<char>, n: int)
    requires
        0 <= n <= pre.len(),
    ensures
        (pre + rest).take(n) == pre.take(n),
{
    assert((pre + rest).take(n) =~= pre.take(n));
}

/// The Verilog primitive instantiated for a two-input component computes
/// that component's own function: the line starts with the indented
/// primitive name `w`, and on any driven inputs `w` gives the level the
/// component evaluates to.
#[verifier::spinoff_prover]
#[verifier::rlimit(100)]
pub proof fn lemma_verilog_gate_primitive(m: Map<PortEndpoint, Seq<char>>, e: (u64, NodeView), a: Signal, b: Signal, st: bool)
    requires
        two_input_gate(e.1.kind),
        is_bool(a),
        is_bool(b),
    ensures
        exists|w: Seq<char>|
            #![trigger verilog_gate2(w, a, b)]
            verilog_line(m, e).take(w.len() + 5int) == "    "@ + w + " "@ && verilog_gate2(w, a, b)
                == Some(eval_plain(e.1.kind, seq![a, b], st)[0] == Signal::One),
{
    reveal_strlit("and");
    reveal_strlit("or");
    reveal_strlit("nand");
    reveal_strlit("nor");
    reveal_strlit("xor");
    reveal_strlit("xnor");
    reveal_strlit("    ");
    reveal_strlit(" ");
    lemma_verilog_words_differ();
    lemma_two_inputs(a, b);
    let s = seq![a, b];
    assert(s.drop_last() =~= seq![a]);
    assert(seq![a].drop_last() =~= Seq::<Signal>::empty());
    let id = e.0;
    let rest = spec_id_suffix(id) + " ("@ + v_out(m, id, 0) + ", "@ + v_in(m, id, 0) + ", "@ + v_in(m, id, 1) + ");\n"@;
    match e.1.kind {
        GateKind::And => {
            reveal_strlit("    and  gate_and_");
            lemma_take_prefix("    and  gate_and_"@, rest, 8);
            assert(verilog_line(m, e) =~= "    and  gate_and_"@ + rest);
            assert(verilog_line(m, e).take(8) =~= "    "@ + "and"@ + " "@);
            assert(verilog_gate2("and"@, a, b) == Some(eval_plain(e.1.kind, s, st)[0] == Signal::One));
        },
        GateKind::Or => {
            reveal_strlit("    or   gate_or_");
            lemma_take_prefix("    or   gate_or_"@, rest, 7);
            assert(verilog_line(m, e) =~= "    or   gate_or_"@ + rest);
            assert(verilog_line(m, e).take(7) =~= "    "@ + "or"@ + " "@);
            assert(verilog_gate2("or"@, a, b) == Some(eval_plain(e.1.kind, s, st)[0] == Signal::One));
        },
        GateKind::Nand => {
            reveal_strlit("    nand gate_nand_");
            lemma_take_prefix("    nand gate_nand_"@, rest, 9);
            assert(verilog_line(m, e) =~= "    nand gate_nand_"@ + rest);
            assert(verilog_line(m, e).take(9) =~= "    "@ + "nand"@ + " "@);
            assert(verilog_gate2("nand"@, a, b) == Some(eval_plain(e.1.kind, s, st)[0] == Signal::One));
        },
        GateKind::Nor => {
            reveal_strlit("    nor  gate_nor_");
            lemma_take_prefix("    nor  gate_nor_"@, rest, 8);
            assert(verilog_line(m, e) =~= "    nor  gate_nor_"@ + rest);
            assert(verilog_line(m, e).take(8) =~= "    "@ + "nor"@ + " "@);
            assert(verilog_gate2("nor"@, a, b) == Some(eval_plain(e.1.kind, s, st)[0] == Signal::One));
        },
        GateKind::Xor => {
            reveal_strlit("    xor  gate_xor_");
            lemma_take_prefix("    xor  gate_xor_"@, rest, 8);
            assert(verilog_line(m, e) =~= "    xor  gate_xor_"@ + rest);
            assert(verilog_line(m, e).take(8) =~= "    "@ + "xor"@ + " "@);
            assert(verilog_gate2("xor"@, a, b) == Some(eval_plain(e.1.kind, s, st)[0] == Signal::One));
        },
        _ => {
            reveal_strlit("    xnor gate_xnor_");
            lemma_take_prefix("    xnor gate_xnor_"@, rest, 9);
            assert(verilog_line(m, e) =~= "    xnor gate_xnor_"@ + rest);
            assert(verilog_line(m, e).take(9) =~= "    "@ + "xnor"@ + " "@);
            assert(verilog_gate2("xnor"@, a, b) == Some(eval_plain(e.1.kind, s, st)[0] == Signal::One));
        },
    }
}

/// The Verilog primitive instantiated for an inverter is `not`, which
/// negates its driven input as the inverter does.
pub proof fn lemma_verilog_not_primitive(m: Map<PortEndpoint, Seq<char>>, e: (u64, NodeView), a: Signal, st: bool)
    requires
        e.1.kind is Not,
        is_bool(a),
    ensures
        verilog_line(m, e).take(8) == "    not "@,
        (eval_plain(e.1.kind, seq![a], st)[0] == Signal::One) == !(a == Signal::One),
{
    reveal_strlit("    not  gate_not_");
    reveal_strlit("    not ");
    let id = e.0;
    let rest = spec_id_suffix(id) + " ("@ + v_out(m, id, 0) + ", "@ + v_in(m, id, 0) + ");\n"@;
    assert(verilog_line(m, e) =~= "    not  gate_not_"@ + rest);
    lemma_take_prefix("    not  gate_not_"@, rest, 8);
    assert(verilog_line(m, e).take(8) =~= "    not "@);
}

/// The VHDL expression assigned for a two-input component computes that
/// component's own function: the line assigns `<pre>a<mid>b<post>` over
/// its input wires to its output wire, and on any driven inputs that
/// expression gives the level the component evaluates to.
pub proof fn lemma_vhdl_gate_expression(m: Map<PortEndpoint, Seq<char>>, e: (u64, NodeView), a: Signal, b: Signal, st: bool)
    requires
        two_input_gate(e.1.kind),
        is_bool(a),
        is_bool(b),
    ensures
        exists|pre: Seq<char>, mid: Seq<char>, post: Seq<char>|
            #![trigger vhdl_gate2(pre, mid, post, a, b)]
            vhdl_line(m, e) == "    "@ + h_out(m, e.0, 0) + " <= "@ + pre + h_in(m, e.0, 0) + mid + h_in(m, e.0, 1) + post + ";\n"@
                && vhdl_gate2(pre, mid, post, a, b) == Some(
                eval_plain(e.1.kind, seq![a, b], st)[0] == Signal::One,
            ),
{
    lemma_vhdl_parts_differ();
    lemma_two_inputs(a, b);
    let s = seq![a, b];
    assert(s.drop_last() =~= seq![a]);
    assert(seq![a].drop_last() =~= Seq::<Signal>::empty());
    let x = a;
    let y = b;
    let v = eval_plain(e.1.kind, s, st)[0] == Signal::One;
    match e.1.kind {
        GateKind::And => {
            assert(vhdl_gate2(""@, " and "@, ""@, x, y) == Some(v));
        },
        GateKind::Or => {
            assert(vhdl_gate2(""@, " or "@, ""@, x, y) == Some(v));
        },
        GateKind::Nand => {
            assert(vhdl_gate2("not ("@, " and "@, ")"@, x, y) == Some(v));
        },
        GateKind::Nor => {
            assert(vhdl_gate2("not ("@, " or "@, ")"@, x, y) == Some(v));
        },
        GateKind::Xor => {
            assert(vhdl_gate2(""@, " xor "@, ""@, x, y) == Some(v));
        },
        _ => {
            assert(vhdl_gate2("not ("@, " xor "@, ")"@, x, y) == Some(v));
        },
    }
}

/// The VHDL expression assigned for an inverter is `not` of its input
/// wire, which negates its driven input as the inverter does.
pub proof fn lemma_vhdl_not_expression(m: Map<PortEndpoint, Seq<char>>, e: (u64, NodeView), a: Signal, st: bool)
    requires
        e.1.kind is Not,
        is_bool(a),
    ensures
        vhdl_line(m, e) == "    "@ + h_out(m, e.0, 0) + " <= "@ + "not "@ + h_in(m, e.0, 0) + ";\n"@,
        (eval_plain(e.1.kind, seq![a], st)[0] == Signal::One) == !(a == Signal::One),
{
    reveal_strlit(" <= not ");
    reveal_strlit(" <= ");
    reveal_strlit("not ");
    assert(" <= not "@ =~= " <= "@ + "not "@);
    assert(vhdl_line(m, e) =~= "    "@ + h_out(m, e.0, 0) + " <= "@ + "not "@ + h_in(m, e.0, 0) + ";\n"@);
}

/// What a Verilog arithmetic operator `op` gives on two numbers (`None`
/// for an operator that is not `+` or `-`).
pub open spec fn verilog_arith(op: Seq<char>, x: int, y: int) -> Option<int> {
    if op == " + "@ {
        Some(x + y)
    } else if op == " - "@ {
        Some(x - y)
    } else {
        None
    }
}

proof fn lemma_arith_ops_differ()
    ensures
        " + "@ != " - "@,
{
    reveal_strlit(" + ");
    reveal_strlit(" - ");
    assert(" + "@[1] != " - "@[1]);
}

/// The Verilog assignment exported for a half adder or half subtractor
/// applies `+` or `-` to its two input wires, and that operation, taken in
/// the two output bits (carry or borrow high), gives the component's outputs
/// on any driven inputs.
pub proof fn lemma_verilog_half_arith(m: Map<PortEndpoint, Seq<char>>, e: (u64, NodeView), ins: Seq<Signal>, st: bool)
    requires
        e.1.kind is HalfAdder || e.1.kind is HalfSubtractor,
        inputs_driven(ins, 2),
    ensures
        exists|op: Seq<char>|
            #![trigger verilog_arith(op, level(sig_at(ins, 0)), level(sig_at(ins, 1)))]
            verilog_line(m, e) == "    assign {"@ + v_braced(m, e.0, 1) + "} = "@ + v_in(m, e.0, 0) + op + v_in(m, e.0, 1) + ";\n"@
                && verilog_arith(op, level(sig_at(ins, 0)), level(sig_at(ins, 1))) is Some && verilog_arith(
                op,
                level(sig_at(ins, 0)),
                level(sig_at(ins, 1)),
            )->0 % 4 == word(eval_plain(e.1.kind, ins, st), 0, 2),
{
    lemma_arith_ops_differ();
    reveal_with_fuel(word, 3);
    let x = level(sig_at(ins, 0));
    let y = level(sig_at(ins, 1));
    let o = eval_plain(e.1.kind, ins, st);
    let id = e.0;
    if e.1.kind is HalfAdder {
        crate::sim::lemma_half_adder_adds(ins, st);
        reveal_strlit(" + ");
        assert(" = "@ + v_in(m, id, 0) + " + "@ =~= " = "@ + v_in(m, id, 0) + " + "@);
        assert(verilog_line(m, e) =~= "    assign {"@ + v_braced(m, id, 1) + "} = "@ + v_in(m, id, 0) + " + "@ + v_in(m, id, 1) + ";\n"@);
        assert(verilog_arith(" + "@, x, y) == Some(x + y));
    } else {
        crate::sim::lemma_half_subtractor_subtracts(ins, st);
        assert(verilog_line(m, e) =~= "    assign {"@ + v_braced(m, id, 1) + "} = "@ + v_in(m, id, 0) + " - "@ + v_in(m, id, 1) + ";\n"@);
        assert(verilog_arith(" - "@, x, y) == Some(x - y));
        assert(is_bool(o[0]) && is_bool(o[1]));
    }
}

/// The Verilog assignment exported for a full adder or full subtractor
/// applies one operator, `+` or `-`, twice across its three input wires,
/// and that, taken in the two output bits, gives the component's outputs on
/// any driven inputs.
pub proof fn lemma_verilog_full_arith(m: Map<PortEndpoint, Seq<char>>, e: (u64, NodeView), ins: Seq<Signal>, st: bool)
    requires
        e.1.kind is FullAdder || e.1.kind is FullSubtractor,
        inputs_driven(ins, 3),
    ensures
        exists|op: Seq<char>|
            #![trigger verilog_arith(op, level(sig_at(ins, 0)), level(sig_at(ins, 1)))]
            verilog_line(m, e) == "    assign {"@ + v_braced(m, e.0, 1) + "} = "@ + v_in(m, e.0, 0) + op + v_in(m, e.0, 1) + op + v_in(
                m,
                e.0,
                2,
            ) + ";\n"@ && verilog_arith(op, level(sig_at(ins, 0)), level(sig_at(ins, 1))) is Some && verilog_arith(
                op,
                verilog_arith(op, level(sig_at(ins, 0)), level(sig_at(ins, 1)))->0,
                level(sig_at(ins, 2)),
            ) is Some && verilog_arith(
                op,
                verilog_arith(op, level(sig_at(ins, 0)), level(sig_at(ins, 1)))->0,
                level(sig_at(ins, 2)),
            )->0 % 4 == word(eval_plain(e.1.kind, ins, st), 0, 2),
{
    lemma_arith_ops_differ();
    reveal_with_fuel(word, 3);
    let x = level(sig_at(ins, 0));
    let y = level(sig_at(ins, 1));
    let z = level(sig_at(ins, 2));
    let o = eval_plain(e.1.kind, ins, st);
    let id = e.0;
    if e.1.kind is FullAdder {
        crate::sim::lemma_full_adder_adds(ins, st);
        assert(verilog_line(m, e) =~= "    assign {"@ + v_braced(m, id, 1) + "} = "@ + v_in(m, id, 0) + " + "@ + v_in(m, id, 1) + " + "@
            + v_in(m, id, 2) + ";\n"@);
        assert(verilog_arith(" + "@, x, y) == Some(x + y));
        assert(verilog_arith(" + "@, x + y, z) == Some(x + y + z));
    } else {
        crate::sim::lemma_full_subtractor_subtracts(ins, st);
        assert(verilog_line(m, e) =~= "    assign {"@ + v_braced(m, id, 1) + "} = "@ + v_in(m, id, 0) + " - "@ + v_in(m, id, 1) + " - "@
            + v_in(m, id, 2) + ";\n"@);
        assert(verilog_arith(" - "@, x, y) == Some(x - y));
        assert(verilog_arith(" - "@, x - y, z) == Some(x - y - z));
        assert(is_bool(o[0]) && is_bool(o[1]));
    }
}

/// The Verilog assignment exported for a 4-bit adder adds the A nibble, the
/// B nibble (each listed high bit first) and the carry-in, and that sum,
/// taken in the five output bits, gives the outputs of a ripple-carry
/// adder on any driven inputs.
pub proof fn lemma_verilog_adder4(m: Map<PortEndpoint, Seq<char>>, e: (u64, NodeView), ins: Seq<Signal>, st: bool)
    requires
        e.1.kind is RippleCarryAdder4 || e.1.kind is CarryLookaheadAdder4,
        inputs_driven(ins, 9),
    ensures
        exists|op: Seq<char>|
            #![trigger verilog_arith(op, word(ins, 0, 4), word(ins, 4, 4))]
            verilog_line(m, e) == "    assign {"@ + v_braced(m, e.0, 4) + "} = {"@ + v_ins_down(m, e.0, 3, 0) + "}"@ + op + "{"@
                + v_ins_down(m, e.0, 7, 4) + "}"@ + op + v_in(m, e.0, 8) + ";\n"@ && verilog_arith(op, word(ins, 0, 4), word(ins, 4, 4))
                is Some && verilog_arith(op, verilog_arith(op, word(ins, 0, 4), word(ins, 4, 4))->0, level(sig_at(ins, 8)))
                == Some(word(eval_plain(GateKind::RippleCarryAdder4, ins, st), 0, 5)),
{
    lemma_arith_ops_differ();
    crate::sim::lemma_ripple_adder_adds(ins);
    reveal_strlit(" + ");
    reveal_strlit("} + {");
    reveal_strlit("} + ");
    reveal_strlit("}");
    reveal_strlit("{");
    let id = e.0;
    assert("} + {"@ =~= "}"@ + " + "@ + "{"@);
    assert("} + "@ =~= "}"@ + " + "@);
    assert(verilog_line(m, e) =~= "    assign {"@ + v_braced(m, id, 4) + "} = {"@ + v_ins_down(m, id, 3, 0) + "}"@ + " + "@ + "{"@
        + v_ins_down(m, id, 7, 4) + "}"@ + " + "@ + v_in(m, id, 8) + ";\n"@);
    let a = word(ins, 0, 4);
    let b = word(ins, 4, 4);
    let c = level(sig_at(ins, 8));
    assert(eval_plain(GateKind::RippleCarryAdder4, ins, st) == crate::sim::ripple(ins, 0, sig_at(ins, 8)));
    assert(verilog_arith(" + "@, a, b) == Some(a + b));
    assert(verilog_arith(" + "@, a + b, c) == Some(a + b + c));
}

/// The Verilog and VHDL exported for a two-input multiplexer pass input 1
/// when input 2 is high and input 0 otherwise, as the component does: the
/// exported selection names input wires `s`, `t`, `f` such that the
/// component's output is input `t` when input `s` is high, else input `f`.
pub proof fn lemma_mux2_exports(m: Map<PortEndpoint, Seq<char>>, e: (u64, NodeView), ins: Seq<Signal>, st: bool)
    requires
        e.1.kind is Mux2,
    ensures
        exists|sel: int, t: int, f: int|
            #![trigger v_in(m, e.0, sel), v_in(m, e.0, t), v_in(m, e.0, f)]
            verilog_line(m, e) == "    assign "@ + v_out(m, e.0, 0) + " = "@ + v_in(m, e.0, sel) + " ? "@ + v_in(m, e.0, t) + " : "@
                + v_in(m, e.0, f) + ";\n"@ && vhdl_line(m, e) == "    "@ + h_out(m, e.0, 0) + " <= "@ + h_in(m, e.0, t) + " when "@
                + h_in(m, e.0, sel) + " = '1' else "@ + h_in(m, e.0, f) + ";\n"@ && eval_plain(e.1.kind, ins, st)
                == seq![if high_at(ins, sel) { sig_at(ins, t) } else { sig_at(ins, f) }],
{
    assert(v_in(m, e.0, 2) == v_in(m, e.0, 2) && v_in(m, e.0, 1) == v_in(m, e.0, 1) && v_in(m, e.0, 0) == v_in(m, e.0, 0));
}

/// The Verilog exported for a D flip-flop stores input `d` into a register
/// on a rising edge of input `clk` and drives output `q` with the register
/// and output `nq` with its complement, where, for the component itself,
/// output `q` takes input `d` on a rising edge of input `clk` (and holds
/// otherwise) and output `nq` is its complement.
pub proof fn lemma_verilog_dff(m: Map<PortEndpoint, Seq<char>>, e: (u64, NodeView), n: NodeView, lib: Seq<(String, crate::graph::SubcircuitDef)>)
    requires
        e.1.kind is DFlipFlop,
        n.kind is DFlipFlop,
    ensures
        exists|clk: int, d: int, q: int, nq: int|
            #![trigger v_in(m, e.0, clk), v_in(m, e.0, d), v_out(m, e.0, q), v_out(m, e.0, nq)]
            verilog_line(m, e) == "    reg reg_"@ + spec_id_suffix(e.0) + " = 0;\n    always @(posedge "@ + v_in(m, e.0, clk)
                + ") reg_"@ + spec_id_suffix(e.0) + " <= "@ + v_in(m, e.0, d) + ";\n    assign "@ + v_out(m, e.0, q) + " = reg_"@
                + spec_id_suffix(e.0) + ";\n    assign "@ + v_out(m, e.0, nq) + " = ~reg_"@ + spec_id_suffix(e.0) + ";\n"@
                && (crate::sim::spec_eval(n, lib).0[q] == Signal::One) == if crate::state_laws::edge_at(n, clk) {
                high_at(n.input_signals, d)
            } else {
                n.state_flag
            } && (crate::sim::spec_eval(n, lib).0[nq] == Signal::One) == !(crate::sim::spec_eval(n, lib).0[q] == Signal::One),
{
    crate::state_laws::lemma_latches_and_flip_flops(n, lib);
    assert(v_in(m, e.0, 1) == v_in(m, e.0, 1) && v_in(m, e.0, 0) == v_in(m, e.0, 0) && v_out(m, e.0, 0) == v_out(m, e.0, 0)
        && v_out(m, e.0, 1) == v_out(m, e.0, 1));
}

} // verus!
