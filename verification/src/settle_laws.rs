//! What settling guarantees of the nets.
use vstd::prelude::*;
use crate::component::GateKind;
use crate::graph::{NetView, NodeView, SubcircuitDef};
use crate::sim::{
    all_nets_x, all_outputs_x, changed_outputs, drive_sink, drive_sinks, first_source, is_source, merge_outputs,
    propagate_all, propagate_change, push_sinks, settle_budget, spec_eval, spec_phase1, spec_phase2, spec_settle,
    spec_settle_loop, sync_net,
};
use crate::slots::{lemma_slot_get_at, lemma_slot_set_get, lemma_slot_set_keys, slot_get, slot_has, slot_keys, slot_pos, slot_set};

verus! {

/// Every library definition has at most `usize::MAX` components.
pub open spec fn lib_small(lib: Seq<(String, SubcircuitDef)>) -> bool {
    forall|i: int| 0 <= i < lib.len() ==> (#[trigger] lib[i]).1.circuit.comps().len() <= usize::MAX
}

proof fn lemma_lookup_small(lib: Seq<(String, SubcircuitDef)>, name: Seq<char>)
    requires
        lib_small(lib),
    ensures
        crate::graph::lib_lookup(lib, name) matches Some(d) ==> d.circuit.comps().len() <= usize::MAX,
    decreases lib.len(),
{
    if lib.len() > 0 && lib[0].0@ != name {
        assert forall|i: int| 0 <= i < lib.drop_first().len() implies (#[trigger] lib.drop_first()[i]).1.circuit.comps().len()
            <= usize::MAX by {
            assert(lib.drop_first()[i] == lib[i + 1]);
        }
        lemma_lookup_small(lib.drop_first(), name);
    }
}

proof fn lemma_insert_pos_range(s: Seq<(u64, u32)>, k: u32)
    ensures
        0 <= crate::sim::insert_pos(s, k) <= s.len(),
    decreases s.len(),
{
    if s.len() > 0 && s[0].1 <= k {
        lemma_insert_pos_range(s.drop_first(), k);
    }
}

proof fn lemma_sort_len(s: Seq<(u64, u32)>)
    ensures
        crate::sim::sort_by_key(s).len() == s.len(),
    decreases s.len(),
{
    if s.len() > 0 {
        lemma_sort_len(s.drop_last());
        lemma_insert_pos_range(crate::sim::sort_by_key(s.drop_last()), s.last().1);
    }
}

proof fn lemma_keyed_len(c: Seq<(u64, NodeView)>, leds: bool)
    ensures
        crate::sim::keyed(c, leds).len() <= c.len(),
    decreases c.len(),
{
    if c.len() > 0 {
        lemma_keyed_len(c.drop_last(), leds);
    }
}

proof fn lemma_read_leds_len(c: Seq<(u64, NodeView)>, ids: Seq<u64>)
    ensures
        crate::sim::read_leds(c, ids).len() <= ids.len(),
    decreases ids.len(),
{
    if ids.len() > 0 {
        lemma_read_leds_len(c, ids.drop_last());
    }
}


proof fn lemma_drive_inputs_len(c: Seq<(u64, NodeView)>, ids: Seq<u64>, ins: Seq<crate::signal::Signal>, j: int)
    ensures
        crate::sim::drive_inputs(c, ids, ins, j).len() == c.len(),
    decreases j,
{
    if j > 0 && j <= ids.len() {
        lemma_drive_inputs_len(c, ids, ins, j - 1);
    }
}

proof fn lemma_drive_sinks_len(c: Seq<(u64, NodeView)>, sinks: Seq<crate::graph::PortEndpoint>, sig: crate::signal::Signal, k: int)
    ensures
        drive_sinks(c, sinks, sig, k).len() == c.len(),
    decreases k,
{
    if k > 0 && k <= sinks.len() {
        lemma_drive_sinks_len(c, sinks, sig, k - 1);
    }
}

proof fn lemma_phase1_len(c: Seq<(u64, NodeView)>, lib: Seq<(String, SubcircuitDef)>, j: int)
    ensures
        spec_phase1(c, lib, j).len() == c.len(),
    decreases c.len() - j,
{
    if j >= 0 && j < c.len() {
        let r = spec_eval(c[j].1, lib);
        lemma_phase1_len(c.update(j, (c[j].0, NodeView { output_signals: r.0, ..r.1 })), lib, j + 1);
    }
}

proof fn lemma_phase2_len(c: Seq<(u64, NodeView)>, nets: Seq<(u64, NetView)>, j: int)
    ensures
        spec_phase2(c, nets, j).0.len() == c.len(),
    decreases j,
{
    if j > 0 && j <= nets.len() {
        lemma_phase2_len(c, nets, j - 1);
        let prev = spec_phase2(c, nets, j - 1);
        let net = prev.1[j - 1].1;
        match slot_get(prev.0, net.source.component_id@) {
            Some(src) => {
                if net.source.port_index < src.output_signals.len() {
                    lemma_drive_sinks_len(prev.0, net.sinks, src.output_signals[net.source.port_index as int], net.sinks.len() as int);
                }
            },
            None => {},
        }
    }
}

proof fn lemma_push_sinks_len(
    c: Seq<(u64, NodeView)>,
    q: Seq<u64>,
    sinks: Seq<crate::graph::PortEndpoint>,
    sig: crate::signal::Signal,
    k: int,
)
    ensures
        push_sinks(c, q, sinks, sig, k).0.len() == c.len(),
    decreases k,
{
    if k > 0 && k <= sinks.len() {
        lemma_push_sinks_len(c, q, sinks, sig, k - 1);
    }
}

proof fn lemma_propagate_len(
    c: Seq<(u64, NodeView)>,
    nets: Seq<(u64, NetView)>,
    q: Seq<u64>,
    id: u64,
    changes: Seq<(usize, crate::signal::Signal)>,
    k: int,
)
    ensures
        propagate_all(c, nets, q, id, changes, k).0.len() == c.len(),
    decreases k,
{
    if k > 0 && k <= changes.len() {
        lemma_propagate_len(c, nets, q, id, changes, k - 1);
        let prev = propagate_all(c, nets, q, id, changes, k - 1);
        let ch = changes[k - 1];
        if exists|i: int| first_source(prev.1, i, id, ch.0 as int) {
            let i = choose|i: int| first_source(prev.1, i, id, ch.0 as int);
            let net = prev.1[i].1;
            lemma_push_sinks_len(prev.0, prev.2, net.sinks, ch.1, net.sinks.len() as int);
        }
    }
}

proof fn lemma_loop_len(
    c: Seq<(u64, NodeView)>,
    nets: Seq<(u64, NetView)>,
    queue: Seq<u64>,
    count: int,
    max: int,
    lib: Seq<(String, SubcircuitDef)>,
)
    ensures
        spec_settle_loop(c, nets, queue, count, max, lib).0.len() == c.len(),
    decreases max + 1 - count,
{
    if queue.len() == 0 || count < 0 {
    } else if count + 1 > max {
    } else {
        let id = queue[0];
        let q1 = queue.drop_first();
        match slot_get(c, id) {
            Some(n) => {
                let r = spec_eval(n, lib);
                let changes = changed_outputs(n.output_signals, r.0, r.0.len() as int);
                let c2 = slot_set(c, id, NodeView { output_signals: merge_outputs(n.output_signals, r.0), ..r.1 });
                lemma_propagate_len(c2, nets, q1, id, changes, changes.len() as int);
                let p = propagate_all(c2, nets, q1, id, changes, changes.len() as int);
                lemma_loop_len(p.0, p.1, p.2, count + 1, max, lib);
            },
            None => {
                lemma_loop_len(c, nets, q1, count + 1, max, lib);
            },
        }
    }
}

/// Settling keeps the number of components.
proof fn lemma_settle_len(c: Seq<(u64, NodeView)>, nets: Seq<(u64, NetView)>, lib: Seq<(String, SubcircuitDef)>)
    ensures
        spec_settle(c, nets, lib).0.len() == c.len(),
{
    let c1 = spec_phase1(c, lib, 0);
    lemma_phase1_len(c, lib, 0);
    let p2 = spec_phase2(c1, nets, nets.len() as int);
    lemma_phase2_len(c1, nets, nets.len() as int);
    lemma_loop_len(p2.0, p2.1, slot_keys(c), 0, settle_budget(c.len()), lib);
}

/// A subcircuit instance gives at most as many outputs as its definition
/// has components (and at least one).
proof fn lemma_subcircuit_len(def: SubcircuitDef, ins: Seq<crate::signal::Signal>)
    ensures
        crate::sim::spec_evaluate_subcircuit(def, ins).len() <= if def.circuit.comps().len() == 0 { 1 } else { def.circuit.comps().len() },
{
    let c = def.circuit;
    let comps0 = crate::slots::component_slots(c.components);
    let comps1 = crate::sim::drive_inputs(comps0, crate::sim::input_order(comps0), ins, crate::sim::input_order(comps0).len() as int);
    lemma_drive_inputs_len(comps0, crate::sim::input_order(comps0), ins, crate::sim::input_order(comps0).len() as int);
    let settled = spec_settle(comps1, crate::slots::net_slots(c.nets), c.subcircuits@);
    lemma_settle_len(comps1, crate::slots::net_slots(c.nets), c.subcircuits@);
    let order = crate::sim::led_order(settled.0);
    lemma_keyed_len(settled.0, true);
    lemma_sort_len(crate::sim::keyed(settled.0, true));
    lemma_read_leds_len(settled.0, order);
}

/// `n` inputs read as a number are below `2^n`.
proof fn lemma_bits_value_lt(ins: Seq<crate::signal::Signal>, start: int, n: nat)
    ensures
        crate::sim::bits_value(ins, start, n) < crate::sim::weight(n),
    decreases n,
{
    if n > 0 {
        lemma_bits_value_lt(ins, start, (n - 1) as nat);
    }
}

/// The ripple-carry adder's outputs from bit `i` on: the remaining sums
/// and the carry.
proof fn lemma_ripple_len(ins: Seq<crate::signal::Signal>, i: nat, c: crate::signal::Signal)
    requires
        i <= 4,
    ensures
        crate::sim::ripple(ins, i, c).len() == 5 - i,
    decreases 4 - i,
{
    if i < 4 {
        let a = crate::sim::sig_at(ins, i as int);
        let b = crate::sim::sig_at(ins, 4 + i as int);
        let c2 = crate::signal::spec_or(crate::signal::spec_and(a, b), crate::signal::spec_and(c, crate::signal::spec_xor(a, b)));
        lemma_ripple_len(ins, i + 1, c2);
    }
}

/// A component with at most `usize::MAX` memory cells, in a library whose
/// definitions have at most `usize::MAX` components, evaluates to at most
/// `usize::MAX` outputs and keeps its kind and that bound on its memory.
#[verifier::rlimit(40)]
proof fn lemma_eval_len(n: NodeView, lib: Seq<(String, SubcircuitDef)>)
    requires
        lib_small(lib),
        n.memory.len() <= usize::MAX,
    ensures
        spec_eval(n, lib).0.len() <= usize::MAX,
        spec_eval(n, lib).1.memory.len() <= usize::MAX,
        spec_eval(n, lib).1.kind == n.kind,
{
    crate::sim::lemma_eval_keeps(n, lib);
    match n.kind {
        GateKind::RippleCarryAdder4 => {
            lemma_ripple_len(n.input_signals, 0, crate::sim::sig_at(n.input_signals, 8));
            assert(spec_eval(n, lib).0 == crate::sim::eval_plain(n.kind, n.input_signals, n.state_flag));
            assert(crate::sim::eval_plain(n.kind, n.input_signals, n.state_flag) == crate::sim::ripple(n.input_signals, 0, crate::sim::sig_at(n.input_signals, 8)));
            assert(crate::sim::ripple(n.input_signals, 0, crate::sim::sig_at(n.input_signals, 8)).len() == 5);
            assert(spec_eval(n, lib).0.len() == 5);
            assert(spec_eval(n, lib).1 == n);
        },
        GateKind::And => {
            assert(spec_eval(n, lib).0.len() <= usize::MAX && spec_eval(n, lib).1.memory.len() <= usize::MAX);
        },
        GateKind::Or => {
            assert(spec_eval(n, lib).0.len() <= usize::MAX && spec_eval(n, lib).1.memory.len() <= usize::MAX);
        },
        GateKind::Not => {
            assert(spec_eval(n, lib).0.len() <= usize::MAX && spec_eval(n, lib).1.memory.len() <= usize::MAX);
        },
        GateKind::Nand => {
            assert(spec_eval(n, lib).0.len() <= usize::MAX && spec_eval(n, lib).1.memory.len() <= usize::MAX);
        },
        GateKind::Nor => {
            assert(spec_eval(n, lib).0.len() <= usize::MAX && spec_eval(n, lib).1.memory.len() <= usize::MAX);
        },
        GateKind::Xor => {
            assert(spec_eval(n, lib).0.len() <= usize::MAX && spec_eval(n, lib).1.memory.len() <= usize::MAX);
        },
        GateKind::Xnor => {
            assert(spec_eval(n, lib).0.len() <= usize::MAX && spec_eval(n, lib).1.memory.len() <= usize::MAX);
        },
        GateKind::ToggleSwitch => {
            assert(spec_eval(n, lib).0.len() <= usize::MAX && spec_eval(n, lib).1.memory.len() <= usize::MAX);
        },
        GateKind::Led => {
            assert(spec_eval(n, lib).0.len() <= usize::MAX && spec_eval(n, lib).1.memory.len() <= usize::MAX);
        },
        GateKind::Clock => {
            assert(spec_eval(n, lib).0.len() <= usize::MAX && spec_eval(n, lib).1.memory.len() <= usize::MAX);
        },
        GateKind::BinaryDisplay4 => {
            assert(spec_eval(n, lib).0.len() <= usize::MAX && spec_eval(n, lib).1.memory.len() <= usize::MAX);
        },
        GateKind::HexDisplay => {
            assert(spec_eval(n, lib).0.len() <= usize::MAX && spec_eval(n, lib).1.memory.len() <= usize::MAX);
        },
        GateKind::SevenSegment => {
            assert(spec_eval(n, lib).0.len() <= usize::MAX && spec_eval(n, lib).1.memory.len() <= usize::MAX);
        },
        GateKind::HalfAdder => {
            assert(spec_eval(n, lib).0.len() <= usize::MAX && spec_eval(n, lib).1.memory.len() <= usize::MAX);
        },
        GateKind::FullAdder => {
            assert(spec_eval(n, lib).0.len() <= usize::MAX && spec_eval(n, lib).1.memory.len() <= usize::MAX);
        },
        GateKind::HalfSubtractor => {
            assert(spec_eval(n, lib).0.len() <= usize::MAX && spec_eval(n, lib).1.memory.len() <= usize::MAX);
        },
        GateKind::FullSubtractor => {
            assert(spec_eval(n, lib).0.len() <= usize::MAX && spec_eval(n, lib).1.memory.len() <= usize::MAX);
        },
        GateKind::CarryLookaheadAdder4 => {
            assert(spec_eval(n, lib).0.len() <= usize::MAX && spec_eval(n, lib).1.memory.len() <= usize::MAX);
        },
        GateKind::SrLatch => {
            assert(spec_eval(n, lib).0.len() <= usize::MAX && spec_eval(n, lib).1.memory.len() <= usize::MAX);
        },
        GateKind::DLatch => {
            assert(spec_eval(n, lib).0.len() <= usize::MAX && spec_eval(n, lib).1.memory.len() <= usize::MAX);
        },
        GateKind::DFlipFlop => {
            assert(spec_eval(n, lib).0.len() <= usize::MAX && spec_eval(n, lib).1.memory.len() <= usize::MAX);
        },
        GateKind::JkFlipFlop => {
            assert(spec_eval(n, lib).0.len() <= usize::MAX && spec_eval(n, lib).1.memory.len() <= usize::MAX);
        },
        GateKind::TFlipFlop => {
            assert(spec_eval(n, lib).0.len() <= usize::MAX && spec_eval(n, lib).1.memory.len() <= usize::MAX);
        },
        GateKind::Register4 => {
            assert(spec_eval(n, lib).0.len() <= usize::MAX && spec_eval(n, lib).1.memory.len() <= usize::MAX);
        },
        GateKind::ShiftRegister4 => {
            assert(spec_eval(n, lib).0.len() <= usize::MAX && spec_eval(n, lib).1.memory.len() <= usize::MAX);
        },
        GateKind::Counter4 => {
            assert(spec_eval(n, lib).0.len() <= usize::MAX && spec_eval(n, lib).1.memory.len() <= usize::MAX);
        },
        GateKind::ClockDivider => {
            assert(spec_eval(n, lib).0.len() <= usize::MAX && spec_eval(n, lib).1.memory.len() <= usize::MAX);
        },
        GateKind::Mux2 => {
            assert(spec_eval(n, lib).0.len() <= usize::MAX && spec_eval(n, lib).1.memory.len() <= usize::MAX);
        },
        GateKind::Mux4 => {
            assert(spec_eval(n, lib).0.len() <= usize::MAX && spec_eval(n, lib).1.memory.len() <= usize::MAX);
        },
        GateKind::Demux2 => {
            assert(spec_eval(n, lib).0.len() <= usize::MAX && spec_eval(n, lib).1.memory.len() <= usize::MAX);
        },
        GateKind::Demux4 => {
            assert(spec_eval(n, lib).0.len() <= usize::MAX && spec_eval(n, lib).1.memory.len() <= usize::MAX);
        },
        GateKind::Encoder4to2 => {
            assert(spec_eval(n, lib).0.len() <= usize::MAX && spec_eval(n, lib).1.memory.len() <= usize::MAX);
        },
        GateKind::Decoder2to4 => {
            assert(spec_eval(n, lib).0.len() <= usize::MAX && spec_eval(n, lib).1.memory.len() <= usize::MAX);
        },
        GateKind::Comparator2 => {
            assert(spec_eval(n, lib).0.len() <= usize::MAX && spec_eval(n, lib).1.memory.len() <= usize::MAX);
        },
        GateKind::Alu4 => {
            assert(spec_eval(n, lib).0.len() <= usize::MAX && spec_eval(n, lib).1.memory.len() <= usize::MAX);
        },
        GateKind::Rom16x4 => {
            assert(spec_eval(n, lib).0.len() <= usize::MAX && spec_eval(n, lib).1.memory.len() <= usize::MAX);
        },
        GateKind::SubcircuitInstance(name) => {
            lemma_lookup_small(lib, name@);
            match crate::graph::lib_lookup(lib, name@) {
                Some(def) => {
                    lemma_subcircuit_len(def, n.input_signals);
                },
                None => {},
            }
        },
        GateKind::Ram16x4 => {
            let r = crate::sim::eval_ram(n);
            lemma_bits_value_lt(n.input_signals, 0, 4);
            reveal_with_fuel(crate::sim::weight, 5);
            assert(spec_eval(n, lib) == r);
            assert(r.1.memory.len() == if n.memory.len() < 16 { 16 } else { n.memory.len() });
            assert(spec_eval(n, lib).0.len() <= usize::MAX && spec_eval(n, lib).1.memory.len() <= usize::MAX);
        },
        _ => {
            assert(spec_eval(n, lib).0.len() <= usize::MAX && spec_eval(n, lib).1.memory.len() <= usize::MAX);
        },
    }
}

/// The net carries the current output of its source port, when that
/// component and port exist.
pub open spec fn net_follows(comps: Seq<(u64, NodeView)>, net: NetView) -> bool {
    match slot_get(comps, net.source.component_id@) {
        Some(src) => net.source.port_index < src.output_signals.len() ==> net.current_signal
            == src.output_signals[net.source.port_index as int],
        None => true,
    }
}

/// Every net carries the current output of its source port.
pub open spec fn nets_follow(comps: Seq<(u64, NodeView)>, nets: Seq<(u64, NetView)>) -> bool {
    forall|j: int| 0 <= j < nets.len() ==> net_follows(comps, #[trigger] nets[j].1)
}

/// Every net is driven by an output port, and no output port drives two
/// nets (as `Circuit::connect_ports` arranges).
pub open spec fn nets_wf(nets: Seq<(u64, NetView)>) -> bool {
    &&& forall|j: int| 0 <= j < nets.len() ==> (#[trigger] nets[j]).1.source.is_output
    &&& forall|j: int, k: int|
        0 <= j < nets.len() && 0 <= k < nets.len() && j != k ==> (#[trigger] nets[j]).1.source != (#[trigger] nets[k]).1.source
}

/// A component with at most `usize::MAX` outputs and memory cells.
pub open spec fn plain_node(n: NodeView) -> bool {
    &&& n.output_signals.len() <= usize::MAX
    &&& n.memory.len() <= usize::MAX
}

pub open spec fn plain_nodes(comps: Seq<(u64, NodeView)>) -> bool {
    forall|i: int| 0 <= i < comps.len() ==> plain_node(#[trigger] comps[i].1)
}

/// Same keys, and per entry the same kind, memory and outputs.
pub open spec fn same_outs(a: Seq<(u64, NodeView)>, b: Seq<(u64, NodeView)>) -> bool {
    &&& a.len() == b.len()
    &&& forall|i: int| 0 <= i < a.len() ==> {
        &&& (#[trigger] a[i]).0 == b[i].0
        &&& a[i].1.output_signals == b[i].1.output_signals
        &&& a[i].1.kind == b[i].1.kind
        &&& a[i].1.memory == b[i].1.memory
    }
}

/// Same keys, sources and sink lists.
pub open spec fn same_shape(a: Seq<(u64, NetView)>, b: Seq<(u64, NetView)>) -> bool {
    &&& a.len() == b.len()
    &&& forall|j: int| 0 <= j < a.len() ==> (#[trigger] a[j]).0 == b[j].0 && a[j].1.source == b[j].1.source && a[j].1.sinks == b[j].1.sinks
}

proof fn lemma_same_outs_get(a: Seq<(u64, NodeView)>, b: Seq<(u64, NodeView)>, k: u64)
    requires
        same_outs(a, b),
        slot_keys(a).no_duplicates(),
    ensures
        slot_keys(a) == slot_keys(b),
        slot_has(a, k) == slot_has(b, k),
        slot_has(a, k) ==> slot_get(a, k)->0.output_signals == slot_get(b, k)->0.output_signals,
{
    assert(slot_keys(a) =~= slot_keys(b));
    if slot_has(a, k) {
        let i = slot_pos(a, k);
        assert(b[i].0 == k);
        let j = slot_pos(b, k);
        assert(a[j].0 == k);
        assert(slot_keys(a)[i] == slot_keys(a)[j]);
    }
    if slot_has(b, k) {
        let j = slot_pos(b, k);
        assert(a[j].0 == k);
    }
}

proof fn lemma_follows_transfer(a: Seq<(u64, NodeView)>, b: Seq<(u64, NodeView)>, net: NetView)
    requires
        same_outs(a, b),
        slot_keys(a).no_duplicates(),
        net_follows(a, net),
    ensures
        net_follows(b, net),
{
    lemma_same_outs_get(a, b, net.source.component_id@);
}

proof fn lemma_same_outs_trans(a: Seq<(u64, NodeView)>, b: Seq<(u64, NodeView)>, c: Seq<(u64, NodeView)>)
    requires
        same_outs(a, b),
        same_outs(b, c),
    ensures
        same_outs(a, c),
{
    assert forall|i: int| 0 <= i < a.len() implies {
        &&& (#[trigger] a[i]).0 == c[i].0
        &&& a[i].1.output_signals == c[i].1.output_signals
        &&& a[i].1.kind == c[i].1.kind
        &&& a[i].1.memory == c[i].1.memory
    } by {
        assert(b[i].0 == c[i].0);
    }
}

proof fn lemma_same_outs_keys(a: Seq<(u64, NodeView)>, b: Seq<(u64, NodeView)>)
    requires
        same_outs(a, b),
    ensures
        slot_keys(a) == slot_keys(b),
        plain_nodes(a) ==> plain_nodes(b),
{
    assert(slot_keys(a) =~= slot_keys(b));
    if plain_nodes(a) {
        assert forall|i: int| 0 <= i < b.len() implies plain_node(#[trigger] b[i].1) by {
            assert(plain_node(a[i].1));
        }
    }
}

/// Replacing a node by one with the same kind, memory and outputs.
proof fn lemma_set_same_outs(s: Seq<(u64, NodeView)>, k: u64, v: NodeView)
    requires
        slot_keys(s).no_duplicates(),
        slot_get(s, k) matches Some(n) ==> n.output_signals == v.output_signals && n.kind == v.kind
            && n.memory == v.memory,
    ensures
        same_outs(s, slot_set(s, k, v)),
{
    let t = slot_set(s, k, v);
    assert forall|i: int| 0 <= i < s.len() implies {
        &&& (#[trigger] s[i]).0 == t[i].0
        &&& s[i].1.output_signals == t[i].1.output_signals
        &&& s[i].1.kind == t[i].1.kind
        &&& s[i].1.memory == t[i].1.memory
    } by {
        if s[i].0 == k {
            lemma_slot_get_at(s, i);
        }
    }
}

proof fn lemma_drive_sink(comps: Seq<(u64, NodeView)>, sk: crate::graph::PortEndpoint, sig: crate::signal::Signal)
    requires
        slot_keys(comps).no_duplicates(),
    ensures
        same_outs(comps, drive_sink(comps, sk, sig)),
{
    let id = sk.component_id@;
    match slot_get(comps, id) {
        Some(n) => {
            if sk.port_index < n.input_signals.len() {
                lemma_set_same_outs(comps, id, NodeView { input_signals: n.input_signals.update(sk.port_index as int, sig), ..n });
            }
        },
        None => {},
    }
}

proof fn lemma_drive_sinks(comps: Seq<(u64, NodeView)>, sinks: Seq<crate::graph::PortEndpoint>, sig: crate::signal::Signal, k: int)
    requires
        slot_keys(comps).no_duplicates(),
    ensures
        same_outs(comps, drive_sinks(comps, sinks, sig, k)),
    decreases k,
{
    if k <= 0 || k > sinks.len() {
    } else {
        lemma_drive_sinks(comps, sinks, sig, k - 1);
        let prev = drive_sinks(comps, sinks, sig, k - 1);
        lemma_same_outs_keys(comps, prev);
        lemma_drive_sink(prev, sinks[k - 1], sig);
        lemma_same_outs_trans(comps, prev, drive_sink(prev, sinks[k - 1], sig));
    }
}

proof fn lemma_push_sinks(
    comps: Seq<(u64, NodeView)>,
    queue: Seq<u64>,
    sinks: Seq<crate::graph::PortEndpoint>,
    sig: crate::signal::Signal,
    k: int,
)
    requires
        slot_keys(comps).no_duplicates(),
    ensures
        same_outs(comps, push_sinks(comps, queue, sinks, sig, k).0),
    decreases k,
{
    if k <= 0 || k > sinks.len() {
    } else {
        lemma_push_sinks(comps, queue, sinks, sig, k - 1);
        let prev = push_sinks(comps, queue, sinks, sig, k - 1);
        let c = prev.0;
        lemma_same_outs_keys(comps, c);
        let sk = sinks[k - 1];
        let id = sk.component_id@;
        match slot_get(c, id) {
            Some(n) => {
                if sk.port_index < n.input_signals.len() && n.input_signals[sk.port_index as int] != sig {
                    let v = NodeView { input_signals: n.input_signals.update(sk.port_index as int, sig), ..n };
                    lemma_set_same_outs(c, id, v);
                    lemma_same_outs_trans(comps, c, slot_set(c, id, v));
                }
            },
            None => {},
        }
    }
}

/// Synchronising the first `j` nets makes each of them carry its source's
/// output, and changes no component's kind, memory or outputs.
proof fn lemma_phase2(comps: Seq<(u64, NodeView)>, nets: Seq<(u64, NetView)>, j: int)
    requires
        slot_keys(comps).no_duplicates(),
        0 <= j <= nets.len(),
    ensures
        same_outs(comps, spec_phase2(comps, nets, j).0),
        same_shape(nets, spec_phase2(comps, nets, j).1),
        forall|m: int| 0 <= m < j ==> net_follows(spec_phase2(comps, nets, j).0, #[trigger] spec_phase2(comps, nets, j).1[m].1),
    decreases j,
{
    if j == 0 {
        assert(same_outs(comps, comps));
        assert(same_shape(nets, nets));
    } else {
        lemma_phase2(comps, nets, j - 1);
        let prev = spec_phase2(comps, nets, j - 1);
        lemma_same_outs_keys(comps, prev.0);
        let net = prev.1[j - 1].1;
        let r = sync_net(prev.0, prev.1, j - 1);
        assert(r == spec_phase2(comps, nets, j));
        match slot_get(prev.0, net.source.component_id@) {
            Some(src) => {
                if net.source.port_index < src.output_signals.len() {
                    let sig = src.output_signals[net.source.port_index as int];
                    lemma_drive_sinks(prev.0, net.sinks, sig, net.sinks.len() as int);
                    lemma_same_outs_trans(comps, prev.0, r.0);
                    assert(net_follows(prev.0, r.1[j - 1].1));
                    assert forall|m: int| 0 <= m < j implies net_follows(r.0, #[trigger] r.1[m].1) by {
                        if m < j - 1 {
                            assert(r.1[m] == prev.1[m]);
                        }
                        lemma_follows_transfer(prev.0, r.0, r.1[m].1);
                    }
                } else {
                    assert(net_follows(prev.0, r.1[j - 1].1));
                }
            },
            None => {
                assert(net_follows(prev.0, r.1[j - 1].1));
            },
        }
    }
}

proof fn lemma_shape_wf(a: Seq<(u64, NetView)>, b: Seq<(u64, NetView)>)
    requires
        same_shape(a, b),
        nets_wf(a),
    ensures
        nets_wf(b),
{
    assert forall|j: int| 0 <= j < b.len() implies (#[trigger] b[j]).1.source.is_output by {
        assert(a[j].1.source == b[j].1.source);
    }
    assert forall|j: int, k: int| 0 <= j < b.len() && 0 <= k < b.len() && j != k implies (#[trigger] b[j]).1.source
        != (#[trigger] b[k]).1.source by {
        assert(a[j].1.source == b[j].1.source);
        assert(a[k].1.source == b[k].1.source);
    }
}

proof fn lemma_shape_trans(a: Seq<(u64, NetView)>, b: Seq<(u64, NetView)>, c: Seq<(u64, NetView)>)
    requires
        same_shape(a, b),
        same_shape(b, c),
    ensures
        same_shape(a, c),
{
    assert forall|j: int| 0 <= j < a.len() implies (#[trigger] a[j]).0 == c[j].0 && a[j].1.source == c[j].1.source && a[j].1.sinks == c[j].1.sinks by {
        assert(b[j].0 == c[j].0);
    }
}

/// Two nets driven by the same output port are the same net.
proof fn lemma_same_port(nets: Seq<(u64, NetView)>, i: int, j: int, id: u64, idx: int)
    requires
        nets_wf(nets),
        0 <= i < nets.len(),
        0 <= j < nets.len(),
        is_source(nets[i].1, id, idx),
        is_source(nets[j].1, id, idx),
    ensures
        i == j,
{
    if i != j {
        crate::graph::lemma_component_id_eq(nets[i].1.source.component_id, nets[j].1.source.component_id);
        assert(nets[i].1.source == nets[j].1.source);
    }
}

/// Output `p` is new or differs from before.
pub open spec fn changed_at(old: Seq<crate::signal::Signal>, new: Seq<crate::signal::Signal>, p: int) -> bool {
    p >= old.len() || old[p] != new[p]
}

/// The changed outputs: below `k`, each with its new value, in increasing
/// order, and every change is listed.
proof fn lemma_changed_outputs(old: Seq<crate::signal::Signal>, new: Seq<crate::signal::Signal>, k: int)
    requires
        0 <= k <= new.len(),
        new.len() <= usize::MAX,
    ensures
        forall|m: int| 0 <= m < changed_outputs(old, new, k).len() ==> {
            let c = #[trigger] changed_outputs(old, new, k)[m];
            &&& (c.0 as int) < k
            &&& c.1 == new[c.0 as int]
            &&& ((c.0 as int) >= old.len() || old[c.0 as int] != new[c.0 as int])
        },
        forall|a: int, b: int|
            0 <= a < b < changed_outputs(old, new, k).len() ==> (#[trigger] changed_outputs(old, new, k)[a]).0
                < (#[trigger] changed_outputs(old, new, k)[b]).0,
        forall|p: int| 0 <= p < k && #[trigger] changed_at(old, new, p) ==> exists|m: int|
            0 <= m < changed_outputs(old, new, k).len() && (#[trigger] changed_outputs(old, new, k)[m]).0 as int == p,
    decreases k,
{
    if k > 0 {
        lemma_changed_outputs(old, new, k - 1);
        let r = changed_outputs(old, new, k - 1);
        let c = changed_outputs(old, new, k);
        let i = k - 1;
        if i >= old.len() || old[i] != new[i] {
            assert(c == r.push((i as usize, new[i])));
            assert(c[r.len() as int].0 as int == i);
            assert forall|p: int| 0 <= p < k && #[trigger] changed_at(old, new, p) implies exists|m: int|
                0 <= m < c.len() && (#[trigger] c[m]).0 as int == p by {
                if p < i {
                    let m = choose|m: int| 0 <= m < r.len() && (#[trigger] r[m]).0 as int == p;
                    assert(c[m] == r[m]);
                }
            }
        } else {
            assert(c == r);
            assert(!changed_at(old, new, i));
        }
    }
}

/// `m` is a change carried to the net (its source is that output of `id`).
pub open spec fn hits(ch: (usize, crate::signal::Signal), net: NetView, id: u64) -> bool {
    is_source(net, id, ch.0 as int)
}

/// Carrying the first `k` changes of `id`: each net driven by a changed
/// output takes that output's new value; other nets and every component's
/// kind, memory and outputs stay.
proof fn lemma_propagate_all(
    comps: Seq<(u64, NodeView)>,
    nets: Seq<(u64, NetView)>,
    queue: Seq<u64>,
    id: u64,
    changes: Seq<(usize, crate::signal::Signal)>,
    k: int,
)
    requires
        slot_keys(comps).no_duplicates(),
        nets_wf(nets),
        forall|a: int, b: int| 0 <= a < b < changes.len() ==> (#[trigger] changes[a]).0 != (#[trigger] changes[b]).0,
        0 <= k <= changes.len(),
    ensures
        same_outs(comps, propagate_all(comps, nets, queue, id, changes, k).0),
        same_shape(nets, propagate_all(comps, nets, queue, id, changes, k).1),
        forall|j: int|
            0 <= j < nets.len() && (forall|m: int| 0 <= m < k ==> !hits(#[trigger] changes[m], nets[j].1, id)) ==> 
                #[trigger] propagate_all(comps, nets, queue, id, changes, k).1[j] == nets[j],
        forall|j: int, m: int|
            0 <= j < nets.len() && 0 <= m < k && hits(#[trigger] changes[m], nets[j].1, id) ==> 
                (#[trigger] propagate_all(comps, nets, queue, id, changes, k).1[j]).1.current_signal == changes[m].1,
    decreases k,
{
    if k == 0 {
        assert(same_outs(comps, comps));
        assert(same_shape(nets, nets));
    } else {
        lemma_propagate_all(comps, nets, queue, id, changes, k - 1);
        let prev = propagate_all(comps, nets, queue, id, changes, k - 1);
        let ch = changes[k - 1];
        let r = propagate_change(prev.0, prev.1, prev.2, id, ch);
        assert(r == propagate_all(comps, nets, queue, id, changes, k));
        lemma_shape_wf(nets, prev.1);
        lemma_same_outs_keys(comps, prev.0);
        if exists|i: int| first_source(prev.1, i, id, ch.0 as int) {
            let i = choose|i: int| first_source(prev.1, i, id, ch.0 as int);
            let net = prev.1[i].1;
            lemma_push_sinks(prev.0, prev.2, net.sinks, ch.1, net.sinks.len() as int);
            lemma_same_outs_trans(comps, prev.0, r.0);
            assert(same_shape(prev.1, r.1));
            lemma_shape_trans(nets, prev.1, r.1);
            assert(nets[i].1.source == prev.1[i].1.source);
            assert(hits(ch, nets[i].1, id));
            assert forall|j: int|
                0 <= j < nets.len() && (forall|m: int| 0 <= m < k ==> !hits(#[trigger] changes[m], nets[j].1, id)) implies
                #[trigger] r.1[j] == nets[j] by {
                if j == i {
                    assert(hits(changes[k - 1], nets[j].1, id));
                }
                assert(forall|m: int| 0 <= m < k - 1 ==> !hits(#[trigger] changes[m], nets[j].1, id));
            }
            assert forall|j: int, m: int|
                0 <= j < nets.len() && 0 <= m < k && hits(#[trigger] changes[m], nets[j].1, id) implies
                (#[trigger] r.1[j]).1.current_signal == changes[m].1 by {
                assert(nets[j].1.source == prev.1[j].1.source);
                if m == k - 1 {
                    lemma_same_port(prev.1, i, j, id, ch.0 as int);
                } else if j == i {
                    assert(changes[m].0 as int == ch.0 as int);
                    assert(changes[m].0 != changes[k - 1].0);
                } else {
                    assert(r.1[j] == prev.1[j]);
                }
            }
        } else {
            assert forall|j: int| 0 <= j < prev.1.len() implies !is_source(#[trigger] prev.1[j].1, id, ch.0 as int) by {
                if is_source(prev.1[j].1, id, ch.0 as int) {
                    assert forall|jj: int| 0 <= jj < j implies !is_source(#[trigger] prev.1[jj].1, id, ch.0 as int) by {
                        if is_source(prev.1[jj].1, id, ch.0 as int) {
                            lemma_same_port(prev.1, jj, j, id, ch.0 as int);
                        }
                    }
                    assert(first_source(prev.1, j, id, ch.0 as int));
                }
            }
            assert forall|j: int|
                0 <= j < nets.len() && (forall|m: int| 0 <= m < k ==> !hits(#[trigger] changes[m], nets[j].1, id)) implies
                #[trigger] r.1[j] == nets[j] by {
                assert(forall|m: int| 0 <= m < k - 1 ==> !hits(#[trigger] changes[m], nets[j].1, id));
            }
            assert forall|j: int, m: int|
                0 <= j < nets.len() && 0 <= m < k && hits(#[trigger] changes[m], nets[j].1, id) implies
                (#[trigger] r.1[j]).1.current_signal == changes[m].1 by {
                assert(nets[j].1.source == prev.1[j].1.source);
                if m == k - 1 {
                    assert(is_source(prev.1[j].1, id, ch.0 as int));
                }
            }
        }
    }
}

/// After the step budget runs out every output and every net is unknown,
/// so every net carries its source's output.
proof fn lemma_all_x_follow(comps: Seq<(u64, NodeView)>, nets: Seq<(u64, NetView)>)
    ensures
        nets_follow(all_outputs_x(comps), all_nets_x(nets)),
{
    let xc = all_outputs_x(comps);
    let xn = all_nets_x(nets);
    assert forall|j: int| 0 <= j < xn.len() implies net_follows(xc, #[trigger] xn[j].1) by {
        let k = xn[j].1.source.component_id@;
        if slot_has(xc, k) {
            let i = slot_pos(xc, k);
            assert(slot_get(xc, k) == Some(xc[i].1));
        }
    }
}

/// Evaluating every component keeps the keys and plain components plain.
proof fn lemma_phase1(comps: Seq<(u64, NodeView)>, lib: Seq<(String, SubcircuitDef)>, j: int)
    requires
        lib_small(lib),
        slot_keys(comps).no_duplicates(),
        plain_nodes(comps),
    ensures
        slot_keys(spec_phase1(comps, lib, j)) == slot_keys(comps),
        plain_nodes(spec_phase1(comps, lib, j)),
    decreases comps.len() - j,
{
    if j < 0 || j >= comps.len() {
    } else {
        let r = spec_eval(comps[j].1, lib);
        lemma_eval_len(comps[j].1, lib);
        let next = comps.update(j, (comps[j].0, NodeView { output_signals: r.0, ..r.1 }));
        assert(slot_keys(next) =~= slot_keys(comps));
        assert forall|i: int| 0 <= i < next.len() implies plain_node(#[trigger] next[i].1) by {
            if i != j {
                assert(next[i] == comps[i]);
            }
        }
        lemma_phase1(next, lib, j + 1);
    }
}

/// One settle step keeps every net carrying its source's output: the
/// re-evaluated component's changed outputs reach the nets they drive.
#[verifier::rlimit(60)]
proof fn lemma_settle_loop(
    comps: Seq<(u64, NodeView)>,
    nets: Seq<(u64, NetView)>,
    queue: Seq<u64>,
    count: int,
    max: int,
    lib: Seq<(String, SubcircuitDef)>,
)
    requires
        lib_small(lib),
        slot_keys(comps).no_duplicates(),
        plain_nodes(comps),
        nets_wf(nets),
        nets_follow(comps, nets),
    ensures
        nets_follow(
            spec_settle_loop(comps, nets, queue, count, max, lib).0,
            spec_settle_loop(comps, nets, queue, count, max, lib).1,
        ),
    decreases max + 1 - count,
{
    if queue.len() == 0 || count < 0 {
    } else if count + 1 > max {
        lemma_all_x_follow(comps, nets);
    } else {
        let id = queue[0];
        let q1 = queue.drop_first();
        match slot_get(comps, id) {
            Some(n) => {
                let i0 = slot_pos(comps, id);
                assert(n == comps[i0].1);
                assert(plain_node(comps[i0].1));
                lemma_eval_len(n, lib);
                let r = spec_eval(n, lib);
                let changes = changed_outputs(n.output_signals, r.0, r.0.len() as int);
                lemma_changed_outputs(n.output_signals, r.0, r.0.len() as int);
                let mo = merge_outputs(n.output_signals, r.0);
                let v = NodeView { output_signals: mo, ..r.1 };
                let comps2 = slot_set(comps, id, v);
                lemma_slot_set_keys(comps, id, v);
                assert forall|i: int| 0 <= i < comps2.len() implies plain_node(#[trigger] comps2[i].1) by {
                    if comps[i].0 != id {
                        assert(comps2[i] == comps[i]);
                    }
                }
                assert forall|a: int, b: int| 0 <= a < b < changes.len() implies (#[trigger] changes[a]).0
                    != (#[trigger] changes[b]).0 by {
                }
                lemma_propagate_all(comps2, nets, q1, id, changes, changes.len() as int);
                let p = propagate_all(comps2, nets, q1, id, changes, changes.len() as int);
                lemma_same_outs_keys(comps2, p.0);
                lemma_shape_wf(nets, p.1);
                assert forall|j: int| 0 <= j < p.1.len() implies net_follows(p.0, #[trigger] p.1[j].1) by {
                    let src = nets[j].1.source;
                    assert(p.1[j].1.source == src);
                    let k = src.component_id@;
                    lemma_slot_set_get(comps, id, v, k);
                    assert(net_follows(comps, nets[j].1));
                    if k != id {
                        assert forall|m: int| 0 <= m < changes.len() implies !hits(#[trigger] changes[m], nets[j].1, id) by {
                        }
                        assert(p.1[j] == nets[j]);
                        assert(net_follows(comps2, p.1[j].1));
                    } else {
                        let pp = src.port_index as int;
                        assert(slot_get(comps2, id) == Some(v));
                        if exists|m: int| 0 <= m < changes.len() && hits(#[trigger] changes[m], nets[j].1, id) {
                            let m = choose|m: int| 0 <= m < changes.len() && hits(#[trigger] changes[m], nets[j].1, id);
                            assert(p.1[j].1.current_signal == changes[m].1);
                            assert(changes[m].0 as int == pp);
                            assert(net_follows(comps2, p.1[j].1));
                        } else {
                            assert(p.1[j] == nets[j]);
                            if pp < mo.len() && pp < r.0.len() && changed_at(n.output_signals, r.0, pp) {
                                let m = choose|m: int| 0 <= m < changes.len() && (#[trigger] changes[m]).0 as int == pp;
                                assert(nets_wf(nets));
                                assert(nets[j].1.source.is_output);
                                assert(hits(changes[m], nets[j].1, id));
                            }
                            assert(net_follows(comps2, p.1[j].1));
                        }
                    }
                    lemma_follows_transfer(comps2, p.0, p.1[j].1);
                }
                lemma_settle_loop(p.0, p.1, p.2, count + 1, max, lib);
            },
            None => {
                lemma_settle_loop(comps, nets, q1, count + 1, max, lib);
            },
        }
    }
}

/// Settling leaves every net carrying the current output of the port that
/// drives it (when that component and port exist), whether the work list
/// empties or the step budget runs out. Stated for distinct component keys,
/// nets driven by output ports with no port driving two nets (which every
/// `Circuit` operation keeps), components with at most `usize::MAX`
/// outputs and memory cells, and library definitions with at most
/// `usize::MAX` components.
pub proof fn lemma_settle_nets_follow_sources(
    comps: Seq<(u64, NodeView)>,
    nets: Seq<(u64, NetView)>,
    lib: Seq<(String, SubcircuitDef)>,
)
    requires
        lib_small(lib),
        slot_keys(comps).no_duplicates(),
        plain_nodes(comps),
        nets_wf(nets),
    ensures
        nets_follow(spec_settle(comps, nets, lib).0, spec_settle(comps, nets, lib).1),
{
    let c1 = spec_phase1(comps, lib, 0);
    lemma_phase1(comps, lib, 0);
    let p2 = spec_phase2(c1, nets, nets.len() as int);
    lemma_phase2(c1, nets, nets.len() as int);
    lemma_same_outs_keys(c1, p2.0);
    lemma_shape_wf(nets, p2.1);
    assert(nets_follow(p2.0, p2.1));
    lemma_settle_loop(p2.0, p2.1, slot_keys(comps), 0, settle_budget(comps.len()), lib);
}

/// Filtering a prefix of well-formed nets gives well-formed nets, each
/// one of the prefix.
proof fn lemma_wf_filter_take(nets: Seq<(u64, NetView)>, p: spec_fn((u64, NetView)) -> bool, i: int)
    requires
        nets_wf(nets),
        0 <= i <= nets.len(),
    ensures
        nets_wf(nets.take(i).filter(p)),
        forall|x: int| 0 <= x < nets.take(i).filter(p).len() ==> exists|m: int|
            0 <= m < i && #[trigger] nets.take(i).filter(p)[x] == nets[m],
    decreases i,
{
    if i == 0 {
        assert(nets.take(0) =~= Seq::<(u64, NetView)>::empty());
        assert(nets.take(0).filter(p) =~= Seq::<(u64, NetView)>::empty()) by {
            reveal(Seq::filter);
        }
    } else {
        let k = i - 1;
        lemma_wf_filter_take(nets, p, k);
        crate::seqs::lemma_filter_take_step(nets, p, k);
        let prev = nets.take(k).filter(p);
        let next = nets.take(i).filter(p);
        if p(nets[k]) {
            assert(next == prev.push(nets[k]));
            assert forall|x: int| 0 <= x < next.len() implies exists|m: int| 0 <= m < i && #[trigger] next[x] == nets[m] by {
                if x < prev.len() {
                    assert(next[x] == prev[x]);
                    let m = choose|m: int| 0 <= m < k && #[trigger] prev[x] == nets[m];
                } else {
                    assert(next[x] == nets[k]);
                }
            }
            assert forall|a: int, b: int| 0 <= a < next.len() && 0 <= b < next.len() && a != b implies (#[trigger] next[a]).1.source
                != (#[trigger] next[b]).1.source by {
                if a < prev.len() && b < prev.len() {
                    assert(next[a] == prev[a] && next[b] == prev[b]);
                } else if a < prev.len() {
                    let m = choose|m: int| 0 <= m < k && #[trigger] prev[a] == nets[m];
                    assert(next[a] == nets[m] && next[b] == nets[k]);
                } else {
                    let m = choose|m: int| 0 <= m < k && #[trigger] prev[b] == nets[m];
                    assert(next[b] == nets[m] && next[a] == nets[k]);
                }
            }
            assert forall|j: int| 0 <= j < next.len() implies (#[trigger] next[j]).1.source.is_output by {
                if j < prev.len() {
                    assert(next[j] == prev[j]);
                }
            }
        } else {
            assert(next == prev);
            assert forall|x: int| 0 <= x < next.len() implies exists|m: int| 0 <= m < i && #[trigger] next[x] == nets[m] by {
                let m = choose|m: int| 0 <= m < k && #[trigger] prev[x] == nets[m];
            }
        }
    }
}

/// Dropping nets keeps the nets well formed.
pub proof fn lemma_wf_filter(nets: Seq<(u64, NetView)>, p: spec_fn((u64, NetView)) -> bool)
    requires
        nets_wf(nets),
    ensures
        nets_wf(nets.filter(p)),
{
    lemma_wf_filter_take(nets, p, nets.len() as int);
    crate::seqs::lemma_take_full(nets);
}

/// Changing nets without changing their sources keeps them well formed.
proof fn lemma_wf_same_sources(a: Seq<(u64, NetView)>, b: Seq<(u64, NetView)>)
    requires
        nets_wf(a),
        a.len() == b.len(),
        forall|j: int| 0 <= j < a.len() ==> (#[trigger] a[j]).1.source == b[j].1.source,
    ensures
        nets_wf(b),
{
    assert forall|j: int| 0 <= j < b.len() implies (#[trigger] b[j]).1.source.is_output by {
        assert(a[j].1.source == b[j].1.source);
    }
    assert forall|j: int, k: int| 0 <= j < b.len() && 0 <= k < b.len() && j != k implies (#[trigger] b[j]).1.source
        != (#[trigger] b[k]).1.source by {
        assert(a[j].1.source == b[j].1.source);
        assert(a[k].1.source == b[k].1.source);
    }
}

/// Pruning sink lists keeps the nets well formed.
pub proof fn lemma_wf_prune(nets: Seq<(u64, NetView)>, f: crate::graph::SinkPrune)
    requires
        nets_wf(nets),
    ensures
        nets_wf(crate::graph::prune_all(nets, f)),
{
    lemma_wf_same_sources(nets, crate::graph::prune_all(nets, f));
}

/// Disconnecting a sink keeps the nets well formed.
pub proof fn lemma_wf_without_sink(nets: Seq<(u64, NetView)>, sink: crate::graph::PortEndpoint)
    requires
        nets_wf(nets),
    ensures
        nets_wf(crate::graph::spec_nets_without_sink(nets, sink)),
{
    let pr = crate::graph::prune_all(nets, crate::graph::SinkPrune::Exactly(sink));
    lemma_wf_prune(nets, crate::graph::SinkPrune::Exactly(sink));
    lemma_wf_filter(pr, |e: (u64, NetView)| !crate::graph::net_dropped(crate::graph::NetDrop::NoSinks, e.1));
}

/// Removing a component keeps the nets well formed.
pub proof fn lemma_wf_without_component(nets: Seq<(u64, NetView)>, id: crate::graph::ComponentId)
    requires
        nets_wf(nets),
    ensures
        nets_wf(crate::graph::spec_nets_without_component(nets, id)),
{
    let d1 = crate::graph::drop_where(nets, crate::graph::NetDrop::SourceIs(id));
    lemma_wf_filter(nets, |e: (u64, NetView)| !crate::graph::net_dropped(crate::graph::NetDrop::SourceIs(id), e.1));
    let pr = crate::graph::prune_all(d1, crate::graph::SinkPrune::OfComponent(id));
    lemma_wf_prune(d1, crate::graph::SinkPrune::OfComponent(id));
    lemma_wf_filter(pr, |e: (u64, NetView)| !crate::graph::net_dropped(crate::graph::NetDrop::NoSinks, e.1));
}

/// Shrinking a component's inputs or outputs keeps the nets well formed.
pub proof fn lemma_wf_pruned_ports(nets: Seq<(u64, NetView)>, id: crate::graph::ComponentId, count: usize)
    requires
        nets_wf(nets),
    ensures
        nets_wf(crate::graph::spec_nets_pruned_inputs(nets, id, count)),
        nets_wf(crate::graph::spec_nets_pruned_outputs(nets, id, count)),
{
    let pr = crate::graph::prune_all(nets, crate::graph::SinkPrune::InputsFrom(id, count));
    lemma_wf_prune(nets, crate::graph::SinkPrune::InputsFrom(id, count));
    lemma_wf_filter(pr, |e: (u64, NetView)| !crate::graph::net_dropped(crate::graph::NetDrop::NoSinks, e.1));
    lemma_wf_filter(nets, |e: (u64, NetView)| !crate::graph::net_dropped(crate::graph::NetDrop::SourcePortFrom(id, count), e.1));
}

/// Replacing a net by one with the same source keeps the nets well formed.
pub proof fn lemma_wf_set_source(nets: Seq<(u64, NetView)>, i: int, v: NetView)
    requires
        nets_wf(nets),
        slot_keys(nets).no_duplicates(),
        0 <= i < nets.len(),
        v.source == nets[i].1.source,
    ensures
        nets_wf(slot_set(nets, nets[i].0, v)),
{
    let t = slot_set(nets, nets[i].0, v);
    assert forall|j: int| 0 <= j < nets.len() implies (#[trigger] nets[j]).1.source == t[j].1.source by {
        if nets[j].0 == nets[i].0 && j != i {
            assert(slot_keys(nets)[j] == slot_keys(nets)[i]);
        }
    }
    lemma_wf_same_sources(nets, t);
}

/// Adding a net from an output port that drives no net keeps the nets well
/// formed.
pub proof fn lemma_wf_insert(nets: Seq<(u64, NetView)>, j: int, e: (u64, NetView))
    requires
        nets_wf(nets),
        0 <= j <= nets.len(),
        e.1.source.is_output,
        forall|i: int| 0 <= i < nets.len() ==> (#[trigger] nets[i]).1.source != e.1.source,
    ensures
        nets_wf(nets.insert(j, e)),
{
    let t = nets.insert(j, e);
    assert forall|a: int| 0 <= a < t.len() implies (#[trigger] t[a]).1.source.is_output by {
        if a < j {
            assert(t[a] == nets[a]);
        } else if a > j {
            assert(t[a] == nets[a - 1]);
        }
    }
    assert forall|a: int, b: int| 0 <= a < t.len() && 0 <= b < t.len() && a != b implies (#[trigger] t[a]).1.source
        != (#[trigger] t[b]).1.source by {
        let ia = if a < j { a } else { a - 1 };
        let ib = if b < j { b } else { b - 1 };
        if a != j {
            assert(t[a] == nets[ia]);
        }
        if b != j {
            assert(t[b] == nets[ib]);
        }
    }
}

proof fn lemma_phase2_shape(comps: Seq<(u64, NodeView)>, nets: Seq<(u64, NetView)>, j: int)
    ensures
        same_shape(nets, spec_phase2(comps, nets, j).1),
    decreases j,
{
    if j <= 0 || j > nets.len() {
        assert(same_shape(nets, nets));
    } else {
        lemma_phase2_shape(comps, nets, j - 1);
        let prev = spec_phase2(comps, nets, j - 1);
        let r = sync_net(prev.0, prev.1, j - 1);
        assert(same_shape(prev.1, r.1));
        lemma_shape_trans(nets, prev.1, r.1);
    }
}

proof fn lemma_propagate_shape(
    comps: Seq<(u64, NodeView)>,
    nets: Seq<(u64, NetView)>,
    queue: Seq<u64>,
    id: u64,
    changes: Seq<(usize, crate::signal::Signal)>,
    k: int,
)
    ensures
        same_shape(nets, propagate_all(comps, nets, queue, id, changes, k).1),
    decreases k,
{
    if k <= 0 || k > changes.len() {
        assert(same_shape(nets, nets));
    } else {
        lemma_propagate_shape(comps, nets, queue, id, changes, k - 1);
        let prev = propagate_all(comps, nets, queue, id, changes, k - 1);
        let r = propagate_change(prev.0, prev.1, prev.2, id, changes[k - 1]);
        assert(same_shape(prev.1, r.1));
        lemma_shape_trans(nets, prev.1, r.1);
    }
}

proof fn lemma_loop_shape(
    comps: Seq<(u64, NodeView)>,
    nets: Seq<(u64, NetView)>,
    queue: Seq<u64>,
    count: int,
    max: int,
    lib: Seq<(String, SubcircuitDef)>,
)
    ensures
        same_shape(nets, spec_settle_loop(comps, nets, queue, count, max, lib).1),
    decreases max + 1 - count,
{
    if queue.len() == 0 || count < 0 {
        assert(same_shape(nets, nets));
    } else if count + 1 > max {
        assert(same_shape(nets, all_nets_x(nets)));
    } else {
        let id = queue[0];
        let q1 = queue.drop_first();
        match slot_get(comps, id) {
            Some(n) => {
                let r = spec_eval(n, lib);
                let changes = changed_outputs(n.output_signals, r.0, r.0.len() as int);
                let comps2 = slot_set(
                    comps,
                    id,
                    NodeView { output_signals: merge_outputs(n.output_signals, r.0), ..r.1 },
                );
                lemma_propagate_shape(comps2, nets, q1, id, changes, changes.len() as int);
                let p = propagate_all(comps2, nets, q1, id, changes, changes.len() as int);
                lemma_loop_shape(p.0, p.1, p.2, count + 1, max, lib);
                lemma_shape_trans(nets, p.1, spec_settle_loop(p.0, p.1, p.2, count + 1, max, lib).1);
            },
            None => {
                lemma_loop_shape(comps, nets, q1, count + 1, max, lib);
            },
        }
    }
}

/// Settling changes only the nets' signals, so it keeps them and their
/// sinks well formed.
pub proof fn lemma_settle_keeps_wf(comps: Seq<(u64, NodeView)>, nets: Seq<(u64, NetView)>, lib: Seq<(String, SubcircuitDef)>)
    ensures
        nets_wf(nets) ==> nets_wf(spec_settle(comps, nets, lib).1),
        sinks_wf(nets) ==> sinks_wf(spec_settle(comps, nets, lib).1),
{
    let c1 = spec_phase1(comps, lib, 0);
    let p2 = spec_phase2(c1, nets, nets.len() as int);
    lemma_phase2_shape(c1, nets, nets.len() as int);
    lemma_loop_shape(p2.0, p2.1, slot_keys(comps), 0, settle_budget(comps.len()), lib);
    lemma_shape_trans(nets, p2.1, spec_settle(comps, nets, lib).1);
    if nets_wf(nets) {
        lemma_shape_wf(nets, spec_settle(comps, nets, lib).1);
    }
    if sinks_wf(nets) {
        lemma_shape_sinks_wf(nets, spec_settle(comps, nets, lib).1);
    }
}

// ------------------------------------------------------------------
// Sinks
// ------------------------------------------------------------------

/// The level at input `port` of component `k`, when both exist.
pub open spec fn in_at(comps: Seq<(u64, NodeView)>, k: u64, port: int) -> Option<crate::signal::Signal> {
    match slot_get(comps, k) {
        Some(n) => if 0 <= port < n.input_signals.len() { Some(n.input_signals[port]) } else { None },
        None => None,
    }
}

/// Input port `p` holds `sig`, when it exists.
pub open spec fn sink_holds(comps: Seq<(u64, NodeView)>, p: crate::graph::PortEndpoint, sig: crate::signal::Signal) -> bool {
    in_at(comps, p.component_id@, p.port_index as int) matches Some(v) ==> v == sig
}

/// One of the first `k` sinks is input `port` of component `key`.
pub open spec fn listed(sinks: Seq<crate::graph::PortEndpoint>, k: int, key: u64, port: int) -> bool {
    exists|x: int| 0 <= x < k && (#[trigger] sinks[x]).component_id@ == key && sinks[x].port_index as int == port
}

/// The first `k` sinks driven to `sig`: those inputs (that exist) now hold
/// `sig`, every other input is unchanged.
pub open spec fn driven(before: Seq<(u64, NodeView)>, after: Seq<(u64, NodeView)>, sinks: Seq<crate::graph::PortEndpoint>, k: int, sig: crate::signal::Signal) -> bool {
    forall|key: u64, port: int| #[trigger] in_at(after, key, port) == if listed(sinks, k, key, port) && in_at(before, key, port) is Some {
        Some(sig)
    } else {
        in_at(before, key, port)
    }
}

proof fn lemma_set_input(c: Seq<(u64, NodeView)>, id: u64, n: NodeView, port: int, sig: crate::signal::Signal)
    requires
        slot_keys(c).no_duplicates(),
        slot_get(c, id) == Some(n),
        0 <= port < n.input_signals.len(),
    ensures
        forall|key: u64, p2: int| #[trigger] in_at(slot_set(c, id, NodeView { input_signals: n.input_signals.update(port, sig), ..n }), key, p2)
            == if key == id && p2 == port { Some(sig) } else { in_at(c, key, p2) },
{
    let v = NodeView { input_signals: n.input_signals.update(port, sig), ..n };
    assert forall|key: u64, p2: int| #[trigger] in_at(slot_set(c, id, v), key, p2) == if key == id && p2 == port { Some(sig) } else { in_at(c, key, p2) } by {
        crate::slots::lemma_slot_set_get(c, id, v, key);
    }
}

proof fn lemma_drive_sinks_in(c: Seq<(u64, NodeView)>, sinks: Seq<crate::graph::PortEndpoint>, sig: crate::signal::Signal, k: int)
    requires
        slot_keys(c).no_duplicates(),
        0 <= k <= sinks.len(),
    ensures
        driven(c, drive_sinks(c, sinks, sig, k), sinks, k, sig),
    decreases k,
{
    if k == 0 {
    } else {
        lemma_drive_sinks_in(c, sinks, sig, k - 1);
        let prev = drive_sinks(c, sinks, sig, k - 1);
        lemma_drive_sinks(c, sinks, sig, k - 1);
        lemma_same_outs_keys(c, prev);
        let sk = sinks[k - 1];
        let id = sk.component_id@;
        let r = drive_sink(prev, sk, sig);
        match slot_get(prev, id) {
            Some(n) => {
                if sk.port_index < n.input_signals.len() {
                    lemma_set_input(prev, id, n, sk.port_index as int, sig);
                }
            },
            None => {},
        }
        assert forall|key: u64, port: int| #[trigger] in_at(r, key, port) == if listed(sinks, k, key, port) && in_at(c, key, port) is Some {
            Some(sig)
        } else {
            in_at(c, key, port)
        } by {
            assert(in_at(prev, key, port) == if listed(sinks, k - 1, key, port) && in_at(c, key, port) is Some { Some(sig) } else { in_at(c, key, port) });
            if listed(sinks, k - 1, key, port) {
                let x = choose|x: int| 0 <= x < k - 1 && (#[trigger] sinks[x]).component_id@ == key && sinks[x].port_index as int == port;
                assert(0 <= x < k && sinks[x].component_id@ == key && sinks[x].port_index as int == port);
            }
            if key == id && port == sk.port_index as int {
                assert(sinks[k - 1].component_id@ == key && sinks[k - 1].port_index as int == port);
            } else if listed(sinks, k, key, port) {
                let x = choose|x: int| 0 <= x < k && (#[trigger] sinks[x]).component_id@ == key && sinks[x].port_index as int == port;
                assert(x != k - 1);
            }
        }
    }
}

proof fn lemma_push_sinks_in(
    c: Seq<(u64, NodeView)>,
    q: Seq<u64>,
    sinks: Seq<crate::graph::PortEndpoint>,
    sig: crate::signal::Signal,
    k: int,
)
    requires
        slot_keys(c).no_duplicates(),
        0 <= k <= sinks.len(),
    ensures
        driven(c, push_sinks(c, q, sinks, sig, k).0, sinks, k, sig),
    decreases k,
{
    if k == 0 {
    } else {
        lemma_push_sinks_in(c, q, sinks, sig, k - 1);
        let prev = push_sinks(c, q, sinks, sig, k - 1).0;
        lemma_push_sinks(c, q, sinks, sig, k - 1);
        lemma_same_outs_keys(c, prev);
        let sk = sinks[k - 1];
        let id = sk.component_id@;
        let r = push_sinks(c, q, sinks, sig, k).0;
        match slot_get(prev, id) {
            Some(n) => {
                if sk.port_index < n.input_signals.len() && n.input_signals[sk.port_index as int] != sig {
                    lemma_set_input(prev, id, n, sk.port_index as int, sig);
                }
            },
            None => {},
        }
        assert forall|key: u64, port: int| #[trigger] in_at(r, key, port) == if listed(sinks, k, key, port) && in_at(c, key, port) is Some {
            Some(sig)
        } else {
            in_at(c, key, port)
        } by {
            assert(in_at(prev, key, port) == if listed(sinks, k - 1, key, port) && in_at(c, key, port) is Some { Some(sig) } else { in_at(c, key, port) });
            if listed(sinks, k - 1, key, port) {
                let x = choose|x: int| 0 <= x < k - 1 && (#[trigger] sinks[x]).component_id@ == key && sinks[x].port_index as int == port;
                assert(0 <= x < k && sinks[x].component_id@ == key && sinks[x].port_index as int == port);
            }
            if key == id && port == sk.port_index as int {
                assert(sinks[k - 1].component_id@ == key && sinks[k - 1].port_index as int == port);
            } else if listed(sinks, k, key, port) {
                let x = choose|x: int| 0 <= x < k && (#[trigger] sinks[x]).component_id@ == key && sinks[x].port_index as int == port;
                assert(x != k - 1);
            }
        }
    }
}

/// Every sink is an input port, and no input port is a sink of two nets.
pub open spec fn sinks_wf(nets: Seq<(u64, NetView)>) -> bool {
    &&& forall|j: int, x: int| 0 <= j < nets.len() && 0 <= x < nets[j].1.sinks.len() ==> !(#[trigger] nets[j].1.sinks[x]).is_output
    &&& forall|j: int, k: int, p: crate::graph::PortEndpoint|
        0 <= j < nets.len() && 0 <= k < nets.len() && j != k && (#[trigger] nets[j].1.sinks.contains(p)) ==> !(#[trigger] nets[k].1.sinks.contains(p))
}

/// The net carries its source's output and its sinks hold it, when the
/// source component and port exist.
pub open spec fn net_settled(comps: Seq<(u64, NodeView)>, net: NetView) -> bool {
    match slot_get(comps, net.source.component_id@) {
        Some(src) => net.source.port_index < src.output_signals.len() ==> {
            &&& net.current_signal == src.output_signals[net.source.port_index as int]
            &&& forall|x: int| 0 <= x < net.sinks.len() ==> sink_holds(comps, #[trigger] net.sinks[x], net.current_signal)
        },
        None => true,
    }
}

pub open spec fn nets_settled(comps: Seq<(u64, NodeView)>, nets: Seq<(u64, NetView)>) -> bool {
    forall|j: int| 0 <= j < nets.len() ==> net_settled(comps, #[trigger] nets[j].1)
}

/// Two input endpoints at the same component and port are the same.
proof fn lemma_same_input(p: crate::graph::PortEndpoint, q: crate::graph::PortEndpoint)
    requires
        !p.is_output,
        !q.is_output,
        p.component_id@ == q.component_id@,
        p.port_index == q.port_index,
    ensures
        p == q,
{
    crate::graph::lemma_component_id_eq(p.component_id, q.component_id);
}

/// Driving the sinks of one net leaves the sinks of every other net as
/// they were.
proof fn lemma_other_sinks_untouched(
    nets: Seq<(u64, NetView)>,
    i: int,
    j: int,
    x: int,
    before: Seq<(u64, NodeView)>,
    after: Seq<(u64, NodeView)>,
    sig: crate::signal::Signal,
)
    requires
        sinks_wf(nets),
        0 <= i < nets.len(),
        0 <= j < nets.len(),
        i != j,
        0 <= x < nets[j].1.sinks.len(),
        driven(before, after, nets[i].1.sinks, nets[i].1.sinks.len() as int, sig),
    ensures
        in_at(after, nets[j].1.sinks[x].component_id@, nets[j].1.sinks[x].port_index as int)
            == in_at(before, nets[j].1.sinks[x].component_id@, nets[j].1.sinks[x].port_index as int),
{
    let p = nets[j].1.sinks[x];
    let si = nets[i].1.sinks;
    if listed(si, si.len() as int, p.component_id@, p.port_index as int) {
        let y = choose|y: int| 0 <= y < si.len() && (#[trigger] si[y]).component_id@ == p.component_id@ && si[y].port_index as int == p.port_index as int;
        assert(!si[y].is_output);
        assert(!p.is_output);
        lemma_same_input(si[y], p);
        assert(nets[j].1.sinks.contains(p));
        assert(nets[i].1.sinks.contains(p));
    }
}

proof fn lemma_shape_sinks_wf(a: Seq<(u64, NetView)>, b: Seq<(u64, NetView)>)
    requires
        same_shape(a, b),
        sinks_wf(a),
    ensures
        sinks_wf(b),
{
    assert forall|j: int, x: int| 0 <= j < b.len() && 0 <= x < b[j].1.sinks.len() implies !(#[trigger] b[j].1.sinks[x]).is_output by {
        assert(a[j].1.sinks == b[j].1.sinks);
    }
    assert forall|j: int, k: int, p: crate::graph::PortEndpoint|
        0 <= j < b.len() && 0 <= k < b.len() && j != k && (#[trigger] b[j].1.sinks.contains(p)) implies !(#[trigger] b[k].1.sinks.contains(p)) by {
        assert(a[j].1.sinks == b[j].1.sinks);
        assert(a[k].1.sinks == b[k].1.sinks);
    }
}

proof fn lemma_settled_transfer(a: Seq<(u64, NodeView)>, b: Seq<(u64, NodeView)>, net: NetView)
    requires
        same_outs(a, b),
        slot_keys(a).no_duplicates(),
        net_settled(a, net),
        forall|x: int| 0 <= x < net.sinks.len() ==> in_at(b, (#[trigger] net.sinks[x]).component_id@, net.sinks[x].port_index as int)
            == in_at(a, net.sinks[x].component_id@, net.sinks[x].port_index as int),
    ensures
        net_settled(b, net),
{
    lemma_same_outs_get(a, b, net.source.component_id@);
    assert forall|x: int| 0 <= x < net.sinks.len() && sink_holds(a, #[trigger] net.sinks[x], net.current_signal) implies sink_holds(
        b,
        net.sinks[x],
        net.current_signal,
    ) by {
    }
}

/// Synchronising the first `j` nets settles each of them.
proof fn lemma_phase2_settled(comps: Seq<(u64, NodeView)>, nets: Seq<(u64, NetView)>, j: int)
    requires
        slot_keys(comps).no_duplicates(),
        sinks_wf(nets),
        0 <= j <= nets.len(),
    ensures
        forall|m: int| 0 <= m < j ==> net_settled(spec_phase2(comps, nets, j).0, #[trigger] spec_phase2(comps, nets, j).1[m].1),
    decreases j,
{
    if j > 0 {
        lemma_phase2_settled(comps, nets, j - 1);
        lemma_phase2(comps, nets, j - 1);
        let prev = spec_phase2(comps, nets, j - 1);
        lemma_same_outs_keys(comps, prev.0);
        lemma_shape_sinks_wf(nets, prev.1);
        let net = prev.1[j - 1].1;
        let r = sync_net(prev.0, prev.1, j - 1);
        assert(r == spec_phase2(comps, nets, j));
        match slot_get(prev.0, net.source.component_id@) {
            Some(src) => {
                if net.source.port_index < src.output_signals.len() {
                    let sig = src.output_signals[net.source.port_index as int];
                    lemma_drive_sinks(prev.0, net.sinks, sig, net.sinks.len() as int);
                    lemma_drive_sinks_in(prev.0, net.sinks, sig, net.sinks.len() as int);
                    lemma_same_outs_get(prev.0, r.0, net.source.component_id@);
                    assert forall|x: int| 0 <= x < net.sinks.len() implies sink_holds(r.0, #[trigger] net.sinks[x], sig) by {
                        assert(listed(net.sinks, net.sinks.len() as int, net.sinks[x].component_id@, net.sinks[x].port_index as int));
                    }
                    assert(net_settled(r.0, r.1[j - 1].1));
                    assert forall|m: int| 0 <= m < j implies net_settled(r.0, #[trigger] r.1[m].1) by {
                        if m < j - 1 {
                            assert(r.1[m] == prev.1[m]);
                            assert forall|x: int| 0 <= x < prev.1[m].1.sinks.len() implies in_at(r.0, (#[trigger] prev.1[m].1.sinks[x]).component_id@, prev.1[m].1.sinks[x].port_index as int)
                                == in_at(prev.0, prev.1[m].1.sinks[x].component_id@, prev.1[m].1.sinks[x].port_index as int) by {
                                lemma_other_sinks_untouched(prev.1, j - 1, m, x, prev.0, r.0, sig);
                            }
                            lemma_settled_transfer(prev.0, r.0, prev.1[m].1);
                        }
                    }
                } else {
                    assert(net_settled(prev.0, r.1[j - 1].1));
                }
            },
            None => {
                assert(net_settled(prev.0, r.1[j - 1].1));
            },
        }
    }
}

/// Carrying the first `k` changes of `id` drives the sinks of each net it
/// reaches to that change's value and leaves the sinks of the other nets
/// as they were.
proof fn lemma_propagate_inputs(
    comps: Seq<(u64, NodeView)>,
    nets: Seq<(u64, NetView)>,
    queue: Seq<u64>,
    id: u64,
    changes: Seq<(usize, crate::signal::Signal)>,
    k: int,
)
    requires
        slot_keys(comps).no_duplicates(),
        nets_wf(nets),
        sinks_wf(nets),
        forall|a: int, b: int| 0 <= a < b < changes.len() ==> (#[trigger] changes[a]).0 != (#[trigger] changes[b]).0,
        0 <= k <= changes.len(),
    ensures
        forall|j: int, m: int, x: int|
            0 <= j < nets.len() && 0 <= m < k && hits(#[trigger] changes[m], nets[j].1, id) && 0 <= x < nets[j].1.sinks.len() ==>
                sink_holds(propagate_all(comps, nets, queue, id, changes, k).0, #[trigger] nets[j].1.sinks[x], changes[m].1),
        forall|j: int, x: int|
            0 <= j < nets.len() && (forall|m: int| 0 <= m < k ==> !hits(#[trigger] changes[m], nets[j].1, id)) && 0 <= x < nets[j].1.sinks.len() ==>
                in_at(propagate_all(comps, nets, queue, id, changes, k).0, (#[trigger] nets[j].1.sinks[x]).component_id@, nets[j].1.sinks[x].port_index as int)
                    == in_at(comps, nets[j].1.sinks[x].component_id@, nets[j].1.sinks[x].port_index as int),
    decreases k,
{
    if k > 0 {
        lemma_propagate_inputs(comps, nets, queue, id, changes, k - 1);
        lemma_propagate_all(comps, nets, queue, id, changes, k - 1);
        let prev = propagate_all(comps, nets, queue, id, changes, k - 1);
        let ch = changes[k - 1];
        let r = propagate_change(prev.0, prev.1, prev.2, id, ch);
        assert(r == propagate_all(comps, nets, queue, id, changes, k));
        lemma_shape_wf(nets, prev.1);
        lemma_shape_sinks_wf(nets, prev.1);
        lemma_same_outs_keys(comps, prev.0);
        if exists|i: int| first_source(prev.1, i, id, ch.0 as int) {
            let i = choose|i: int| first_source(prev.1, i, id, ch.0 as int);
            let net = prev.1[i].1;
            assert(net.sinks == nets[i].1.sinks);
            lemma_push_sinks_in(prev.0, prev.2, net.sinks, ch.1, net.sinks.len() as int);
            assert(nets[i].1.source == net.source);
            assert forall|j: int, m: int, x: int|
                0 <= j < nets.len() && 0 <= m < k && hits(#[trigger] changes[m], nets[j].1, id) && 0 <= x < nets[j].1.sinks.len() implies
                sink_holds(r.0, #[trigger] nets[j].1.sinks[x], changes[m].1) by {
                assert(nets[j].1.source == prev.1[j].1.source);
                assert(nets[j].1.sinks == prev.1[j].1.sinks);
                let sk = nets[j].1.sinks[x];
                if m == k - 1 {
                    lemma_same_port(prev.1, i, j, id, ch.0 as int);
                    assert(listed(net.sinks, net.sinks.len() as int, sk.component_id@, sk.port_index as int));
                } else if j == i {
                    assert(changes[m].0 as int == ch.0 as int);
                    assert(changes[m].0 != changes[k - 1].0);
                } else {
                    lemma_other_sinks_untouched(prev.1, i, j, x, prev.0, r.0, ch.1);
                }
            }
            assert forall|j: int, x: int|
                0 <= j < nets.len() && (forall|m: int| 0 <= m < k ==> !hits(#[trigger] changes[m], nets[j].1, id)) && 0 <= x < nets[j].1.sinks.len() implies
                in_at(r.0, (#[trigger] nets[j].1.sinks[x]).component_id@, nets[j].1.sinks[x].port_index as int)
                    == in_at(comps, nets[j].1.sinks[x].component_id@, nets[j].1.sinks[x].port_index as int) by {
                assert(nets[j].1.sinks == prev.1[j].1.sinks);
                if j == i {
                    assert(hits(changes[k - 1], nets[j].1, id));
                }
                assert(forall|m: int| 0 <= m < k - 1 ==> !hits(#[trigger] changes[m], nets[j].1, id));
                lemma_other_sinks_untouched(prev.1, i, j, x, prev.0, r.0, ch.1);
            }
        } else {
            assert forall|j: int| 0 <= j < prev.1.len() implies !is_source(#[trigger] prev.1[j].1, id, ch.0 as int) by {
                if is_source(prev.1[j].1, id, ch.0 as int) {
                    assert forall|jj: int| 0 <= jj < j implies !is_source(#[trigger] prev.1[jj].1, id, ch.0 as int) by {
                        if is_source(prev.1[jj].1, id, ch.0 as int) {
                            lemma_same_port(prev.1, jj, j, id, ch.0 as int);
                        }
                    }
                    assert(first_source(prev.1, j, id, ch.0 as int));
                }
            }
            assert forall|j: int, m: int, x: int|
                0 <= j < nets.len() && 0 <= m < k && hits(#[trigger] changes[m], nets[j].1, id) && 0 <= x < nets[j].1.sinks.len() implies
                sink_holds(r.0, #[trigger] nets[j].1.sinks[x], changes[m].1) by {
                assert(nets[j].1.source == prev.1[j].1.source);
                if m == k - 1 {
                    assert(is_source(prev.1[j].1, id, ch.0 as int));
                }
            }
            assert forall|j: int, x: int|
                0 <= j < nets.len() && (forall|m: int| 0 <= m < k ==> !hits(#[trigger] changes[m], nets[j].1, id)) && 0 <= x < nets[j].1.sinks.len() implies
                in_at(r.0, (#[trigger] nets[j].1.sinks[x]).component_id@, nets[j].1.sinks[x].port_index as int)
                    == in_at(comps, nets[j].1.sinks[x].component_id@, nets[j].1.sinks[x].port_index as int) by {
                assert(forall|m: int| 0 <= m < k - 1 ==> !hits(#[trigger] changes[m], nets[j].1, id));
            }
        }
    }
}

/// Settling's work list empties before its step budget runs out.
pub open spec fn loop_finishes(
    comps: Seq<(u64, NodeView)>,
    nets: Seq<(u64, NetView)>,
    queue: Seq<u64>,
    count: int,
    max: int,
    lib: Seq<(String, SubcircuitDef)>,
) -> bool
    decreases max + 1 - count,
{
    if queue.len() == 0 || count < 0 {
        true
    } else if count + 1 > max {
        false
    } else {
        let id = queue[0];
        let q1 = queue.drop_first();
        match slot_get(comps, id) {
            Some(n) => {
                let r = spec_eval(n, lib);
                let changes = changed_outputs(n.output_signals, r.0, r.0.len() as int);
                let comps2 = slot_set(comps, id, NodeView { output_signals: merge_outputs(n.output_signals, r.0), ..r.1 });
                let p = propagate_all(comps2, nets, q1, id, changes, changes.len() as int);
                loop_finishes(p.0, p.1, p.2, count + 1, max, lib)
            },
            None => loop_finishes(comps, nets, q1, count + 1, max, lib),
        }
    }
}

/// Settling ends because nothing is left to re-evaluate, not because the
/// step budget ran out.
pub open spec fn settle_finishes(comps: Seq<(u64, NodeView)>, nets: Seq<(u64, NetView)>, lib: Seq<(String, SubcircuitDef)>) -> bool {
    let c1 = spec_phase1(comps, lib, 0);
    let p2 = spec_phase2(c1, nets, nets.len() as int);
    loop_finishes(p2.0, p2.1, slot_keys(comps), 0, settle_budget(comps.len()), lib)
}

#[verifier::rlimit(80)]
proof fn lemma_settle_loop_settled(
    comps: Seq<(u64, NodeView)>,
    nets: Seq<(u64, NetView)>,
    queue: Seq<u64>,
    count: int,
    max: int,
    lib: Seq<(String, SubcircuitDef)>,
)
    requires
        lib_small(lib),
        slot_keys(comps).no_duplicates(),
        plain_nodes(comps),
        nets_wf(nets),
        sinks_wf(nets),
        nets_settled(comps, nets),
        loop_finishes(comps, nets, queue, count, max, lib),
    ensures
        nets_settled(
            spec_settle_loop(comps, nets, queue, count, max, lib).0,
            spec_settle_loop(comps, nets, queue, count, max, lib).1,
        ),
    decreases max + 1 - count,
{
    if queue.len() == 0 || count < 0 {
    } else {
        let id = queue[0];
        let q1 = queue.drop_first();
        match slot_get(comps, id) {
            Some(n) => {
                let i0 = slot_pos(comps, id);
                assert(n == comps[i0].1);
                assert(plain_node(comps[i0].1));
                lemma_eval_len(n, lib);
                crate::sim::lemma_eval_keeps(n, lib);
                let r = spec_eval(n, lib);
                let changes = changed_outputs(n.output_signals, r.0, r.0.len() as int);
                lemma_changed_outputs(n.output_signals, r.0, r.0.len() as int);
                let mo = merge_outputs(n.output_signals, r.0);
                let v = NodeView { output_signals: mo, ..r.1 };
                assert(v.input_signals == n.input_signals);
                let comps2 = slot_set(comps, id, v);
                lemma_slot_set_keys(comps, id, v);
                assert forall|i: int| 0 <= i < comps2.len() implies plain_node(#[trigger] comps2[i].1) by {
                    if comps[i].0 != id {
                        assert(comps2[i] == comps[i]);
                    }
                }
                assert forall|key: u64, port: int| #[trigger] in_at(comps2, key, port) == in_at(comps, key, port) by {
                    lemma_slot_set_get(comps, id, v, key);
                }
                assert forall|a: int, b: int| 0 <= a < b < changes.len() implies (#[trigger] changes[a]).0
                    != (#[trigger] changes[b]).0 by {
                }
                lemma_propagate_all(comps2, nets, q1, id, changes, changes.len() as int);
                lemma_propagate_inputs(comps2, nets, q1, id, changes, changes.len() as int);
                let p = propagate_all(comps2, nets, q1, id, changes, changes.len() as int);
                lemma_same_outs_keys(comps2, p.0);
                lemma_shape_wf(nets, p.1);
                lemma_shape_sinks_wf(nets, p.1);
                assert forall|j: int| 0 <= j < p.1.len() implies net_settled(p.0, #[trigger] p.1[j].1) by {
                    let src = nets[j].1.source;
                    assert(p.1[j].1.source == src);
                    assert(p.1[j].1.sinks == nets[j].1.sinks);
                    let k = src.component_id@;
                    lemma_slot_set_get(comps, id, v, k);
                    lemma_same_outs_get(comps2, p.0, k);
                    assert(net_settled(comps, nets[j].1));
                    let pp = src.port_index as int;
                    if exists|m: int| 0 <= m < changes.len() && hits(#[trigger] changes[m], nets[j].1, id) {
                        let m = choose|m: int| 0 <= m < changes.len() && hits(#[trigger] changes[m], nets[j].1, id);
                        assert(p.1[j].1.current_signal == changes[m].1);
                        assert(changes[m].0 as int == pp);
                        assert(slot_get(comps2, id) == Some(v));
                        assert forall|x: int| 0 <= x < p.1[j].1.sinks.len() implies sink_holds(p.0, #[trigger] p.1[j].1.sinks[x], p.1[j].1.current_signal) by {
                            assert(sink_holds(p.0, nets[j].1.sinks[x], changes[m].1));
                        }
                    } else {
                        assert(p.1[j] == nets[j]);
                        assert forall|x: int| 0 <= x < nets[j].1.sinks.len() implies in_at(p.0, (#[trigger] nets[j].1.sinks[x]).component_id@, nets[j].1.sinks[x].port_index as int)
                            == in_at(comps, nets[j].1.sinks[x].component_id@, nets[j].1.sinks[x].port_index as int) by {
                            assert(in_at(comps2, nets[j].1.sinks[x].component_id@, nets[j].1.sinks[x].port_index as int)
                                == in_at(comps, nets[j].1.sinks[x].component_id@, nets[j].1.sinks[x].port_index as int));
                        }
                        if k == id {
                            assert(slot_get(comps2, id) == Some(v));
                            if pp < mo.len() && pp < r.0.len() && changed_at(n.output_signals, r.0, pp) {
                                let m = choose|m: int| 0 <= m < changes.len() && (#[trigger] changes[m]).0 as int == pp;
                                assert(nets[j].1.source.is_output);
                                assert(hits(changes[m], nets[j].1, id));
                            }
                        }
                        assert forall|x: int|
                            0 <= x < nets[j].1.sinks.len() && sink_holds(comps, #[trigger] nets[j].1.sinks[x], nets[j].1.current_signal)
                            implies sink_holds(p.0, nets[j].1.sinks[x], nets[j].1.current_signal) by {
                        }
                    }
                }
                lemma_settle_loop_settled(p.0, p.1, p.2, count + 1, max, lib);
            },
            None => {
                lemma_settle_loop_settled(comps, nets, q1, count + 1, max, lib);
            },
        }
    }
}


// ------------------------------------------------------------------
// Operations keep the sinks well formed
// ------------------------------------------------------------------

/// Pruning sink lists keeps the sinks well formed.
pub proof fn lemma_sinks_wf_prune(nets: Seq<(u64, NetView)>, f: crate::graph::SinkPrune)
    requires
        sinks_wf(nets),
    ensures
        sinks_wf(crate::graph::prune_all(nets, f)),
{
    let t = crate::graph::prune_all(nets, f);
    let keep = |s: crate::graph::PortEndpoint| crate::graph::sink_kept(f, s);
    assert forall|j: int, x: int| 0 <= j < t.len() && 0 <= x < t[j].1.sinks.len() implies !(#[trigger] t[j].1.sinks[x]).is_output by {
        assert(t[j].1.sinks == nets[j].1.sinks.filter(keep));
        assert(t[j].1.sinks.contains(t[j].1.sinks[x]));
        nets[j].1.sinks.lemma_filter_contains_rev(keep, t[j].1.sinks[x]);
        let y = choose|y: int| 0 <= y < nets[j].1.sinks.len() && nets[j].1.sinks[y] == t[j].1.sinks[x];
        assert(!nets[j].1.sinks[y].is_output);
    }
    assert forall|j: int, k: int, p: crate::graph::PortEndpoint|
        0 <= j < t.len() && 0 <= k < t.len() && j != k && (#[trigger] t[j].1.sinks.contains(p)) implies !(#[trigger] t[k].1.sinks.contains(p)) by {
        assert(t[j].1.sinks == nets[j].1.sinks.filter(keep));
        assert(t[k].1.sinks == nets[k].1.sinks.filter(keep));
        nets[j].1.sinks.lemma_filter_contains_rev(keep, p);
        if t[k].1.sinks.contains(p) {
            nets[k].1.sinks.lemma_filter_contains_rev(keep, p);
        }
    }
}

proof fn lemma_sinks_wf_filter_take(nets: Seq<(u64, NetView)>, p: spec_fn((u64, NetView)) -> bool, i: int)
    requires
        sinks_wf(nets),
        0 <= i <= nets.len(),
    ensures
        sinks_wf(nets.take(i).filter(p)),
        forall|x: int| 0 <= x < nets.take(i).filter(p).len() ==> exists|m: int|
            0 <= m < i && #[trigger] nets.take(i).filter(p)[x] == nets[m],
    decreases i,
{
    if i == 0 {
        assert(nets.take(0) =~= Seq::<(u64, NetView)>::empty());
        assert(nets.take(0).filter(p) =~= Seq::<(u64, NetView)>::empty()) by {
            reveal(Seq::filter);
        }
    } else {
        let k = i - 1;
        lemma_sinks_wf_filter_take(nets, p, k);
        crate::seqs::lemma_filter_take_step(nets, p, k);
        let prev = nets.take(k).filter(p);
        let next = nets.take(i).filter(p);
        if p(nets[k]) {
            assert(next == prev.push(nets[k]));
            assert forall|x: int| 0 <= x < next.len() implies exists|m: int| 0 <= m < i && #[trigger] next[x] == nets[m] by {
                if x < prev.len() {
                    assert(next[x] == prev[x]);
                    let m = choose|m: int| 0 <= m < k && #[trigger] prev[x] == nets[m];
                } else {
                    assert(next[x] == nets[k]);
                }
            }
            assert forall|j: int, x: int| 0 <= j < next.len() && 0 <= x < next[j].1.sinks.len() implies !(#[trigger] next[j].1.sinks[x]).is_output by {
                if j < prev.len() {
                    assert(next[j] == prev[j]);
                }
            }
            assert forall|a: int, b: int, q: crate::graph::PortEndpoint|
                0 <= a < next.len() && 0 <= b < next.len() && a != b && (#[trigger] next[a].1.sinks.contains(q)) implies !(#[trigger] next[b].1.sinks.contains(q)) by {
                if a < prev.len() && b < prev.len() {
                    assert(next[a] == prev[a] && next[b] == prev[b]);
                    assert(prev[a].1.sinks.contains(q));
                    if prev[b].1.sinks.contains(q) {
                        assert(false);
                    }
                } else if a < prev.len() {
                    let m = choose|m: int| 0 <= m < k && #[trigger] prev[a] == nets[m];
                    assert(next[a] == nets[m] && next[b] == nets[k]);
                    assert(nets[m].1.sinks.contains(q));
                    if nets[k].1.sinks.contains(q) {
                        assert(false);
                    }
                } else {
                    let m = choose|m: int| 0 <= m < k && #[trigger] prev[b] == nets[m];
                    assert(next[b] == nets[m] && next[a] == nets[k]);
                    assert(nets[k].1.sinks.contains(q));
                    if nets[m].1.sinks.contains(q) {
                        assert(false);
                    }
                }
            }
        } else {
            assert(next == prev);
            assert forall|x: int| 0 <= x < next.len() implies exists|m: int| 0 <= m < i && #[trigger] next[x] == nets[m] by {
                let m = choose|m: int| 0 <= m < k && #[trigger] prev[x] == nets[m];
            }
        }
    }
}

/// Dropping nets keeps the sinks well formed.
pub proof fn lemma_sinks_wf_filter(nets: Seq<(u64, NetView)>, p: spec_fn((u64, NetView)) -> bool)
    requires
        sinks_wf(nets),
    ensures
        sinks_wf(nets.filter(p)),
{
    lemma_sinks_wf_filter_take(nets, p, nets.len() as int);
    crate::seqs::lemma_take_full(nets);
}

/// Disconnecting a sink keeps the sinks well formed and leaves it in no
/// sink list.
pub proof fn lemma_sinks_wf_without_sink(nets: Seq<(u64, NetView)>, sink: crate::graph::PortEndpoint)
    requires
        sinks_wf(nets),
    ensures
        sinks_wf(crate::graph::spec_nets_without_sink(nets, sink)),
        forall|j: int| 0 <= j < crate::graph::spec_nets_without_sink(nets, sink).len() ==> !(#[trigger] crate::graph::spec_nets_without_sink(nets, sink)[j]).1.sinks.contains(sink),
{
    let f = crate::graph::SinkPrune::Exactly(sink);
    let pr = crate::graph::prune_all(nets, f);
    lemma_sinks_wf_prune(nets, f);
    let keep = |e: (u64, NetView)| !crate::graph::net_dropped(crate::graph::NetDrop::NoSinks, e.1);
    lemma_sinks_wf_filter(pr, keep);
    let r = pr.filter(keep);
    assert forall|j: int| 0 <= j < r.len() implies !(#[trigger] r[j]).1.sinks.contains(sink) by {
        assert(r.contains(r[j]));
        pr.lemma_filter_contains_rev(keep, r[j]);
        let m = choose|m: int| 0 <= m < pr.len() && pr[m] == r[j];
        let ks = |s: crate::graph::PortEndpoint| crate::graph::sink_kept(f, s);
        assert(pr[m].1.sinks == nets[m].1.sinks.filter(ks));
        nets[m].1.sinks.filter_lemma(ks);
        if pr[m].1.sinks.contains(sink) {
            let y = choose|y: int| 0 <= y < pr[m].1.sinks.len() && pr[m].1.sinks[y] == sink;
            assert(ks(pr[m].1.sinks[y]));
        }
    }
}

/// Removing a component, or shrinking its ports, keeps the sinks well
/// formed.
pub proof fn lemma_sinks_wf_other_ops(nets: Seq<(u64, NetView)>, id: crate::graph::ComponentId, count: usize)
    requires
        sinks_wf(nets),
    ensures
        sinks_wf(crate::graph::spec_nets_without_component(nets, id)),
        sinks_wf(crate::graph::spec_nets_pruned_inputs(nets, id, count)),
        sinks_wf(crate::graph::spec_nets_pruned_outputs(nets, id, count)),
{
    let d1 = crate::graph::drop_where(nets, crate::graph::NetDrop::SourceIs(id));
    lemma_sinks_wf_filter(nets, |e: (u64, NetView)| !crate::graph::net_dropped(crate::graph::NetDrop::SourceIs(id), e.1));
    let pr = crate::graph::prune_all(d1, crate::graph::SinkPrune::OfComponent(id));
    lemma_sinks_wf_prune(d1, crate::graph::SinkPrune::OfComponent(id));
    lemma_sinks_wf_filter(pr, |e: (u64, NetView)| !crate::graph::net_dropped(crate::graph::NetDrop::NoSinks, e.1));
    let pi = crate::graph::prune_all(nets, crate::graph::SinkPrune::InputsFrom(id, count));
    lemma_sinks_wf_prune(nets, crate::graph::SinkPrune::InputsFrom(id, count));
    lemma_sinks_wf_filter(pi, |e: (u64, NetView)| !crate::graph::net_dropped(crate::graph::NetDrop::NoSinks, e.1));
    lemma_sinks_wf_filter(nets, |e: (u64, NetView)| !crate::graph::net_dropped(crate::graph::NetDrop::SourcePortFrom(id, count), e.1));
}

/// Adding an input port that is in no sink list to one net keeps the sinks
/// well formed.
pub proof fn lemma_sinks_wf_join(nets: Seq<(u64, NetView)>, i: int, v: NetView, sink: crate::graph::PortEndpoint)
    requires
        sinks_wf(nets),
        slot_keys(nets).no_duplicates(),
        0 <= i < nets.len(),
        !sink.is_output,
        forall|j: int| 0 <= j < nets.len() ==> !(#[trigger] nets[j]).1.sinks.contains(sink),
        v.sinks == (if nets[i].1.sinks.contains(sink) { nets[i].1.sinks } else { nets[i].1.sinks.push(sink) }),
    ensures
        sinks_wf(slot_set(nets, nets[i].0, v)),
{
    let t = slot_set(nets, nets[i].0, v);
    assert forall|j: int| 0 <= j < nets.len() && j != i implies #[trigger] t[j] == nets[j] by {
        if nets[j].0 == nets[i].0 {
            assert(slot_keys(nets)[j] == slot_keys(nets)[i]);
        }
    }
    assert(t[i].1 == v);
    assert(v.sinks == nets[i].1.sinks.push(sink));
    assert forall|j: int, x: int| 0 <= j < t.len() && 0 <= x < t[j].1.sinks.len() implies !(#[trigger] t[j].1.sinks[x]).is_output by {
        if j == i && x == nets[i].1.sinks.len() {
        } else if j == i {
            assert(t[j].1.sinks[x] == nets[i].1.sinks[x]);
        }
    }
    assert forall|a: int, b: int, p: crate::graph::PortEndpoint|
        0 <= a < t.len() && 0 <= b < t.len() && a != b && (#[trigger] t[a].1.sinks.contains(p)) implies !(#[trigger] t[b].1.sinks.contains(p)) by {
        if a == i {
            if p != sink {
                let y = choose|y: int| 0 <= y < t[a].1.sinks.len() && t[a].1.sinks[y] == p;
                assert(y < nets[i].1.sinks.len());
                assert(nets[i].1.sinks[y] == p);
                assert(nets[i].1.sinks.contains(p));
            }
        } else if b == i {
            assert(t[a] == nets[a]);
            if t[b].1.sinks.contains(p) && p != sink {
                let y = choose|y: int| 0 <= y < t[b].1.sinks.len() && t[b].1.sinks[y] == p;
                assert(y < nets[i].1.sinks.len());
                assert(nets[i].1.sinks[y] == p);
                assert(nets[i].1.sinks.contains(p));
            }
        } else {
            assert(t[a] == nets[a] && t[b] == nets[b]);
        }
    }
}

/// Adding a net whose only sink is an input port in no sink list keeps the
/// sinks well formed.
pub proof fn lemma_sinks_wf_insert(nets: Seq<(u64, NetView)>, j: int, e: (u64, NetView), sink: crate::graph::PortEndpoint)
    requires
        sinks_wf(nets),
        0 <= j <= nets.len(),
        !sink.is_output,
        e.1.sinks == seq![sink],
        forall|i: int| 0 <= i < nets.len() ==> !(#[trigger] nets[i]).1.sinks.contains(sink),
    ensures
        sinks_wf(nets.insert(j, e)),
{
    let t = nets.insert(j, e);
    assert forall|a: int, x: int| 0 <= a < t.len() && 0 <= x < t[a].1.sinks.len() implies !(#[trigger] t[a].1.sinks[x]).is_output by {
        if a < j {
            assert(t[a] == nets[a]);
        } else if a > j {
            assert(t[a] == nets[a - 1]);
        }
    }
    assert forall|a: int, b: int, p: crate::graph::PortEndpoint|
        0 <= a < t.len() && 0 <= b < t.len() && a != b && (#[trigger] t[a].1.sinks.contains(p)) implies !(#[trigger] t[b].1.sinks.contains(p)) by {
        let ia = if a < j { a } else { a - 1 };
        let ib = if b < j { b } else { b - 1 };
        if a != j {
            assert(t[a] == nets[ia]);
        } else {
            assert(t[a].1.sinks[0] == sink);
        }
        if b != j {
            assert(t[b] == nets[ib]);
        } else {
            assert(t[b].1.sinks[0] == sink);
        }
    }
}

// ------------------------------------------------------------------
// Components
// ------------------------------------------------------------------

/// Re-evaluating the component changes neither its outputs nor its state.
pub open spec fn node_stable(n: NodeView, lib: Seq<(String, SubcircuitDef)>) -> bool {
    &&& spec_eval(n, lib).1 == n
    &&& merge_outputs(n.output_signals, spec_eval(n, lib).0) == n.output_signals
}

/// Evaluating again right after an evaluation gives the same outputs and
/// changes nothing more, whatever the outputs were set to.
#[verifier::rlimit(60)]
proof fn lemma_eval_idempotent(n: NodeView, lib: Seq<(String, SubcircuitDef)>, outs: Seq<crate::signal::Signal>)
    ensures
        spec_eval(NodeView { output_signals: outs, ..spec_eval(n, lib).1 }, lib)
            == (spec_eval(n, lib).0, NodeView { output_signals: outs, ..spec_eval(n, lib).1 }),
{
    match n.kind {
        GateKind::And => {},
        GateKind::Or => {},
        GateKind::Not => {},
        GateKind::Nand => {},
        GateKind::Nor => {},
        GateKind::Xor => {},
        GateKind::Xnor => {},
        GateKind::ToggleSwitch => {},
        GateKind::Led => {},
        GateKind::Clock => {},
        GateKind::BinaryDisplay4 => {},
        GateKind::HexDisplay => {},
        GateKind::SevenSegment => {},
        GateKind::HalfAdder => {},
        GateKind::FullAdder => {},
        GateKind::HalfSubtractor => {},
        GateKind::FullSubtractor => {},
        GateKind::RippleCarryAdder4 => {},
        GateKind::CarryLookaheadAdder4 => {},
        GateKind::SrLatch => {},
        GateKind::DLatch => {},
        GateKind::DFlipFlop => {},
        GateKind::JkFlipFlop => {},
        GateKind::TFlipFlop => {},
        GateKind::Register4 => {},
        GateKind::ShiftRegister4 => {},
        GateKind::Counter4 => {
            let n1 = crate::sim::eval_counter(n).1;
            assert(n1.memory.len() >= 1);
            if crate::sim::high_at(n.input_signals, 1) {
                assert(n1.memory.update(0, 0u8) =~= n1.memory);
            }
        },
        GateKind::ClockDivider => {
            let n1 = crate::sim::eval_divider(n).1;
            assert(n1.memory.len() >= 2);
            if crate::sim::high_at(n.input_signals, 1) {
                assert(n1.memory.update(0, 0u8).update(1, 0u8) =~= n1.memory);
            }
        },
        GateKind::Mux2 => {},
        GateKind::Mux4 => {},
        GateKind::Demux2 => {},
        GateKind::Demux4 => {},
        GateKind::Encoder4to2 => {},
        GateKind::Decoder2to4 => {},
        GateKind::Comparator2 => {},
        GateKind::Alu4 => {},
        GateKind::Rom16x4 => {},
        GateKind::Ram16x4 => {
            lemma_bits_value_lt(n.input_signals, 0, 4);
            reveal_with_fuel(crate::sim::weight, 5);
            let n1 = crate::sim::eval_ram(n).1;
            assert(n1.memory.len() >= 16);
        },
        GateKind::SubcircuitInstance(name) => {},
    }
}

proof fn lemma_push_sinks_queue(
    c: Seq<(u64, NodeView)>,
    q: Seq<u64>,
    sinks: Seq<crate::graph::PortEndpoint>,
    sig: crate::signal::Signal,
    k: int,
)
    requires
        slot_keys(c).no_duplicates(),
    ensures
        push_sinks(c, q, sinks, sig, k).0.len() == c.len(),
        forall|x: u64| q.contains(x) ==> #[trigger] push_sinks(c, q, sinks, sig, k).1.contains(x),
        forall|i: int| 0 <= i < c.len() ==> #[trigger] push_sinks(c, q, sinks, sig, k).0[i] == c[i]
            || push_sinks(c, q, sinks, sig, k).1.contains(c[i].0),
    decreases k,
{
    if k > 0 && k <= sinks.len() {
        lemma_push_sinks_queue(c, q, sinks, sig, k - 1);
        lemma_push_sinks(c, q, sinks, sig, k - 1);
        let prev = push_sinks(c, q, sinks, sig, k - 1);
        lemma_same_outs_keys(c, prev.0);
        let r = push_sinks(c, q, sinks, sig, k);
        let sk = sinks[k - 1];
        let id = sk.component_id@;
        match slot_get(prev.0, id) {
            Some(n) => {
                if sk.port_index < n.input_signals.len() && n.input_signals[sk.port_index as int] != sig {
                    if !prev.1.contains(id) {
                        assert(r.1 == prev.1.push(id));
                        assert(r.1[prev.1.len() as int] == id);
                    }
                    assert(r.1.contains(id));
                    assert forall|x: u64| prev.1.contains(x) implies #[trigger] r.1.contains(x) by {
                        if !prev.1.contains(id) {
                            let y = choose|y: int| 0 <= y < prev.1.len() && prev.1[y] == x;
                            assert(r.1[y] == x);
                        }
                    }
                    assert forall|i: int| 0 <= i < c.len() implies #[trigger] r.0[i] == c[i] || r.1.contains(c[i].0) by {
                        assert(prev.0[i].0 == c[i].0);
                        if prev.1.contains(c[i].0) {
                        }
                    }
                }
            },
            None => {},
        }
    }
}

proof fn lemma_propagate_queue(
    c: Seq<(u64, NodeView)>,
    nets: Seq<(u64, NetView)>,
    q: Seq<u64>,
    id: u64,
    changes: Seq<(usize, crate::signal::Signal)>,
    k: int,
)
    requires
        slot_keys(c).no_duplicates(),
    ensures
        propagate_all(c, nets, q, id, changes, k).0.len() == c.len(),
        forall|x: u64| q.contains(x) ==> #[trigger] propagate_all(c, nets, q, id, changes, k).2.contains(x),
        forall|i: int| 0 <= i < c.len() ==> #[trigger] propagate_all(c, nets, q, id, changes, k).0[i] == c[i]
            || propagate_all(c, nets, q, id, changes, k).2.contains(c[i].0),
    decreases k,
{
    if k > 0 && k <= changes.len() {
        lemma_propagate_queue(c, nets, q, id, changes, k - 1);
        lemma_propagate_len(c, nets, q, id, changes, k - 1);
        let prev = propagate_all(c, nets, q, id, changes, k - 1);
        lemma_propagate_shape(c, nets, q, id, changes, k - 1);
        let ch = changes[k - 1];
        let r = propagate_change(prev.0, prev.1, prev.2, id, ch);
        assert(r == propagate_all(c, nets, q, id, changes, k));
        if exists|i: int| first_source(prev.1, i, id, ch.0 as int) {
            let i = choose|i: int| first_source(prev.1, i, id, ch.0 as int);
            let net = prev.1[i].1;
            assert(same_outs(c, prev.0)) by {
                lemma_propagate_same_outs(c, nets, q, id, changes, k - 1);
            }
            lemma_same_outs_keys(c, prev.0);
            lemma_push_sinks_queue(prev.0, prev.2, net.sinks, ch.1, net.sinks.len() as int);
            assert forall|i2: int| 0 <= i2 < c.len() implies #[trigger] r.0[i2] == c[i2] || r.2.contains(c[i2].0) by {
                assert(prev.0[i2].0 == c[i2].0);
            }
        }
    }
}

/// Carrying changes keeps every component's kind, memory and outputs.
proof fn lemma_propagate_same_outs(
    c: Seq<(u64, NodeView)>,
    nets: Seq<(u64, NetView)>,
    q: Seq<u64>,
    id: u64,
    changes: Seq<(usize, crate::signal::Signal)>,
    k: int,
)
    requires
        slot_keys(c).no_duplicates(),
    ensures
        same_outs(c, propagate_all(c, nets, q, id, changes, k).0),
    decreases k,
{
    if k <= 0 || k > changes.len() {
        assert(same_outs(c, c));
    } else {
        lemma_propagate_same_outs(c, nets, q, id, changes, k - 1);
        let prev = propagate_all(c, nets, q, id, changes, k - 1);
        lemma_same_outs_keys(c, prev.0);
        let ch = changes[k - 1];
        let r = propagate_change(prev.0, prev.1, prev.2, id, ch);
        if exists|i: int| first_source(prev.1, i, id, ch.0 as int) {
            let i = choose|i: int| first_source(prev.1, i, id, ch.0 as int);
            let net = prev.1[i].1;
            lemma_push_sinks(prev.0, prev.2, net.sinks, ch.1, net.sinks.len() as int);
            lemma_same_outs_trans(c, prev.0, r.0);
        }
    }
}

/// Every component outside the work list is stable.
pub open spec fn stable_outside(comps: Seq<(u64, NodeView)>, queue: Seq<u64>, lib: Seq<(String, SubcircuitDef)>) -> bool {
    forall|i: int| 0 <= i < comps.len() && !queue.contains(comps[i].0) ==> node_stable(#[trigger] comps[i].1, lib)
}

pub open spec fn all_stable(comps: Seq<(u64, NodeView)>, lib: Seq<(String, SubcircuitDef)>) -> bool {
    forall|i: int| 0 <= i < comps.len() ==> node_stable(#[trigger] comps[i].1, lib)
}

#[verifier::rlimit(60)]
proof fn lemma_settle_loop_stable(
    comps: Seq<(u64, NodeView)>,
    nets: Seq<(u64, NetView)>,
    queue: Seq<u64>,
    count: int,
    max: int,
    lib: Seq<(String, SubcircuitDef)>,
)
    requires
        0 <= count,
        slot_keys(comps).no_duplicates(),
        stable_outside(comps, queue, lib),
        loop_finishes(comps, nets, queue, count, max, lib),
    ensures
        all_stable(spec_settle_loop(comps, nets, queue, count, max, lib).0, lib),
    decreases max + 1 - count,
{
    if queue.len() == 0 {
        assert forall|i: int| 0 <= i < comps.len() implies node_stable(#[trigger] comps[i].1, lib) by {
            assert(!queue.contains(comps[i].0));
        }
    } else {
        let id = queue[0];
        let q1 = queue.drop_first();
        assert forall|x: u64| !q1.contains(x) && x != id implies !queue.contains(x) by {
            if queue.contains(x) {
                let y = choose|y: int| 0 <= y < queue.len() && queue[y] == x;
                if y > 0 {
                    assert(q1[y - 1] == x);
                }
            }
        }
        match slot_get(comps, id) {
            Some(n) => {
                let r = spec_eval(n, lib);
                let changes = changed_outputs(n.output_signals, r.0, r.0.len() as int);
                let mo = merge_outputs(n.output_signals, r.0);
                let v = NodeView { output_signals: mo, ..r.1 };
                lemma_eval_idempotent(n, lib, mo);
                assert(merge_outputs(mo, r.0) =~= mo);
                assert(node_stable(v, lib));
                let comps2 = slot_set(comps, id, v);
                lemma_slot_set_keys(comps, id, v);
                assert forall|i: int| 0 <= i < comps2.len() && !q1.contains(comps2[i].0) implies node_stable(#[trigger] comps2[i].1, lib) by {
                    if comps[i].0 != id {
                        assert(comps2[i] == comps[i]);
                        assert(!queue.contains(comps[i].0));
                    }
                }
                lemma_propagate_queue(comps2, nets, q1, id, changes, changes.len() as int);
                lemma_propagate_same_outs(comps2, nets, q1, id, changes, changes.len() as int);
                let p = propagate_all(comps2, nets, q1, id, changes, changes.len() as int);
                lemma_same_outs_keys(comps2, p.0);
                assert forall|i: int| 0 <= i < p.0.len() && !p.2.contains(p.0[i].0) implies node_stable(#[trigger] p.0[i].1, lib) by {
                    assert(p.0[i].0 == comps2[i].0);
                    assert(p.0[i] == comps2[i]);
                    assert(!q1.contains(comps2[i].0));
                }
                lemma_settle_loop_stable(p.0, p.1, p.2, count + 1, max, lib);
            },
            None => {
                assert forall|i: int| 0 <= i < comps.len() && !q1.contains(comps[i].0) implies node_stable(#[trigger] comps[i].1, lib) by {
                    if comps[i].0 == id {
                        assert(slot_has(comps, id));
                    }
                    assert(!queue.contains(comps[i].0));
                }
                lemma_settle_loop_stable(comps, nets, q1, count + 1, max, lib);
            },
        }
    }
}


/// When settling ends because nothing is left to re-evaluate (not because
/// the step budget ran out), the circuit is stable: re-evaluating any
/// component changes neither its outputs nor its state, every net carries
/// the current output of the port that drives it, and every one of its
/// sinks holds that level (when the source component and port exist).
/// Stated for distinct component keys, nets driven by output ports with no
/// port driving two nets and no input port a sink of two nets (which every
/// `Circuit` operation keeps), components with at most `usize::MAX`
/// outputs and memory cells, and library definitions with at most
/// `usize::MAX` components.
pub proof fn lemma_finished_settle_is_stable(
    comps: Seq<(u64, NodeView)>,
    nets: Seq<(u64, NetView)>,
    lib: Seq<(String, SubcircuitDef)>,
)
    requires
        lib_small(lib),
        slot_keys(comps).no_duplicates(),
        plain_nodes(comps),
        nets_wf(nets),
        sinks_wf(nets),
        settle_finishes(comps, nets, lib),
    ensures
        all_stable(spec_settle(comps, nets, lib).0, lib),
        nets_settled(spec_settle(comps, nets, lib).0, spec_settle(comps, nets, lib).1),
{
    let c1 = spec_phase1(comps, lib, 0);
    lemma_phase1(comps, lib, 0);
    let p2 = spec_phase2(c1, nets, nets.len() as int);
    lemma_phase2(c1, nets, nets.len() as int);
    lemma_phase2_settled(c1, nets, nets.len() as int);
    lemma_same_outs_keys(c1, p2.0);
    lemma_shape_wf(nets, p2.1);
    lemma_shape_sinks_wf(nets, p2.1);
    assert(nets_settled(p2.0, p2.1));
    lemma_settle_loop_settled(p2.0, p2.1, slot_keys(comps), 0, settle_budget(comps.len()), lib);
    let q = slot_keys(comps);
    assert forall|i: int| 0 <= i < p2.0.len() && !q.contains(p2.0[i].0) implies node_stable(#[trigger] p2.0[i].1, lib) by {
        assert(slot_keys(p2.0)[i] == p2.0[i].0);
        assert(q[i] == p2.0[i].0);
    }
    lemma_settle_loop_stable(p2.0, p2.1, q, 0, settle_budget(comps.len()), lib);
}

// ------------------------------------------------------------------
// Settling without instances does not read the library
// ------------------------------------------------------------------

/// Same keys and kinds, entry by entry.
pub open spec fn same_kinds(a: Seq<(u64, NodeView)>, b: Seq<(u64, NodeView)>) -> bool {
    &&& a.len() == b.len()
    &&& forall|i: int| 0 <= i < a.len() ==> (#[trigger] a[i]).0 == b[i].0 && a[i].1.kind == b[i].1.kind
}

pub proof fn lemma_same_kinds_instance(a: Seq<(u64, NodeView)>, b: Seq<(u64, NodeView)>)
    requires
        same_kinds(a, b),
    ensures
        crate::sim::has_instance(a) == crate::sim::has_instance(b),
        slot_keys(a) == slot_keys(b),
{
    assert(slot_keys(a) =~= slot_keys(b));
    if crate::sim::has_instance(a) {
        let i = choose|i: int| 0 <= i < a.len() && (#[trigger] a[i].1).kind is SubcircuitInstance;
        assert(b[i].1.kind is SubcircuitInstance);
    }
    if crate::sim::has_instance(b) {
        let i = choose|i: int| 0 <= i < b.len() && (#[trigger] b[i].1).kind is SubcircuitInstance;
        assert(a[i].1.kind is SubcircuitInstance);
    }
}

/// Replacing a node by one of the same kind keeps the kinds.
pub proof fn lemma_set_same_kind(s: Seq<(u64, NodeView)>, k: u64, v: NodeView)
    requires
        slot_keys(s).no_duplicates(),
        slot_get(s, k) matches Some(n) ==> n.kind == v.kind,
    ensures
        same_kinds(s, slot_set(s, k, v)),
{
    let t = slot_set(s, k, v);
    assert forall|i: int| 0 <= i < s.len() implies (#[trigger] s[i]).0 == t[i].0 && s[i].1.kind == t[i].1.kind by {
        if s[i].0 == k {
            lemma_slot_get_at(s, i);
        }
    }
}

proof fn lemma_same_outs_kinds(a: Seq<(u64, NodeView)>, b: Seq<(u64, NodeView)>)
    requires
        same_outs(a, b),
    ensures
        same_kinds(a, b),
{
}

proof fn lemma_phase1_lib_free(c: Seq<(u64, NodeView)>, lib: Seq<(String, SubcircuitDef)>, j: int)
    requires
        !crate::sim::has_instance(c),
    ensures
        spec_phase1(c, lib, j) == spec_phase1(c, Seq::empty(), j),
    decreases c.len() - j,
{
    if j >= 0 && j < c.len() {
        assert(!(c[j].1.kind is SubcircuitInstance));
        let r = spec_eval(c[j].1, lib);
        assert(r == spec_eval(c[j].1, Seq::empty()));
        crate::sim::lemma_eval_keeps(c[j].1, lib);
        let next = c.update(j, (c[j].0, NodeView { output_signals: r.0, ..r.1 }));
        assert forall|i: int| 0 <= i < next.len() implies !((#[trigger] next[i].1).kind is SubcircuitInstance) by {
            if i != j {
                assert(next[i] == c[i]);
            }
        }
        lemma_phase1_lib_free(next, lib, j + 1);
    }
}

proof fn lemma_loop_lib_free(
    comps: Seq<(u64, NodeView)>,
    nets: Seq<(u64, NetView)>,
    queue: Seq<u64>,
    count: int,
    max: int,
    lib: Seq<(String, SubcircuitDef)>,
)
    requires
        !crate::sim::has_instance(comps),
        slot_keys(comps).no_duplicates(),
    ensures
        spec_settle_loop(comps, nets, queue, count, max, lib) == spec_settle_loop(comps, nets, queue, count, max, Seq::empty()),
    decreases max + 1 - count,
{
    if queue.len() == 0 || count < 0 {
    } else if count + 1 > max {
    } else {
        let id = queue[0];
        let q1 = queue.drop_first();
        match slot_get(comps, id) {
            Some(n) => {
                let i0 = slot_pos(comps, id);
                assert(n == comps[i0].1);
                assert(!(comps[i0].1.kind is SubcircuitInstance));
                let r = spec_eval(n, lib);
                assert(r == spec_eval(n, Seq::empty()));
                crate::sim::lemma_eval_keeps(n, lib);
                let changes = changed_outputs(n.output_signals, r.0, r.0.len() as int);
                let v = NodeView { output_signals: merge_outputs(n.output_signals, r.0), ..r.1 };
                let comps2 = slot_set(comps, id, v);
                lemma_set_same_kind(comps, id, v);
                lemma_same_kinds_instance(comps, comps2);
                lemma_propagate_same_outs(comps2, nets, q1, id, changes, changes.len() as int);
                let p = propagate_all(comps2, nets, q1, id, changes, changes.len() as int);
                lemma_same_outs_kinds(comps2, p.0);
                lemma_same_kinds_instance(comps2, p.0);
                lemma_loop_lib_free(p.0, p.1, p.2, count + 1, max, lib);
            },
            None => {
                lemma_loop_lib_free(comps, nets, q1, count + 1, max, lib);
            },
        }
    }
}

/// Settling components none of which is a subcircuit instance does not
/// read the library.
pub proof fn lemma_settle_lib_free(comps: Seq<(u64, NodeView)>, nets: Seq<(u64, NetView)>, lib: Seq<(String, SubcircuitDef)>)
    requires
        !crate::sim::has_instance(comps),
        slot_keys(comps).no_duplicates(),
    ensures
        spec_settle(comps, nets, lib) == spec_settle(comps, nets, Seq::empty()),
{
    lemma_phase1_lib_free(comps, lib, 0);
    let c1 = spec_phase1(comps, lib, 0);
    lemma_phase1_kinds(comps, lib, 0);
    lemma_same_kinds_instance(comps, c1);
    let p2 = spec_phase2(c1, nets, nets.len() as int);
    lemma_phase2(c1, nets, nets.len() as int);
    lemma_same_outs_kinds(c1, p2.0);
    lemma_same_kinds_instance(c1, p2.0);
    lemma_loop_lib_free(p2.0, p2.1, slot_keys(comps), 0, settle_budget(comps.len()), lib);
}

proof fn lemma_phase1_kinds(c: Seq<(u64, NodeView)>, lib: Seq<(String, SubcircuitDef)>, j: int)
    ensures
        same_kinds(c, spec_phase1(c, lib, j)),
    decreases c.len() - j,
{
    if j >= 0 && j < c.len() {
        let r = spec_eval(c[j].1, lib);
        crate::sim::lemma_eval_keeps(c[j].1, lib);
        let next = c.update(j, (c[j].0, NodeView { output_signals: r.0, ..r.1 }));
        lemma_phase1_kinds(next, lib, j + 1);
        let f = spec_phase1(next, lib, j + 1);
        assert forall|i: int| 0 <= i < c.len() implies (#[trigger] c[i]).0 == f[i].0 && c[i].1.kind == f[i].1.kind by {
            assert(next[i].0 == f[i].0 && next[i].1.kind == f[i].1.kind);
        }
    } else {
        assert(same_kinds(c, c));
    }
}

} // verus!
