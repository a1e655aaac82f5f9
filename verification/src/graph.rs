//! The circuit graph: components (keyed by stable ids), nets connecting one
//! output port to any number of input ports, and subcircuit definitions.
use vstd::prelude::*;
use crate::component::{GateKind, spec_input_count, spec_output_count};
use crate::settle_laws::{nets_wf, sinks_wf};
use crate::signal::Signal;
use crate::slots::{
    ComponentSlots, NetSlots,
    component_slots, net_slots, slot_keys, slots_wf, slot_has, slot_get, slot_set,
    slot_remove, lemma_slot_get_at, component_slots_new, component_slots_insert,
    component_slots_remove, component_slots_get, component_slots_get_mut,
    component_slots_keys, net_slots_new, net_slots_insert, net_slots_remove, net_slots_get,
    net_slots_get_mut, net_slots_keys,
};

verus! {

/// A key handed out by a slot map: its version (high half) is odd.
pub open spec fn valid_key(raw: u64) -> bool {
    (raw / 0x1_0000_0000) % 2 == 1
}

/// Stable identifier of a component; stays valid while the component exists.
#[derive(Debug, Clone, Copy, PartialEq, Eq, Hash, Structural)]
pub struct ComponentId {
    raw: u64,
}

/// Stable identifier of a net.
#[derive(Debug, Clone, Copy, PartialEq, Eq, Hash, Structural)]
pub struct NetId {
    raw: u64,
}

impl View for ComponentId {
    type V = u64;

    closed spec fn view(&self) -> u64 {
        self.raw
    }
}

impl View for NetId {
    type V = u64;

    closed spec fn view(&self) -> u64 {
        self.raw
    }
}

impl ComponentId {
    #[verifier::type_invariant]
    closed spec fn inv(self) -> bool {
        valid_key(self.raw)
    }

    /// The id for a slot-map key.
    pub(crate) fn from_key(raw: u64) -> (r: ComponentId)
        requires
            valid_key(raw),
        ensures
            r@ == raw,
            r == id_of(raw),
    {
        ComponentId { raw }
    }

    /// The 64-bit key this id stands for.
    pub fn raw(&self) -> (r: u64)
        ensures
            r == self@,
            valid_key(r),
    {
        proof { use_type_invariant(self); }
        self.raw
    }

    /// Rebuilds an id from `raw()`; `None` for a value no slot map hands out.
    pub fn from_raw(raw: u64) -> (r: Option<ComponentId>)
        ensures
            r is Some <==> valid_key(raw),
            r matches Some(id) ==> id@ == raw,
    {
        if (raw >> 32u64) & 1 == 1 {
            assert(valid_key(raw)) by {
                assert(((raw >> 32u64) & 1 == 1) == ((raw / 0x1_0000_0000) % 2 == 1)) by (bit_vector);
            }
            Some(ComponentId { raw })
        } else {
            assert(!valid_key(raw)) by {
                assert(((raw >> 32u64) & 1 == 1) == ((raw / 0x1_0000_0000) % 2 == 1)) by (bit_vector);
            }
            None
        }
    }
}

/// The id for a key.
pub closed spec fn id_of(raw: u64) -> ComponentId {
    ComponentId { raw }
}

/// `id_of` and the key of an id undo each other.
pub proof fn lemma_id_of(raw: u64, id: ComponentId)
    ensures
        id_of(raw)@ == raw,
        id_of(id@) == id,
{
}

/// Ids with the same key are the same id.
pub proof fn lemma_component_id_eq(a: ComponentId, b: ComponentId)
    ensures
        a@ == b@ ==> a == b,
{
}

impl NetId {
    #[verifier::type_invariant]
    closed spec fn inv(self) -> bool {
        valid_key(self.raw)
    }

    pub(crate) fn from_key(raw: u64) -> (r: NetId)
        requires
            valid_key(raw),
        ensures
            r@ == raw,
    {
        NetId { raw }
    }

    /// Rebuilds an id from `raw()`; `None` for a value no slot map hands out.
    pub fn from_raw(raw: u64) -> (r: Option<NetId>)
        ensures
            r is Some <==> valid_key(raw),
            r matches Some(id) ==> id@ == raw,
    {
        if (raw >> 32u64) & 1 == 1 {
            assert(valid_key(raw)) by {
                assert(((raw >> 32u64) & 1 == 1) == ((raw / 0x1_0000_0000) % 2 == 1)) by (bit_vector);
            }
            Some(NetId { raw })
        } else {
            assert(!valid_key(raw)) by {
                assert(((raw >> 32u64) & 1 == 1) == ((raw / 0x1_0000_0000) % 2 == 1)) by (bit_vector);
            }
            None
        }
    }

    /// The 64-bit key this id stands for.
    pub fn raw(&self) -> (r: u64)
        ensures
            r == self@,
            valid_key(r),
    {
        proof { use_type_invariant(self); }
        self.raw
    }
}

/// Quarter-turn orientation of a component on the canvas.
#[derive(Debug, Clone, Copy, PartialEq, Eq, Hash, Structural)]
pub enum Rotation {
    R0,
    R90,
    R180,
    R270,
}

impl Default for Rotation {
    fn default() -> (r: Rotation)
        ensures
            r == Rotation::R0,
    {
        Rotation::R0
    }
}

/// The next orientation clockwise; four steps return to the start.
pub open spec fn spec_next_rotation(r: Rotation) -> Rotation {
    match r {
        Rotation::R0 => Rotation::R90,
        Rotation::R90 => Rotation::R180,
        Rotation::R180 => Rotation::R270,
        Rotation::R270 => Rotation::R0,
    }
}

impl Rotation {
    pub fn next(self) -> (r: Self)
        ensures
            r == spec_next_rotation(self),
    {
        match self {
            Rotation::R0 => Rotation::R90,
            Rotation::R90 => Rotation::R180,
            Rotation::R180 => Rotation::R270,
            Rotation::R270 => Rotation::R0,
        }
    }
}

/// Rotating four times is the identity.
pub proof fn lemma_rotation_cycle(r: Rotation)
    ensures
        spec_next_rotation(spec_next_rotation(spec_next_rotation(spec_next_rotation(r)))) == r,
        spec_next_rotation(r) != r,
{
}

/// One port of one component.
#[derive(Debug, Clone, Copy, PartialEq, Eq, Hash, Structural)]
pub struct PortEndpoint {
    pub component_id: ComponentId,
    pub is_output: bool,
    pub port_index: usize,
}

/// A component placed on the canvas with its simulation state.
///
/// `pos` and `clock_hz` hold IEEE-754 single-precision bit patterns
/// (`f32::to_bits`); the library only orders and copies them.
pub struct ComponentNode {
    pub kind: GateKind,
    pub pos: (u32, u32),
    pub rotation: Rotation,
    /// Switch on/off, clock level, or latch/flip-flop Q.
    pub state_flag: bool,
    /// Internal memory: counter, register, ROM and RAM contents.
    pub memory: Vec<u8>,
    /// Clock level at the previous evaluation, for edge detection.
    pub clock_prev: bool,
    pub input_signals: Vec<Signal>,
    pub output_signals: Vec<Signal>,
    pub label: String,
    pub bit_width: u8,
    pub clock_hz: u32,
}

/// The value of a component node, with its vectors as sequences.
pub struct NodeView {
    pub kind: GateKind,
    pub pos: (u32, u32),
    pub rotation: Rotation,
    pub state_flag: bool,
    pub memory: Seq<u8>,
    pub clock_prev: bool,
    pub input_signals: Seq<Signal>,
    pub output_signals: Seq<Signal>,
    pub label: Seq<char>,
    pub bit_width: u8,
    pub clock_hz: u32,
}

impl View for ComponentNode {
    type V = NodeView;

    open spec fn view(&self) -> NodeView {
        NodeView {
            kind: self.kind,
            pos: self.pos,
            rotation: self.rotation,
            state_flag: self.state_flag,
            memory: self.memory@,
            clock_prev: self.clock_prev,
            input_signals: self.input_signals@,
            output_signals: self.output_signals@,
            label: self.label@,
            bit_width: self.bit_width,
            clock_hz: self.clock_hz,
        }
    }
}

/// The bit width a component gets when none is given.
pub fn default_bit_width() -> (r: u8)
    ensures
        r == 1,
{
    1
}

/// `2.0` as an `f32` bit pattern: the default clock frequency in hertz.
pub const DEFAULT_CLOCK_HZ_BITS: u32 = 0x4000_0000u32;

/// Initial memory of a freshly placed component.
pub open spec fn spec_initial_memory(kind: GateKind) -> Seq<u8> {
    match kind {
        GateKind::Rom16x4 => seq![0u8, 1, 1, 2, 3, 5, 8, 13, 1, 2, 4, 8, 3, 6, 12, 15],
        GateKind::Ram16x4 => Seq::new(16, |i: int| 0u8),
        GateKind::Counter4 | GateKind::Register4 | GateKind::ShiftRegister4 => Seq::new(4, |i: int| 0u8),
        _ => Seq::empty(),
    }
}

/// A freshly placed component: default ports all low, initial memory,
/// no rotation, no label, width 1, 2 Hz clock.
pub open spec fn spec_new_node(kind: GateKind, pos: (u32, u32)) -> NodeView {
    NodeView {
        kind,
        pos,
        rotation: Rotation::R0,
        state_flag: false,
        memory: spec_initial_memory(kind),
        clock_prev: false,
        input_signals: Seq::new(spec_input_count(kind), |i: int| Signal::Zero),
        output_signals: Seq::new(spec_output_count(kind), |i: int| Signal::Zero),
        label: Seq::empty(),
        bit_width: 1,
        clock_hz: DEFAULT_CLOCK_HZ_BITS,
    }
}

/// A port count clamped to the range 1..=16.
pub open spec fn clamp_count(n: usize) -> usize {
    if n < 1 { 1 } else if n > 16 { 16 } else { n }
}

fn clamp_count_exec(n: usize) -> (r: usize)
    ensures
        r == clamp_count(n),
        r as int == clamp_port_count(n as int),
{
    if n < 1 { 1 } else if n > 16 { 16 } else { n }
}

/// `n` clamped to the range 1..=16.
pub open spec fn clamp_port_count(n: int) -> nat {
    if n < 1 { 1 } else if n > 16 { 16 } else { n as nat }
}

/// A sequence resized to `n`, padding with `Zero`.
pub open spec fn resized(s: Seq<Signal>, n: nat) -> Seq<Signal> {
    if n <= s.len() {
        s.take(n as int)
    } else {
        s + Seq::new((n - s.len()) as nat, |i: int| Signal::Zero)
    }
}

/// A vector of `n` low signals.
pub fn zeros(n: usize) -> (r: Vec<Signal>)
    ensures
        r@ == Seq::new(n as nat, |i: int| Signal::Zero),
{
    let mut v: Vec<Signal> = Vec::new();
    let mut i: usize = 0;
    while i < n
        invariant
            i <= n,
            v@ == Seq::new(i as nat, |j: int| Signal::Zero),
        decreases n - i,
    {
        v.push(Signal::Zero);
        i = i + 1;
        assert(v@ =~= Seq::new(i as nat, |j: int| Signal::Zero));
    }
    v
}

/// A vector of `n` zero bytes.
pub fn zero_bytes(n: usize) -> (r: Vec<u8>)
    ensures
        r@ == Seq::new(n as nat, |i: int| 0u8),
{
    let mut v: Vec<u8> = Vec::new();
    let mut i: usize = 0;
    while i < n
        invariant
            i <= n,
            v@ == Seq::new(i as nat, |j: int| 0u8),
        decreases n - i,
    {
        v.push(0u8);
        i = i + 1;
        assert(v@ =~= Seq::new(i as nat, |j: int| 0u8));
    }
    v
}

/// Resizes a signal vector to `n`, padding with `Zero`.
pub fn resize_signals(v: &mut Vec<Signal>, n: usize)
    ensures
        final(v)@ == resized(old(v)@, n as nat),
{
    if n <= v.len() {
        v.truncate(n);
        assert(v@ =~= resized(old(v)@, n as nat));
    } else {
        let extra = zeros(n - v.len());
        let mut i: usize = 0;
        while i < extra.len()
            invariant
                i <= extra.len(),
                extra@ == Seq::new((n - old(v)@.len()) as nat, |j: int| Signal::Zero),
                v@ == old(v)@ + extra@.take(i as int),
            decreases extra.len() - i,
        {
            v.push(extra[i]);
            i = i + 1;
            assert(v@ =~= old(v)@ + extra@.take(i as int));
        }
        assert(extra@.take(extra@.len() as int) =~= extra@);
    }
}

impl Clone for ComponentNode {
    fn clone(&self) -> (r: Self)
        ensures
            r@ == self@,
    {
        ComponentNode {
            kind: self.kind.clone(),
            pos: self.pos,
            rotation: self.rotation,
            state_flag: self.state_flag,
            memory: copy_bytes(&self.memory),
            clock_prev: self.clock_prev,
            input_signals: copy_signals(&self.input_signals),
            output_signals: copy_signals(&self.output_signals),
            label: self.label.clone(),
            bit_width: self.bit_width,
            clock_hz: self.clock_hz,
        }
    }
}

/// An element-by-element copy of a signal vector.
pub fn copy_signals(v: &Vec<Signal>) -> (r: Vec<Signal>)
    ensures
        r@ == v@,
{
    let mut out: Vec<Signal> = Vec::new();
    let mut i: usize = 0;
    while i < v.len()
        invariant
            i <= v.len(),
            out@ == v@.take(i as int),
        decreases v.len() - i,
    {
        out.push(v[i]);
        i = i + 1;
        assert(out@ =~= v@.take(i as int));
    }
    assert(v@.take(v.len() as int) =~= v@);
    out
}

/// An element-by-element copy of a byte vector.
pub fn copy_bytes(v: &Vec<u8>) -> (r: Vec<u8>)
    ensures
        r@ == v@,
{
    let mut out: Vec<u8> = Vec::new();
    let mut i: usize = 0;
    while i < v.len()
        invariant
            i <= v.len(),
            out@ == v@.take(i as int),
        decreases v.len() - i,
    {
        out.push(v[i]);
        i = i + 1;
        assert(out@ =~= v@.take(i as int));
    }
    assert(v@.take(v.len() as int) =~= v@);
    out
}

impl ComponentNode {
    /// A freshly placed component of `kind` at `pos`.
    pub fn new(kind: GateKind, pos: (u32, u32)) -> (r: Self)
        ensures
            r@ == spec_new_node(kind, pos),
    {
        let input_count = kind.input_count();
        let output_count = kind.output_count();
        let memory = match kind {
            GateKind::Rom16x4 => {
                let v: Vec<u8> = vec![0u8, 1, 1, 2, 3, 5, 8, 13, 1, 2, 4, 8, 3, 6, 12, 15];
                assert(v@ =~= spec_initial_memory(kind));
                v
            },
            GateKind::Ram16x4 => zero_bytes(16),
            GateKind::Counter4 | GateKind::Register4 | GateKind::ShiftRegister4 => zero_bytes(4),
            _ => Vec::new(),
        };
        let r = ComponentNode {
            kind,
            pos,
            rotation: Rotation::R0,
            state_flag: false,
            memory,
            clock_prev: false,
            input_signals: zeros(input_count),
            output_signals: zeros(output_count),
            label: String::new(),
            bit_width: default_bit_width(),
            clock_hz: DEFAULT_CLOCK_HZ_BITS,
        };
        assert(r@.memory =~= spec_initial_memory(kind));
        r
    }

    pub fn input_count(&self) -> (r: usize)
        ensures
            r == self.input_signals@.len(),
    {
        self.input_signals.len()
    }

    pub fn output_count(&self) -> (r: usize)
        ensures
            r == self.output_signals@.len(),
    {
        self.output_signals.len()
    }

    /// Resizes the inputs to `new_count` clamped to 1..=16; new ports are low.
    pub fn set_input_count(&mut self, new_count: usize)
        ensures
            final(self)@ == (NodeView {
                input_signals: resized(old(self)@.input_signals, clamp_port_count(new_count as int)),
                ..old(self)@
            }),
    {
        let count = if new_count < 1 { 1 } else if new_count > 16 { 16 } else { new_count };
        resize_signals(&mut self.input_signals, count);
    }

    /// Resizes the outputs to `new_count` clamped to 1..=16; new ports are low.
    pub fn set_output_count(&mut self, new_count: usize)
        ensures
            final(self)@ == (NodeView {
                output_signals: resized(old(self)@.output_signals, clamp_port_count(new_count as int)),
                ..old(self)@
            }),
    {
        let count = if new_count < 1 { 1 } else if new_count > 16 { 16 } else { new_count };
        resize_signals(&mut self.output_signals, count);
    }
}

} // verus!

verus! {

/// A wire: one driving output port and the input ports it feeds.
pub struct Net {
    pub source: PortEndpoint,
    pub sinks: Vec<PortEndpoint>,
    pub current_signal: Signal,
    pub label: Option<String>,
}

/// The value of a net, with its sink list as a sequence.
pub struct NetView {
    pub source: PortEndpoint,
    pub sinks: Seq<PortEndpoint>,
    pub current_signal: Signal,
    pub label: Option<Seq<char>>,
}

pub open spec fn opt_string_view(s: Option<String>) -> Option<Seq<char>> {
    match s {
        Some(x) => Some(x@),
        None => None,
    }
}

impl View for Net {
    type V = NetView;

    open spec fn view(&self) -> NetView {
        NetView {
            source: self.source,
            sinks: self.sinks@,
            current_signal: self.current_signal,
            label: opt_string_view(self.label),
        }
    }
}

/// An element-by-element copy of a port list.
pub fn copy_endpoints(v: &Vec<PortEndpoint>) -> (r: Vec<PortEndpoint>)
    ensures
        r@ == v@,
{
    let mut out: Vec<PortEndpoint> = Vec::new();
    let mut i: usize = 0;
    while i < v.len()
        invariant
            i <= v.len(),
            out@ == v@.take(i as int),
        decreases v.len() - i,
    {
        out.push(v[i]);
        i = i + 1;
        assert(out@ =~= v@.take(i as int));
    }
    assert(v@.take(v.len() as int) =~= v@);
    out
}

impl Clone for Net {
    fn clone(&self) -> (r: Self)
        ensures
            r@ == self@,
    {
        Net {
            source: self.source,
            sinks: copy_endpoints(&self.sinks),
            current_signal: self.current_signal,
            label: match &self.label {
                Some(s) => Some(s.clone()),
                None => None,
            },
        }
    }
}

/// A reusable circuit with named external inputs and outputs.
pub struct SubcircuitDef {
    pub name: String,
    pub input_names: Vec<String>,
    pub output_names: Vec<String>,
    pub circuit: Circuit,
}

/// A circuit: components and nets in slot maps, plus the subcircuit
/// definitions its instances refer to (by name, first match wins).
pub struct Circuit {
    pub components: ComponentSlots,
    pub nets: NetSlots,
    pub subcircuits: Vec<(String, SubcircuitDef)>,
}

/// The nets that the filter does not drop, in order.
pub open spec fn drop_where(nets: Seq<(u64, NetView)>, f: NetDrop) -> Seq<(u64, NetView)> {
    nets.filter(|e: (u64, NetView)| !net_dropped(f, e.1))
}

/// Every net with the filter's sinks removed from its sink list.
pub open spec fn prune_all(nets: Seq<(u64, NetView)>, f: SinkPrune) -> Seq<(u64, NetView)> {
    nets.map_values(|e: (u64, NetView)| (e.0, pruned_net(f, e.1)))
}

/// The nets after dropping `sink` from every sink list and deleting nets
/// left without sinks.
pub open spec fn spec_nets_without_sink(nets: Seq<(u64, NetView)>, sink: PortEndpoint) -> Seq<(u64, NetView)> {
    drop_where(prune_all(nets, SinkPrune::Exactly(sink)), NetDrop::NoSinks)
}

/// The nets after removing component `id`: nets it drives are deleted, it
/// is dropped from every sink list, and nets left without sinks are deleted.
pub open spec fn spec_nets_without_component(nets: Seq<(u64, NetView)>, id: ComponentId) -> Seq<(u64, NetView)> {
    drop_where(
        prune_all(drop_where(nets, NetDrop::SourceIs(id)), SinkPrune::OfComponent(id)),
        NetDrop::NoSinks,
    )
}

/// The nets after dropping input ports `count..` of component `id` from the
/// sink lists and deleting nets left without sinks.
pub open spec fn spec_nets_pruned_inputs(nets: Seq<(u64, NetView)>, id: ComponentId, count: usize) -> Seq<(u64, NetView)> {
    drop_where(prune_all(nets, SinkPrune::InputsFrom(id, count)), NetDrop::NoSinks)
}

/// The nets after deleting those driven by output ports `count..` of `id`.
pub open spec fn spec_nets_pruned_outputs(nets: Seq<(u64, NetView)>, id: ComponentId, count: usize) -> Seq<(u64, NetView)> {
    drop_where(nets, NetDrop::SourcePortFrom(id, count))
}

/// The components after driving input port `sink` low (when it exists).
pub open spec fn spec_comps_sink_low(comps: Seq<(u64, NodeView)>, sink: PortEndpoint) -> Seq<(u64, NodeView)> {
    let id = sink.component_id@;
    match slot_get(comps, id) {
        Some(n) => if sink.port_index < n.input_signals.len() {
            slot_set(
                comps,
                id,
                NodeView { input_signals: n.input_signals.update(sink.port_index as int, Signal::Zero), ..n },
            )
        } else {
            comps
        },
        None => comps,
    }
}

/// The net is driven by `source`.
pub open spec fn net_from(source: PortEndpoint) -> spec_fn(NetView) -> bool {
    |n: NetView| n.source == source
}

/// The net feeds `sink`.
pub open spec fn net_feeds(sink: PortEndpoint) -> spec_fn(NetView) -> bool {
    |n: NetView| n.sinks.contains(sink)
}

/// Position `i` is the first net satisfying `p`.
pub open spec fn first_net_where(nets: Seq<(u64, NetView)>, i: int, p: spec_fn(NetView) -> bool) -> bool {
    &&& 0 <= i < nets.len()
    &&& p(nets[i].1)
    &&& forall|j: int| 0 <= j < i ==> !p(#[trigger] nets[j].1)
}

/// The answer of a first-match search over the nets.
pub open spec fn found_first(nets: Seq<(u64, NetView)>, r: Option<NetId>, p: spec_fn(NetView) -> bool) -> bool {
    match r {
        Some(nid) => exists|i: int| first_net_where(nets, i, p) && nets[i].0 == nid@,
        None => forall|i: int| 0 <= i < nets.len() ==> !p(#[trigger] nets[i].1),
    }
}

/// Output signal `port` of component `id`, or `Zero` when there is none.
pub open spec fn spec_output_or_zero(comps: Seq<(u64, NodeView)>, id: u64, port: int) -> Signal {
    match slot_get(comps, id) {
        Some(n) => if 0 <= port < n.output_signals.len() { n.output_signals[port] } else { Signal::Zero },
        None => Signal::Zero,
    }
}

/// The node under `id` with a field changed by `f`, or the same entries.
pub open spec fn spec_update_node(comps: Seq<(u64, NodeView)>, id: u64, f: spec_fn(NodeView) -> NodeView) -> Seq<(u64, NodeView)> {
    match slot_get(comps, id) {
        Some(n) => slot_set(comps, id, f(n)),
        None => comps,
    }
}

/// The net under `id` changed by `f`; the sequence itself when there is none.
pub open spec fn spec_update_net(nets: Seq<(u64, NetView)>, id: u64, f: spec_fn(NetView) -> NetView) -> Seq<(u64, NetView)> {
    match slot_get(nets, id) {
        Some(n) => slot_set(nets, id, f(n)),
        None => nets,
    }
}

/// A memory with the 4-bit word `value & 0xF` in cell `index`, padded with
/// zeros to 16 cells first when it is too short for the cell.
pub open spec fn memory_with_word(m: Seq<u8>, index: int, value: u8) -> Seq<u8> {
    let padded = if m.len() <= index { m + Seq::new((16 - m.len()) as nat, |i: int| 0u8) } else { m };
    padded.update(index, value & 0xF)
}

/// A sink list without `p`.
fn endpoints_without(v: &Vec<PortEndpoint>, p: PortEndpoint) -> (r: Vec<PortEndpoint>)
    ensures
        r@ == v@.filter(|s: PortEndpoint| s != p),
{
    let ghost pred = |s: PortEndpoint| s != p;
    let mut out: Vec<PortEndpoint> = Vec::new();
    let mut i: usize = 0;
    while i < v.len()
        invariant
            i <= v.len(),
            pred == (|s: PortEndpoint| s != p),
            out@ == v@.take(i as int).filter(pred),
        decreases v.len() - i,
    {
        proof { crate::seqs::lemma_filter_take_step(v@, pred, i as int); }
        assert(pred(v@[i as int]) == (v@[i as int] != p));
        if v[i] != p {
            out.push(v[i]);
        }
        i = i + 1;
    }
    proof { crate::seqs::lemma_take_full(v@); }
    out
}

/// A sink list without the ports of component `id`.
fn endpoints_without_component(v: &Vec<PortEndpoint>, id: ComponentId) -> (r: Vec<PortEndpoint>)
    ensures
        r@ == v@.filter(|s: PortEndpoint| s.component_id@ != id@),
{
    let ghost pred = |s: PortEndpoint| s.component_id@ != id@;
    let mut out: Vec<PortEndpoint> = Vec::new();
    let mut i: usize = 0;
    while i < v.len()
        invariant
            i <= v.len(),
            pred == (|s: PortEndpoint| s.component_id@ != id@),
            out@ == v@.take(i as int).filter(pred),
        decreases v.len() - i,
    {
        proof { crate::seqs::lemma_filter_take_step(v@, pred, i as int); }
        assert(pred(v@[i as int]) == (v@[i as int].component_id@ != id@));
        if v[i].component_id.raw() != id.raw() {
            out.push(v[i]);
        }
        i = i + 1;
    }
    proof { crate::seqs::lemma_take_full(v@); }
    out
}

/// A sink list without input ports `count..` of component `id`.
fn endpoints_without_high_ports(v: &Vec<PortEndpoint>, id: ComponentId, count: usize) -> (r: Vec<PortEndpoint>)
    ensures
        r@ == v@.filter(|s: PortEndpoint| !(s.component_id@ == id@ && s.port_index >= count)),
{
    let ghost pred = |s: PortEndpoint| !(s.component_id@ == id@ && s.port_index >= count);
    let mut out: Vec<PortEndpoint> = Vec::new();
    let mut i: usize = 0;
    while i < v.len()
        invariant
            i <= v.len(),
            pred == (|s: PortEndpoint| !(s.component_id@ == id@ && s.port_index >= count)),
            out@ == v@.take(i as int).filter(pred),
        decreases v.len() - i,
    {
        proof { crate::seqs::lemma_filter_take_step(v@, pred, i as int); }
        assert(pred(v@[i as int]) == !(v@[i as int].component_id@ == id@ && v@[i as int].port_index >= count));
        if !(v[i].component_id.raw() == id.raw() && v[i].port_index >= count) {
            out.push(v[i]);
        }
        i = i + 1;
    }
    proof { crate::seqs::lemma_take_full(v@); }
    out
}

} // verus!

verus! {

/// Which nets a deletion pass drops.
pub enum NetDrop {
    /// Nets driven by the component.
    SourceIs(ComponentId),
    /// Nets driven by output ports `count..` of the component.
    SourcePortFrom(ComponentId, usize),
    /// Nets with no sinks left.
    NoSinks,
}

pub open spec fn net_dropped(f: NetDrop, n: NetView) -> bool {
    match f {
        NetDrop::SourceIs(id) => n.source.component_id@ == id@,
        NetDrop::SourcePortFrom(id, count) => n.source.component_id@ == id@ && n.source.port_index >= count,
        NetDrop::NoSinks => n.sinks.len() == 0,
    }
}

fn is_dropped(f: &NetDrop, n: &Net) -> (r: bool)
    ensures
        r == net_dropped(*f, n@),
{
    match f {
        NetDrop::SourceIs(id) => n.source.component_id.raw() == id.raw(),
        NetDrop::SourcePortFrom(id, count) => n.source.component_id.raw() == id.raw() && n.source.port_index >= *count,
        NetDrop::NoSinks => n.sinks.len() == 0,
    }
}

/// Which sinks a pruning pass removes from every sink list.
pub enum SinkPrune {
    Exactly(PortEndpoint),
    OfComponent(ComponentId),
    InputsFrom(ComponentId, usize),
}

pub open spec fn sink_kept(f: SinkPrune, s: PortEndpoint) -> bool {
    match f {
        SinkPrune::Exactly(p) => s != p,
        SinkPrune::OfComponent(id) => s.component_id@ != id@,
        SinkPrune::InputsFrom(id, count) => !(s.component_id@ == id@ && s.port_index >= count),
    }
}

pub open spec fn pruned_net(f: SinkPrune, n: NetView) -> NetView {
    NetView { sinks: n.sinks.filter(|s: PortEndpoint| sink_kept(f, s)), ..n }
}

fn prune_sinks(f: &SinkPrune, v: &Vec<PortEndpoint>) -> (r: Vec<PortEndpoint>)
    ensures
        r@ == v@.filter(|s: PortEndpoint| sink_kept(*f, s)),
{
    let r = match f {
        SinkPrune::Exactly(p) => endpoints_without(v, *p),
        SinkPrune::OfComponent(id) => endpoints_without_component(v, *id),
        SinkPrune::InputsFrom(id, count) => endpoints_without_high_ports(v, *id, *count),
    };
    proof {
        crate::seqs::lemma_filter_ext(v@, |s: PortEndpoint| sink_kept(*f, s), match *f {
            SinkPrune::Exactly(p) => |s: PortEndpoint| s != p,
            SinkPrune::OfComponent(id) => |s: PortEndpoint| s.component_id@ != id@,
            SinkPrune::InputsFrom(id, count) => |s: PortEndpoint| !(s.component_id@ == id@ && s.port_index >= count),
        });
    }
    r
}

/// Deletes the nets whose keys are listed.
fn remove_net_keys(nets: &mut NetSlots, dead: &Vec<u64>)
    requires
        forall|i: int| 0 <= i < dead@.len() ==> valid_key(#[trigger] dead@[i]),
    ensures
        net_slots(*final(nets)) == net_slots(*old(nets)).filter(|e: (u64, NetView)| !dead@.contains(e.0)),
{
    let ghost s0 = net_slots(*old(nets));
    let mut j: usize = 0;
    proof {
        crate::seqs::lemma_filter_ext(s0, |e: (u64, NetView)| true, |e: (u64, NetView)| !dead@.take(0).contains(e.0));
        assert(s0.filter(|e: (u64, NetView)| true) == s0) by {
            lemma_filter_true(s0);
        }
    }
    while j < dead.len()
        invariant
            j <= dead.len(),
            s0 == net_slots(*old(nets)),
            forall|i: int| 0 <= i < dead@.len() ==> valid_key(#[trigger] dead@[i]),
            net_slots(*nets) == s0.filter(|e: (u64, NetView)| !dead@.take(j as int).contains(e.0)),
        decreases dead.len() - j,
    {
        let k = dead[j];
        let ghost before = net_slots(*nets);
        net_slots_remove(nets, k);
        proof {
            let pj = |e: (u64, NetView)| !dead@.take(j as int).contains(e.0);
            let q = crate::slots::key_is_not::<NetView>(k);
            let pj1 = |e: (u64, NetView)| !dead@.take(j + 1).contains(e.0);
            crate::seqs::lemma_filter_filter(s0, pj, q);
            assert(dead@.take(j + 1) =~= dead@.take(j as int).push(k));
            assert forall|i: int| 0 <= i < s0.len() implies (pj(#[trigger] s0[i]) && q(s0[i])) == pj1(s0[i]) by {
                lemma_push_contains(dead@.take(j as int), k, s0[i].0);
            }
            crate::seqs::lemma_filter_ext(s0, |e: (u64, NetView)| pj(e) && q(e), pj1);
        }
        j = j + 1;
    }
    proof {
        assert(dead@.take(dead@.len() as int) =~= dead@);
    }
}

/// Filtering by a predicate that always holds changes nothing.
proof fn lemma_filter_true<A>(s: Seq<A>)
    ensures
        s.filter(|e: A| true) == s,
    decreases s.len(),
{
    reveal(Seq::filter);
    if s.len() > 0 {
        lemma_filter_true(s.drop_last());
        assert(s.drop_last().push(s.last()) =~= s);
    }
}

/// Listing the keys of the entries that satisfy `p`, then dropping the
/// listed keys, is filtering by the negation of `p`.
proof fn lemma_listed_keys_filter<V>(s: Seq<(u64, V)>, pf: spec_fn((u64, V)) -> bool, dead: Seq<u64>)
    requires
        slot_keys(s).no_duplicates(),
        dead == slot_keys(s.filter(pf)),
    ensures
        s.filter(|e: (u64, V)| !dead.contains(e.0)) == s.filter(|e: (u64, V)| !pf(e)),
{
    let f = s.filter(pf);
    crate::seqs::lemma_filter_elements(s, pf);
    assert forall|i: int| 0 <= i < s.len() implies (!dead.contains(#[trigger] s[i].0)) == !pf(s[i]) by {
        if pf(s[i]) {
            assert(f.contains(s[i]));
            let m = choose|m: int| 0 <= m < f.len() && f[m] == s[i];
            assert(dead[m] == s[i].0);
        }
        if dead.contains(s[i].0) {
            let m = choose|m: int| 0 <= m < dead.len() && dead[m] == s[i].0;
            assert(f[m].0 == s[i].0);
            assert(pf(f[m]));
            assert(s.contains(f[m]));
            let j = choose|j: int| 0 <= j < s.len() && s[j] == f[m];
            assert(slot_keys(s)[j] == slot_keys(s)[i]);
        }
    }
    crate::seqs::lemma_filter_ext(s, |e: (u64, V)| !dead.contains(e.0), |e: (u64, V)| !pf(e));
}

/// A key is in a list extended by one key iff it was listed or is that key.
proof fn lemma_push_contains(s: Seq<u64>, k: u64, x: u64)
    ensures
        s.push(k).contains(x) == (s.contains(x) || x == k),
{
    if x == k {
        assert(s.push(k)[s.len() as int] == k);
    }
    if s.contains(x) {
        let m = choose|m: int| 0 <= m < s.len() && s[m] == x;
        assert(s.push(k)[m] == x);
    }
    if s.push(k).contains(x) {
        let m = choose|m: int| 0 <= m < s.len() + 1 && s.push(k)[m] == x;
        if m < s.len() {
            assert(s[m] == x);
        }
    }
}

/// The keys a slot map reports make its entries well formed.
pub proof fn lemma_keys_wf<V>(s: Seq<(u64, V)>, keys: Seq<u64>)
    requires
        keys == slot_keys(s),
        keys.no_duplicates(),
        forall|i: int| 0 <= i < keys.len() ==> valid_key(#[trigger] keys[i]),
    ensures
        slots_wf(s),
{
    assert forall|i: int| 0 <= i < s.len() implies valid_key(#[trigger] s[i].0) by {
        assert(keys[i] == s[i].0);
    }
}

/// Deletes every net the filter drops.
fn drop_nets(nets: &mut NetSlots, f: NetDrop)
    ensures
        net_slots(*final(nets)) == drop_where(net_slots(*old(nets)), f),
        slots_wf(net_slots(*old(nets))),
{
    let keys = net_slots_keys(nets);
    let ghost s0 = net_slots(*nets);
    let ghost pd = |e: (u64, NetView)| net_dropped(f, e.1);
    let mut dead: Vec<u64> = Vec::new();
    let mut i: usize = 0;
    while i < keys.len()
        invariant
            i <= keys.len(),
            s0 == net_slots(*nets),
            keys@ == slot_keys(s0),
            keys@.no_duplicates(),
            forall|m: int| 0 <= m < keys@.len() ==> valid_key(#[trigger] keys@[m]),
            pd == (|e: (u64, NetView)| net_dropped(f, e.1)),
            dead@ == slot_keys(s0.take(i as int).filter(pd)),
            forall|m: int| 0 <= m < dead@.len() ==> valid_key(#[trigger] dead@[m]),
        decreases keys.len() - i,
    {
        let k = keys[i];
        proof {
            lemma_slot_get_at(s0, i as int);
            crate::seqs::lemma_filter_take_step(s0, pd, i as int);
        }
        let n = net_slots_get(nets, k).unwrap();
        if is_dropped(&f, n) {
            dead.push(k);
            proof {
                assert(slot_keys(s0.take(i + 1).filter(pd)) =~= slot_keys(s0.take(i as int).filter(pd)).push(k));
            }
        }
        i = i + 1;
    }
    proof {
        crate::seqs::lemma_take_full(s0);
        lemma_listed_keys_filter(s0, pd, dead@);
        lemma_keys_wf(s0, keys@);
    }
    remove_net_keys(nets, &dead);
    proof {
        crate::seqs::lemma_filter_ext(s0,
            |e: (u64, NetView)| !pd(e),
            |e: (u64, NetView)| !net_dropped(f, e.1));
    }
}

/// Removes the pruned sinks from every net's sink list.
fn prune_all_sinks(nets: &mut NetSlots, f: SinkPrune)
    ensures
        net_slots(*final(nets)) == prune_all(net_slots(*old(nets)), f),
        slots_wf(net_slots(*old(nets))),
{
    let keys = net_slots_keys(nets);
    let ghost s0 = net_slots(*nets);
    let ghost n0 = s0.len();
    let mut i: usize = 0;
    while i < keys.len()
        invariant
            i <= keys.len(),
            keys@ == slot_keys(s0),
            keys@.no_duplicates(),
            n0 == s0.len(),
            forall|m: int| 0 <= m < keys@.len() ==> valid_key(#[trigger] keys@[m]),
            net_slots(*nets) == Seq::new(n0, |m: int| if m < i { (s0[m].0, pruned_net(f, s0[m].1)) } else { s0[m] }),
        decreases keys.len() - i,
    {
        let k = keys[i];
        let ghost cur = net_slots(*nets);
        proof {
            assert(slot_keys(cur) =~= slot_keys(s0));
            lemma_slot_get_at(cur, i as int);
        }
        let n = net_slots_get_mut(nets, k);
        let new_sinks = prune_sinks(&f, &n.sinks);
        n.sinks = new_sinks;
        proof {
            assert forall|m: int| 0 <= m < n0 implies cur[m].0 == k <==> m == i by {
                if cur[m].0 == k {
                    assert(slot_keys(s0)[m] == slot_keys(s0)[i as int]);
                }
            }
            assert(net_slots(*nets) =~= Seq::new(n0, |m: int| if m < i + 1 { (s0[m].0, pruned_net(f, s0[m].1)) } else { s0[m] }));
        }
        i = i + 1;
    }
    proof {
        assert(net_slots(*nets) =~= prune_all(s0, f));
        lemma_keys_wf(s0, keys@);
    }
}

} // verus!

verus! {

/// Whether a port list contains `p`.
pub fn endpoints_contain(v: &Vec<PortEndpoint>, p: PortEndpoint) -> (r: bool)
    ensures
        r == v@.contains(p),
{
    let mut i: usize = 0;
    while i < v.len()
        invariant
            i <= v.len(),
            forall|m: int| 0 <= m < i ==> v@[m] != p,
        decreases v.len() - i,
    {
        if v[i] == p {
            return true;
        }
        i = i + 1;
    }
    false
}

impl Circuit {
    /// The components, in iteration order.
    pub open spec fn comps(&self) -> Seq<(u64, NodeView)> {
        component_slots(self.components)
    }

    /// The nets, in iteration order.
    pub open spec fn net_seq(&self) -> Seq<(u64, NetView)> {
        net_slots(self.nets)
    }

    /// An empty circuit.
    pub fn new() -> (r: Self)
        ensures
            r.comps() == Seq::<(u64, NodeView)>::empty(),
            r.net_seq() == Seq::<(u64, NetView)>::empty(),
            r.subcircuits@ == Seq::<(String, SubcircuitDef)>::empty(),
    {
        Circuit {
            components: component_slots_new(),
            nets: net_slots_new(),
            subcircuits: Vec::new(),
        }
    }

    /// Places a new component; its id was not in use.
    pub fn add_component(&mut self, kind: GateKind, pos: (u32, u32)) -> (id: ComponentId)
        requires
            old(self).comps().len() + 1 < u32::MAX,
        ensures
            !slot_has(old(self).comps(), id@),
            exists|i: int|
                0 <= i <= old(self).comps().len() && final(self).comps() == old(self).comps().insert(
                    i,
                    (id@, spec_new_node(kind, pos)),
                ),
            final(self).net_seq() == old(self).net_seq(),
            final(self).subcircuits == old(self).subcircuits,
    {
        let node = ComponentNode::new(kind, pos);
        let raw = component_slots_insert(&mut self.components, node);
        ComponentId::from_key(raw)
    }

    /// Deletes a component together with the nets it drives; it is dropped
    /// from every sink list and nets left without sinks are deleted. An id
    /// not in the circuit changes nothing.
    pub fn remove_component(&mut self, id: ComponentId)
        ensures
            slot_has(old(self).comps(), id@) ==> {
                &&& final(self).comps() == slot_remove(old(self).comps(), id@)
                &&& final(self).net_seq() == spec_nets_without_component(old(self).net_seq(), id)
            },
            !slot_has(old(self).comps(), id@) ==> {
                &&& final(self).comps() == old(self).comps()
                &&& final(self).net_seq() == old(self).net_seq()
            },
            final(self).subcircuits == old(self).subcircuits,
            nets_wf(old(self).net_seq()) ==> nets_wf(final(self).net_seq()),
            sinks_wf(old(self).net_seq()) ==> sinks_wf(final(self).net_seq()),
    {
        proof {
            if nets_wf(old(self).net_seq()) {
                crate::settle_laws::lemma_wf_without_component(old(self).net_seq(), id);
            }
            if sinks_wf(old(self).net_seq()) {
                crate::settle_laws::lemma_sinks_wf_other_ops(old(self).net_seq(), id, 0);
            }
        }
        let removed = component_slots_remove(&mut self.components, id.raw());
        proof {
            if !slot_has(old(self).comps(), id@) {
                crate::slots::lemma_remove_absent(old(self).comps(), id@);
            }
        }
        if removed.is_some() {
            drop_nets(&mut self.nets, NetDrop::SourceIs(id));
            prune_all_sinks(&mut self.nets, SinkPrune::OfComponent(id));
            drop_nets(&mut self.nets, NetDrop::NoSinks);
        }
    }

    /// Disconnects input port `sink` from whatever drives it (nets left
    /// without sinks are deleted) and drives the port low.
    pub fn disconnect_sink(&mut self, sink: PortEndpoint)
        ensures
            final(self).net_seq() == spec_nets_without_sink(old(self).net_seq(), sink),
            final(self).comps() == spec_comps_sink_low(old(self).comps(), sink),
            final(self).subcircuits == old(self).subcircuits,
            nets_wf(old(self).net_seq()) ==> nets_wf(final(self).net_seq()),
            sinks_wf(old(self).net_seq()) ==> sinks_wf(final(self).net_seq()),
    {
        proof {
            if nets_wf(old(self).net_seq()) {
                crate::settle_laws::lemma_wf_without_sink(old(self).net_seq(), sink);
            }
            if sinks_wf(old(self).net_seq()) {
                crate::settle_laws::lemma_sinks_wf_without_sink(old(self).net_seq(), sink);
            }
        }
        prune_all_sinks(&mut self.nets, SinkPrune::Exactly(sink));
        drop_nets(&mut self.nets, NetDrop::NoSinks);
        let cid = sink.component_id.raw();
        let in_range = match component_slots_get(&self.components, cid) {
            Some(c) => sink.port_index < c.input_signals.len(),
            None => false,
        };
        if in_range {
            let comp = component_slots_get_mut(&mut self.components, cid);
            comp.input_signals.set(sink.port_index, Signal::Zero);
        }
    }

    /// The first net (in iteration order) with `sink` among its sinks.
    pub fn find_net_driving_sink(&self, sink: PortEndpoint) -> (r: Option<NetId>)
        ensures
            found_first(self.net_seq(), r, net_feeds(sink)),
    {
        let keys = net_slots_keys(&self.nets);
        let ghost s0 = self.net_seq();
        let mut i: usize = 0;
        while i < keys.len()
            invariant
                i <= keys.len(),
                keys@ == slot_keys(s0),
                s0 == self.net_seq(),
                keys@.no_duplicates(),
                forall|m: int| 0 <= m < keys@.len() ==> valid_key(#[trigger] keys@[m]),
                forall|j: int| 0 <= j < i ==> !(#[trigger] s0[j].1).sinks.contains(sink),
            decreases keys.len() - i,
        {
            proof { lemma_slot_get_at(s0, i as int); }
            let n = net_slots_get(&self.nets, keys[i]).unwrap();
            if endpoints_contain(&n.sinks, sink) {
                let r = Some(NetId::from_key(keys[i]));
                assert(first_net_where(s0, i as int, net_feeds(sink)));
                return r;
            }
            i = i + 1;
        }
        None
    }

    /// The first net (in iteration order) driven by `source`.
    pub fn find_net_from_source(&self, source: PortEndpoint) -> (r: Option<NetId>)
        ensures
            found_first(self.net_seq(), r, net_from(source)),
    {
        let keys = net_slots_keys(&self.nets);
        let ghost s0 = self.net_seq();
        let mut i: usize = 0;
        while i < keys.len()
            invariant
                i <= keys.len(),
                keys@ == slot_keys(s0),
                s0 == self.net_seq(),
                keys@.no_duplicates(),
                forall|m: int| 0 <= m < keys@.len() ==> valid_key(#[trigger] keys@[m]),
                forall|j: int| 0 <= j < i ==> (#[trigger] s0[j].1).source != source,
            decreases keys.len() - i,
        {
            proof { lemma_slot_get_at(s0, i as int); }
            let n = net_slots_get(&self.nets, keys[i]).unwrap();
            if n.source == source {
                let r = Some(NetId::from_key(keys[i]));
                assert(first_net_where(s0, i as int, net_from(source)));
                return r;
            }
            i = i + 1;
        }
        None
    }
}

} // verus!

verus! {

// ------------------------------------------------------------------
// The wiring among a group of components, renamed
// ------------------------------------------------------------------

/// The partner of `id` in a list of `(old, new)` id pairs: the new id of the
/// first pair whose old id is `id`.
pub open spec fn id_partner(map: Seq<(ComponentId, ComponentId)>, id: ComponentId) -> Option<ComponentId>
    decreases map.len(),
{
    if map.len() == 0 {
        None
    } else if map[0].0 == id {
        Some(map[0].1)
    } else {
        id_partner(map.drop_first(), id)
    }
}

/// The wires from `src` to each sink of `sinks` that has a partner, the
/// sink renamed to its partner, in order.
pub open spec fn sink_wires(src: PortEndpoint, sinks: Seq<PortEndpoint>, map: Seq<(ComponentId, ComponentId)>) -> Seq<(PortEndpoint, PortEndpoint)>
    decreases sinks.len(),
{
    if sinks.len() == 0 {
        Seq::empty()
    } else {
        let r = sink_wires(src, sinks.drop_last(), map);
        match id_partner(map, sinks.last().component_id) {
            Some(t) => r.push((src, PortEndpoint { component_id: t, ..sinks.last() })),
            None => r,
        }
    }
}

/// The wires of the nets whose source has a partner, to the sinks that have
/// one, both ends renamed: net by net in order, each net's sinks in order.
pub open spec fn spec_internal_wires(nets: Seq<(u64, NetView)>, map: Seq<(ComponentId, ComponentId)>) -> Seq<(PortEndpoint, PortEndpoint)>
    decreases nets.len(),
{
    if nets.len() == 0 {
        Seq::empty()
    } else {
        let r = spec_internal_wires(nets.drop_last(), map);
        let n = nets.last().1;
        match id_partner(map, n.source.component_id) {
            Some(s) => r + sink_wires(PortEndpoint { component_id: s, ..n.source }, n.sinks, map),
            None => r,
        }
    }
}

/// The partner of `id` (see `id_partner`).
fn partner(map: &Vec<(ComponentId, ComponentId)>, id: ComponentId) -> (r: Option<ComponentId>)
    ensures
        r == id_partner(map@, id),
{
    let mut i: usize = 0;
    assert(map@.skip(0) =~= map@);
    while i < map.len()
        invariant
            i <= map.len(),
            id_partner(map@.skip(i as int), id) == id_partner(map@, id),
        decreases map.len() - i,
    {
        assert(map@.skip(i as int)[0] == map@[i as int]);
        if map[i].0 == id {
            return Some(map[i].1);
        }
        assert(map@.skip(i as int).drop_first() =~= map@.skip(i + 1));
        i = i + 1;
    }
    None
}

impl Circuit {
    /// The wiring among the components listed as old ids in `map`, renamed
    /// to their new ids (see `spec_internal_wires`): what connecting each
    /// pair with `connect_ports` rebuilds among the copies.
    pub fn internal_wires(&self, map: &Vec<(ComponentId, ComponentId)>) -> (r: Vec<(PortEndpoint, PortEndpoint)>)
        ensures
            r@ == spec_internal_wires(self.net_seq(), map@),
    {
        let keys = net_slots_keys(&self.nets);
        let ghost s0 = self.net_seq();
        let mut out: Vec<(PortEndpoint, PortEndpoint)> = Vec::new();
        let mut i: usize = 0;
        while i < keys.len()
            invariant
                i <= keys.len(),
                keys@ == slot_keys(s0),
                keys@.no_duplicates(),
                s0 == self.net_seq(),
                forall|m: int| 0 <= m < keys@.len() ==> valid_key(#[trigger] keys@[m]),
                out@ == spec_internal_wires(s0.take(i as int), map@),
            decreases keys.len() - i,
        {
            proof {
                lemma_slot_get_at(s0, i as int);
                assert(s0.take(i + 1).drop_last() =~= s0.take(i as int));
                assert(s0.take(i + 1).last() == s0[i as int]);
            }
            let n = net_slots_get(&self.nets, keys[i]).unwrap();
            match partner(map, n.source.component_id) {
                Some(s) => {
                    let src = PortEndpoint { component_id: s, ..n.source };
                    let ghost base = out@;
                    let mut j: usize = 0;
                    while j < n.sinks.len()
                        invariant
                            j <= n.sinks@.len(),
                            out@ == base + sink_wires(src, n.sinks@.take(j as int), map@),
                        decreases n.sinks@.len() - j,
                    {
                        let sk = n.sinks[j];
                        proof {
                            assert(n.sinks@.take(j + 1).drop_last() =~= n.sinks@.take(j as int));
                            assert(n.sinks@.take(j + 1).last() == sk);
                        }
                        match partner(map, sk.component_id) {
                            Some(t) => {
                                out.push((src, PortEndpoint { component_id: t, ..sk }));
                                assert(out@ =~= base + sink_wires(src, n.sinks@.take(j + 1), map@));
                            },
                            None => {},
                        }
                        j = j + 1;
                    }
                    assert(n.sinks@.take(n.sinks@.len() as int) =~= n.sinks@);
                },
                None => {},
            }
            i = i + 1;
        }
        assert(s0.take(keys@.len() as int) =~= s0);
        out
    }
}

/// A net with a sink other than `sink` survives disconnecting `sink`,
/// under its key and with its source.
proof fn lemma_net_survives(nets: Seq<(u64, NetView)>, sink: PortEndpoint, m: int, x: int)
    requires
        0 <= m < nets.len(),
        0 <= x < nets[m].1.sinks.len(),
        nets[m].1.sinks[x] != sink,
    ensures
        exists|i: int|
            0 <= i < spec_nets_without_sink(nets, sink).len() && (#[trigger] spec_nets_without_sink(nets, sink)[i]).0
                == nets[m].0 && spec_nets_without_sink(nets, sink)[i].1.source == nets[m].1.source,
{
    let f = SinkPrune::Exactly(sink);
    let pr = prune_all(nets, f);
    let ks = |q: PortEndpoint| sink_kept(f, q);
    assert(pr[m].1.sinks == nets[m].1.sinks.filter(ks));
    nets[m].1.sinks.lemma_filter_contains(ks, x);
    assert(pr[m].1.sinks.len() > 0);
    let keep = |e: (u64, NetView)| !net_dropped(NetDrop::NoSinks, e.1);
    pr.lemma_filter_contains(keep, m);
    let r = pr.filter(keep);
    assert(r == spec_nets_without_sink(nets, sink));
    let i = choose|i: int| 0 <= i < r.len() && r[i] == pr[m];
    assert(r[i].0 == nets[m].0 && r[i].1.source == nets[m].1.source);
}

/// Output signal `port` of the component, or `Zero` when there is none.
fn output_or_zero(comps: &ComponentSlots, p: PortEndpoint) -> (r: Signal)
    ensures
        r == spec_output_or_zero(component_slots(*comps), p.component_id@, p.port_index as int),
{
    match component_slots_get(comps, p.component_id.raw()) {
        Some(c) => if p.port_index < c.output_signals.len() {
            c.output_signals[p.port_index]
        } else {
            Signal::Zero
        },
        None => Signal::Zero,
    }
}

impl Circuit {
    /// Wires output port `source` to input port `sink`. Refused (`None`,
    /// nothing changes) unless `source` is an output, `sink` is an input and
    /// they belong to different components. Otherwise `sink` is first
    /// disconnected; then it joins the first net driven by `source`, or a new
    /// net is made for it. The net's signal is set from the source's current
    /// output (`Zero` if absent) and its id is returned.
    pub fn connect_ports(&mut self, source: PortEndpoint, sink: PortEndpoint) -> (r: Option<NetId>)
        requires
            old(self).net_seq().len() + 1 < u32::MAX,
        ensures
            final(self).subcircuits == old(self).subcircuits,
            nets_wf(old(self).net_seq()) ==> nets_wf(final(self).net_seq()),
            sinks_wf(old(self).net_seq()) ==> sinks_wf(final(self).net_seq()),
            !source.is_output || sink.is_output || source.component_id == sink.component_id ==> {
                &&& r is None
                &&& final(self).comps() == old(self).comps()
                &&& final(self).net_seq() == old(self).net_seq()
            },
            source.is_output && !sink.is_output && source.component_id != sink.component_id ==> {
                let nets1 = spec_nets_without_sink(old(self).net_seq(), sink);
                let comps1 = spec_comps_sink_low(old(self).comps(), sink);
                let init = spec_output_or_zero(comps1, source.component_id@, source.port_index as int);
                &&& final(self).comps() == comps1
                &&& r is Some
                &&& forall|i: int|
                    first_net_where(nets1, i, net_from(source)) ==> {
                        &&& r.unwrap()@ == nets1[i].0
                        &&& final(self).net_seq() == slot_set(
                            nets1,
                            nets1[i].0,
                            NetView {
                                sinks: if nets1[i].1.sinks.contains(sink) {
                                    nets1[i].1.sinks
                                } else {
                                    nets1[i].1.sinks.push(sink)
                                },
                                current_signal: init,
                                ..nets1[i].1
                            },
                        )
                    }
                &&& (forall|i: int| 0 <= i < nets1.len() ==> (#[trigger] nets1[i].1).source != source) ==> {
                    &&& !slot_has(nets1, r.unwrap()@)
                    &&& exists|j: int|
                        0 <= j <= nets1.len() && final(self).net_seq() == nets1.insert(
                            j,
                            (r.unwrap()@, NetView {
                                source,
                                sinks: seq![sink],
                                current_signal: init,
                                label: None,
                            }),
                        )
                }
            },
            // The net returned is driven by `source`, feeds `sink` and carries
            // the source's output.
            source.is_output && !sink.is_output && source.component_id != sink.component_id ==> exists|i: int|
                0 <= i < final(self).net_seq().len() && (#[trigger] final(self).net_seq()[i]).0 == r.unwrap()@
                    && final(self).net_seq()[i].1.source == source && final(self).net_seq()[i].1.sinks.contains(sink)
                    && final(self).net_seq()[i].1.current_signal == spec_output_or_zero(
                    final(self).comps(),
                    source.component_id@,
                    source.port_index as int,
                ),
            // No other net feeds `sink`.
            source.is_output && !sink.is_output && source.component_id != sink.component_id && sinks_wf(old(self).net_seq())
                ==> forall|i: int|
                0 <= i < final(self).net_seq().len() && (#[trigger] final(self).net_seq()[i]).0 != r.unwrap()@
                    ==> !final(self).net_seq()[i].1.sinks.contains(sink),
            // Fan-out: a net `source` already drives (to another sink) is reused.
            source.is_output && !sink.is_output && source.component_id != sink.component_id && nets_wf(old(self).net_seq())
                ==> forall|m: int, x: int|
                0 <= m < old(self).net_seq().len() && old(self).net_seq()[m].1.source == source && 0 <= x
                    < old(self).net_seq()[m].1.sinks.len() && (#[trigger] old(self).net_seq()[m].1.sinks[x]) != sink ==> r.unwrap()@
                    == old(self).net_seq()[m].0,
    {
        if !source.is_output || sink.is_output {
            return None;
        }
        if source.component_id == sink.component_id {
            return None;
        }
        self.disconnect_sink(sink);
        let ghost nets1 = self.net_seq();
        let existing = self.find_net_from_source(source);
        let initial = output_or_zero(&self.components, source);
        match existing {
            Some(nid) => {
                let keys = net_slots_keys(&self.nets);
                proof {
                    let i = choose|i: int| first_net_where(nets1, i, net_from(source)) && nets1[i].0 == nid@;
                    lemma_slot_get_at(nets1, i);
                    assert forall|j: int| #[trigger] first_net_where(nets1, j, net_from(source)) implies j == i by {
                        if j < i {
                            assert(!net_from(source)(nets1[j].1));
                        }
                        if i < j {
                            assert(!net_from(source)(nets1[i].1));
                        }
                    }
                }
                let net = net_slots_get_mut(&mut self.nets, nid.raw());
                if !endpoints_contain(&net.sinks, sink) {
                    net.sinks.push(sink);
                }
                net.current_signal = initial;
                proof {
                    if nets_wf(old(self).net_seq()) {
                        crate::settle_laws::lemma_wf_without_sink(old(self).net_seq(), sink);
                        let i = choose|i: int| first_net_where(nets1, i, net_from(source)) && nets1[i].0 == nid@;
                        let v = NetView {
                            sinks: if nets1[i].1.sinks.contains(sink) { nets1[i].1.sinks } else { nets1[i].1.sinks.push(sink) },
                            current_signal: initial,
                            ..nets1[i].1
                        };
                        crate::settle_laws::lemma_wf_set_source(nets1, i, v);
                    }
                    if sinks_wf(old(self).net_seq()) {
                        crate::settle_laws::lemma_sinks_wf_without_sink(old(self).net_seq(), sink);
                        let i = choose|i: int| first_net_where(nets1, i, net_from(source)) && nets1[i].0 == nid@;
                        let v = NetView {
                            sinks: if nets1[i].1.sinks.contains(sink) { nets1[i].1.sinks } else { nets1[i].1.sinks.push(sink) },
                            current_signal: initial,
                            ..nets1[i].1
                        };
                        crate::settle_laws::lemma_sinks_wf_join(nets1, i, v, sink);
                    }
                    let i = choose|i: int| first_net_where(nets1, i, net_from(source)) && nets1[i].0 == nid@;
                    let v = NetView {
                        sinks: if nets1[i].1.sinks.contains(sink) { nets1[i].1.sinks } else { nets1[i].1.sinks.push(sink) },
                        current_signal: initial,
                        ..nets1[i].1
                    };
                    crate::slots::lemma_slot_set_at(nets1, i, v);
                    assert(self.net_seq() == nets1.update(i, (nets1[i].0, v)));
                    if !nets1[i].1.sinks.contains(sink) {
                        assert(v.sinks[nets1[i].1.sinks.len() as int] == sink);
                    }
                    assert(self.net_seq()[i].1.sinks.contains(sink));
                    if sinks_wf(old(self).net_seq()) {
                        crate::settle_laws::lemma_sinks_wf_without_sink(old(self).net_seq(), sink);
                        assert forall|j: int|
                            0 <= j < self.net_seq().len() && (#[trigger] self.net_seq()[j]).0 != nid@ implies !self.net_seq()[j].1.sinks.contains(
                            sink,
                        ) by {
                            assert(j != i);
                            assert(self.net_seq()[j] == nets1[j]);
                        }
                    }
                    if nets_wf(old(self).net_seq()) {
                        crate::settle_laws::lemma_wf_without_sink(old(self).net_seq(), sink);
                        let o = old(self).net_seq();
                        assert forall|m: int, x: int|
                            0 <= m < o.len() && o[m].1.source == source && 0 <= x < o[m].1.sinks.len() && (#[trigger] o[m].1.sinks[x])
                                != sink implies nid@ == o[m].0 by {
                            lemma_net_survives(o, sink, m, x);
                            let i2 = choose|i2: int|
                                0 <= i2 < nets1.len() && (#[trigger] nets1[i2]).0 == o[m].0 && nets1[i2].1.source == o[m].1.source;
                            if i2 != i {
                                assert(nets1[i2].1.source != nets1[i].1.source);
                            }
                        }
                    }
                }
                Some(nid)
            },
            None => {
                let net = Net { source, sinks: vec![sink], current_signal: initial, label: None };
                assert(net@.sinks =~= seq![sink]);
                let raw = net_slots_insert(&mut self.nets, net);
                proof {
                    if nets_wf(old(self).net_seq()) {
                        crate::settle_laws::lemma_wf_without_sink(old(self).net_seq(), sink);
                        let j = choose|j: int| 0 <= j <= nets1.len() && self.net_seq() == nets1.insert(j, (raw, net@));
                        crate::settle_laws::lemma_wf_insert(nets1, j, (raw, net@));
                    }
                    if sinks_wf(old(self).net_seq()) {
                        crate::settle_laws::lemma_sinks_wf_without_sink(old(self).net_seq(), sink);
                        let j = choose|j: int| 0 <= j <= nets1.len() && self.net_seq() == nets1.insert(j, (raw, net@));
                        crate::settle_laws::lemma_sinks_wf_insert(nets1, j, (raw, net@), sink);
                    }
                    let j = choose|j: int| 0 <= j <= nets1.len() && self.net_seq() == nets1.insert(j, (raw, net@));
                    assert(self.net_seq()[j] == (raw, net@));
                    assert(net@.sinks[0] == sink);
                    if sinks_wf(old(self).net_seq()) {
                        crate::settle_laws::lemma_sinks_wf_without_sink(old(self).net_seq(), sink);
                        assert forall|k: int|
                            0 <= k < self.net_seq().len() && (#[trigger] self.net_seq()[k]).0 != raw implies !self.net_seq()[k].1.sinks.contains(
                            sink,
                        ) by {
                            if k < j {
                                assert(self.net_seq()[k] == nets1[k]);
                            } else {
                                assert(k != j);
                                assert(self.net_seq()[k] == nets1[k - 1]);
                            }
                        }
                    }
                    if nets_wf(old(self).net_seq()) {
                        let o = old(self).net_seq();
                        assert forall|m: int, x: int|
                            0 <= m < o.len() && o[m].1.source == source && 0 <= x < o[m].1.sinks.len() && (#[trigger] o[m].1.sinks[x])
                                != sink implies raw == o[m].0 by {
                            lemma_net_survives(o, sink, m, x);
                            let i2 = choose|i2: int|
                                0 <= i2 < nets1.len() && (#[trigger] nets1[i2]).0 == o[m].0 && nets1[i2].1.source == o[m].1.source;
                            assert(nets1[i2].1.source != source);
                        }
                    }
                }
                Some(NetId::from_key(raw))
            },
        }
    }
}

} // verus!

verus! {

impl Circuit {
    /// Resizes the inputs of `id` (clamped to 1..=16, new ports low) and
    /// drops the removed input ports (those from the clamped count on) of
    /// `id` from every sink list, deleting nets left without sinks.
    pub fn set_component_input_count(&mut self, id: ComponentId, count: usize)
        ensures
            final(self).comps() == spec_update_node(
                old(self).comps(),
                id@,
                |n: NodeView| NodeView { input_signals: resized(n.input_signals, clamp_port_count(count as int)), ..n },
            ),
            final(self).net_seq() == spec_nets_pruned_inputs(old(self).net_seq(), id, clamp_count(count)),
            final(self).subcircuits == old(self).subcircuits,
            nets_wf(old(self).net_seq()) ==> nets_wf(final(self).net_seq()),
            sinks_wf(old(self).net_seq()) ==> sinks_wf(final(self).net_seq()),
    {
        proof {
            if nets_wf(old(self).net_seq()) {
                crate::settle_laws::lemma_wf_pruned_ports(old(self).net_seq(), id, clamp_count(count));
            }
            if sinks_wf(old(self).net_seq()) {
                crate::settle_laws::lemma_sinks_wf_other_ops(old(self).net_seq(), id, clamp_count(count));
            }
        }
        if component_slots_get(&self.components, id.raw()).is_some() {
            let comp = component_slots_get_mut(&mut self.components, id.raw());
            comp.set_input_count(count);
        }
        let kept = clamp_count_exec(count);
        prune_all_sinks(&mut self.nets, SinkPrune::InputsFrom(id, kept));
        drop_nets(&mut self.nets, NetDrop::NoSinks);
    }

    /// Resizes the outputs of `id` (clamped to 1..=16, new ports low) and
    /// deletes the nets driven by its removed output ports (those from the
    /// clamped count on).
    pub fn set_component_output_count(&mut self, id: ComponentId, count: usize)
        ensures
            final(self).comps() == spec_update_node(
                old(self).comps(),
                id@,
                |n: NodeView| NodeView { output_signals: resized(n.output_signals, clamp_port_count(count as int)), ..n },
            ),
            final(self).net_seq() == spec_nets_pruned_outputs(old(self).net_seq(), id, clamp_count(count)),
            final(self).subcircuits == old(self).subcircuits,
            nets_wf(old(self).net_seq()) ==> nets_wf(final(self).net_seq()),
            sinks_wf(old(self).net_seq()) ==> sinks_wf(final(self).net_seq()),
    {
        proof {
            if nets_wf(old(self).net_seq()) {
                crate::settle_laws::lemma_wf_pruned_ports(old(self).net_seq(), id, clamp_count(count));
            }
            if sinks_wf(old(self).net_seq()) {
                crate::settle_laws::lemma_sinks_wf_other_ops(old(self).net_seq(), id, clamp_count(count));
            }
        }
        if component_slots_get(&self.components, id.raw()).is_some() {
            let comp = component_slots_get_mut(&mut self.components, id.raw());
            comp.set_output_count(count);
        }
        let kept = clamp_count_exec(count);
        drop_nets(&mut self.nets, NetDrop::SourcePortFrom(id, kept));
    }

    pub fn set_component_rotation(&mut self, id: ComponentId, rot: Rotation)
        ensures
            final(self).comps() == spec_update_node(old(self).comps(), id@, |n: NodeView| NodeView { rotation: rot, ..n }),
            final(self).net_seq() == old(self).net_seq(),
            final(self).subcircuits == old(self).subcircuits,
    {
        if component_slots_get(&self.components, id.raw()).is_some() {
            let comp = component_slots_get_mut(&mut self.components, id.raw());
            comp.rotation = rot;
        }
    }

    pub fn set_component_label(&mut self, id: ComponentId, label: String)
        ensures
            final(self).comps() == spec_update_node(old(self).comps(), id@, |n: NodeView| NodeView { label: label@, ..n }),
            final(self).net_seq() == old(self).net_seq(),
            final(self).subcircuits == old(self).subcircuits,
    {
        if component_slots_get(&self.components, id.raw()).is_some() {
            let comp = component_slots_get_mut(&mut self.components, id.raw());
            comp.label = label;
        }
    }

    pub fn set_component_bit_width(&mut self, id: ComponentId, bit_width: u8)
        ensures
            final(self).comps() == spec_update_node(old(self).comps(), id@, |n: NodeView| NodeView { bit_width, ..n }),
            final(self).net_seq() == old(self).net_seq(),
            final(self).subcircuits == old(self).subcircuits,
    {
        if component_slots_get(&self.components, id.raw()).is_some() {
            let comp = component_slots_get_mut(&mut self.components, id.raw());
            comp.bit_width = bit_width;
        }
    }

    /// Sets the clock frequency (an `f32` bit pattern) of `id`.
    pub fn set_component_clock_hz(&mut self, id: ComponentId, clock_hz: u32)
        ensures
            final(self).comps() == spec_update_node(old(self).comps(), id@, |n: NodeView| NodeView { clock_hz, ..n }),
            final(self).net_seq() == old(self).net_seq(),
            final(self).subcircuits == old(self).subcircuits,
    {
        if component_slots_get(&self.components, id.raw()).is_some() {
            let comp = component_slots_get_mut(&mut self.components, id.raw());
            comp.clock_hz = clock_hz;
        }
    }

    /// Sets the on/off (switch), level (clock) or stored bit of `id`.
    pub fn set_component_state(&mut self, id: ComponentId, state_flag: bool)
        ensures
            final(self).comps() == spec_update_node(old(self).comps(), id@, |n: NodeView| NodeView { state_flag, ..n }),
            final(self).net_seq() == old(self).net_seq(),
            final(self).subcircuits == old(self).subcircuits,
    {
        if component_slots_get(&self.components, id.raw()).is_some() {
            let comp = component_slots_get_mut(&mut self.components, id.raw());
            comp.state_flag = state_flag;
        }
    }

    /// Moves `id` to `pos` (an `f32` bit-pattern pair).
    pub fn set_component_pos(&mut self, id: ComponentId, pos: (u32, u32))
        ensures
            final(self).comps() == spec_update_node(old(self).comps(), id@, |n: NodeView| NodeView { pos, ..n }),
            final(self).net_seq() == old(self).net_seq(),
            final(self).subcircuits == old(self).subcircuits,
    {
        if component_slots_get(&self.components, id.raw()).is_some() {
            let comp = component_slots_get_mut(&mut self.components, id.raw());
            comp.pos = pos;
        }
    }

    /// Replaces the memory of `id`.
    pub fn set_component_memory(&mut self, id: ComponentId, memory: Vec<u8>)
        ensures
            final(self).comps() == spec_update_node(old(self).comps(), id@, |n: NodeView| NodeView { memory: memory@, ..n }),
            final(self).net_seq() == old(self).net_seq(),
            final(self).subcircuits == old(self).subcircuits,
    {
        if component_slots_get(&self.components, id.raw()).is_some() {
            let comp = component_slots_get_mut(&mut self.components, id.raw());
            comp.memory = memory;
        }
    }

    /// Writes the 4-bit word `value & 0xF` to memory cell `index` of `id`;
    /// a memory too short for the cell is first padded with zeros to 16
    /// cells.
    pub fn set_memory_word(&mut self, id: ComponentId, index: usize, value: u8)
        requires
            index < 16,
        ensures
            final(self).comps() == spec_update_node(
                old(self).comps(),
                id@,
                |n: NodeView| NodeView { memory: memory_with_word(n.memory, index as int, value), ..n },
            ),
            final(self).net_seq() == old(self).net_seq(),
            final(self).subcircuits == old(self).subcircuits,
    {
        let mut mem = match component_slots_get(&self.components, id.raw()) {
            Some(c) => copy_bytes(&c.memory),
            None => return,
        };
        let ghost m0 = mem@;
        if mem.len() <= index {
            while mem.len() < 16
                invariant
                    m0.len() <= index < 16,
                    m0.len() <= mem@.len() <= 16,
                    mem@ == m0 + Seq::new((mem@.len() - m0.len()) as nat, |i: int| 0u8),
                decreases 16 - mem@.len(),
            {
                mem.push(0);
                proof {
                    assert(mem@ =~= m0 + Seq::new((mem@.len() - m0.len()) as nat, |i: int| 0u8));
                }
            }
        }
        mem.set(index, value & 0xF);
        let comp = component_slots_get_mut(&mut self.components, id.raw());
        comp.memory = mem;
    }

    /// Sets the remembered clock level of `id`.
    pub fn set_component_clock_prev(&mut self, id: ComponentId, clock_prev: bool)
        ensures
            final(self).comps() == spec_update_node(old(self).comps(), id@, |n: NodeView| NodeView { clock_prev, ..n }),
            final(self).net_seq() == old(self).net_seq(),
            final(self).subcircuits == old(self).subcircuits,
    {
        if component_slots_get(&self.components, id.raw()).is_some() {
            let comp = component_slots_get_mut(&mut self.components, id.raw());
            comp.clock_prev = clock_prev;
        }
    }

    /// Replaces the input and output levels of `id`.
    pub fn set_component_signals(&mut self, id: ComponentId, inputs: Vec<Signal>, outputs: Vec<Signal>)
        ensures
            final(self).comps() == spec_update_node(
                old(self).comps(),
                id@,
                |n: NodeView| NodeView { input_signals: inputs@, output_signals: outputs@, ..n },
            ),
            final(self).net_seq() == old(self).net_seq(),
            final(self).subcircuits == old(self).subcircuits,
    {
        if component_slots_get(&self.components, id.raw()).is_some() {
            let comp = component_slots_get_mut(&mut self.components, id.raw());
            comp.input_signals = inputs;
            comp.output_signals = outputs;
        }
    }

    /// Sets the level a net carries.
    pub fn set_net_signal(&mut self, id: NetId, sig: Signal)
        ensures
            final(self).net_seq() == spec_update_net(old(self).net_seq(), id@, |n: NetView| NetView { current_signal: sig, ..n }),
            final(self).comps() == old(self).comps(),
            final(self).subcircuits == old(self).subcircuits,
    {
        if net_slots_get(&self.nets, id.raw()).is_some() {
            let net = net_slots_get_mut(&mut self.nets, id.raw());
            net.current_signal = sig;
        }
    }

    /// Sets or clears the label of a net.
    pub fn set_net_label(&mut self, id: NetId, label: Option<String>)
        ensures
            final(self).net_seq() == spec_update_net(
                old(self).net_seq(),
                id@,
                |n: NetView| NetView { label: opt_string_view(label), ..n },
            ),
            final(self).comps() == old(self).comps(),
            final(self).subcircuits == old(self).subcircuits,
    {
        if net_slots_get(&self.nets, id.raw()).is_some() {
            let net = net_slots_get_mut(&mut self.nets, id.raw());
            net.label = label;
        }
    }

    /// The component under `id`, if any.
    pub fn component(&self, id: ComponentId) -> (r: Option<&ComponentNode>)
        ensures
            r is Some <==> slot_has(self.comps(), id@),
            r matches Some(n) ==> Some(n@) == slot_get(self.comps(), id@),
    {
        component_slots_get(&self.components, id.raw())
    }

    /// The net under `id`, if any.
    pub fn net(&self, id: NetId) -> (r: Option<&Net>)
        ensures
            r is Some <==> slot_has(self.net_seq(), id@),
            r matches Some(n) ==> Some(n@) == slot_get(self.net_seq(), id@),
    {
        net_slots_get(&self.nets, id.raw())
    }

    /// The component ids in iteration order.
    pub fn component_ids(&self) -> (r: Vec<ComponentId>)
        ensures
            r@.map_values(|id: ComponentId| id@) == slot_keys(self.comps()),
    {
        let keys = component_slots_keys(&self.components);
        let mut out: Vec<ComponentId> = Vec::new();
        let mut i: usize = 0;
        while i < keys.len()
            invariant
                i <= keys.len(),
                forall|m: int| 0 <= m < keys@.len() ==> valid_key(#[trigger] keys@[m]),
                out@.map_values(|id: ComponentId| id@) == keys@.take(i as int),
            decreases keys.len() - i,
        {
            let ghost prev = out@;
            let nid = ComponentId::from_key(keys[i]);
            out.push(nid);
            assert(out@ == prev.push(nid));
            assert(keys@.take(i + 1) =~= keys@.take(i as int).push(keys@[i as int]));
            assert(out@.map_values(|id: ComponentId| id@) =~= prev.map_values(|id: ComponentId| id@).push(nid@));
            i = i + 1;
        }
        assert(keys@.take(keys@.len() as int) =~= keys@);
        out
    }

    /// The net ids in iteration order.
    pub fn net_ids(&self) -> (r: Vec<NetId>)
        ensures
            r@.map_values(|id: NetId| id@) == slot_keys(self.net_seq()),
    {
        let keys = net_slots_keys(&self.nets);
        let mut out: Vec<NetId> = Vec::new();
        let mut i: usize = 0;
        while i < keys.len()
            invariant
                i <= keys.len(),
                forall|m: int| 0 <= m < keys@.len() ==> valid_key(#[trigger] keys@[m]),
                out@.map_values(|id: NetId| id@) == keys@.take(i as int),
            decreases keys.len() - i,
        {
            let ghost prev = out@;
            let nid = NetId::from_key(keys[i]);
            out.push(nid);
            assert(out@ == prev.push(nid));
            assert(keys@.take(i + 1) =~= keys@.take(i as int).push(keys@[i as int]));
            assert(out@.map_values(|id: NetId| id@) =~= prev.map_values(|id: NetId| id@).push(nid@));
            i = i + 1;
        }
        assert(keys@.take(keys@.len() as int) =~= keys@);
        out
    }

    /// Number of components.
    pub fn component_count(&self) -> (r: usize)
        ensures
            r == self.comps().len(),
    {
        component_slots_keys(&self.components).len()
    }

    /// Number of nets.
    pub fn net_count(&self) -> (r: usize)
        ensures
            r == self.net_seq().len(),
    {
        net_slots_keys(&self.nets).len()
    }

    /// Registers (or replaces) the subcircuit definition used by instances
    /// named `name`.
    pub fn insert_subcircuit(&mut self, name: String, def: SubcircuitDef)
        ensures
            final(self).comps() == old(self).comps(),
            final(self).net_seq() == old(self).net_seq(),
            (exists|i: int| 0 <= i < old(self).subcircuits@.len() && (#[trigger] old(self).subcircuits@[i]).0@ == name@) ==>
                final(self).subcircuits@.len() == old(self).subcircuits@.len(),
            (forall|i: int| 0 <= i < old(self).subcircuits@.len() ==> (#[trigger] old(self).subcircuits@[i]).0@ != name@) ==>
                final(self).subcircuits@ == old(self).subcircuits@.push((name, def)),
            forall|n: Seq<char>| n != name@ ==> lib_lookup(final(self).subcircuits@, n) == lib_lookup(old(self).subcircuits@, n),
            lib_lookup(final(self).subcircuits@, name@) == Some(def),
    {
        let mut i: usize = 0;
        while i < self.subcircuits.len()
            invariant
                i <= self.subcircuits.len(),
                self.subcircuits == old(self).subcircuits,
                self.components == old(self).components,
                self.nets == old(self).nets,
                forall|j: int| 0 <= j < i ==> (#[trigger] self.subcircuits@[j]).0@ != name@,
            decreases self.subcircuits.len() - i,
        {
            if self.subcircuits[i].0.eq(&name) {
                let ghost before = self.subcircuits@;
                let entry = (name, def);
                self.subcircuits.set(i, entry);
                proof { lemma_lib_lookup_set(before, i as int, entry); }
                return;
            }
            i = i + 1;
        }
        let ghost before = self.subcircuits@;
        self.subcircuits.push((name, def));
        proof { lemma_lib_lookup_push(before, (name, def)); }
    }

    /// The definition instances named `name` evaluate, if registered.
    pub fn subcircuit(&self, name: &str) -> (r: Option<&SubcircuitDef>)
        ensures
            r matches Some(d) ==> lib_lookup(self.subcircuits@, name@) == Some(*d),
            r is None ==> lib_lookup(self.subcircuits@, name@) is None,
    {
        let mut i: usize = 0;
        while i < self.subcircuits.len()
            invariant
                i <= self.subcircuits.len(),
                forall|j: int| 0 <= j < i ==> (#[trigger] self.subcircuits@[j]).0@ != name@,
            decreases self.subcircuits.len() - i,
        {
            if str_eq(self.subcircuits[i].0.as_str(), name) {
                proof { lemma_lib_lookup_at(self.subcircuits@, i as int, name@); }
                return Some(&self.subcircuits[i].1);
            }
            i = i + 1;
        }
        proof { lemma_lib_lookup_absent(self.subcircuits@, name@); }
        None
    }
}

/// The first definition registered under `name`.
pub open spec fn lib_lookup(lib: Seq<(String, SubcircuitDef)>, name: Seq<char>) -> Option<SubcircuitDef>
    decreases lib.len(),
{
    if lib.len() == 0 {
        None
    } else if lib[0].0@ == name {
        Some(lib[0].1)
    } else {
        lib_lookup(lib.drop_first(), name)
    }
}

/// The lookup finds the entry at the first position with that name.
pub proof fn lemma_lib_lookup_at(lib: Seq<(String, SubcircuitDef)>, i: int, name: Seq<char>)
    requires
        0 <= i < lib.len(),
        lib[i].0@ == name,
        forall|j: int| 0 <= j < i ==> (#[trigger] lib[j]).0@ != name,
    ensures
        lib_lookup(lib, name) == Some(lib[i].1),
    decreases i,
{
    if i > 0 {
        assert forall|j: int| 0 <= j < i - 1 implies (#[trigger] lib.drop_first()[j]).0@ != name by {
            assert(lib.drop_first()[j] == lib[j + 1]);
        }
        lemma_lib_lookup_at(lib.drop_first(), i - 1, name);
    }
}

/// No entry with that name: the lookup finds nothing.
pub proof fn lemma_lib_lookup_absent(lib: Seq<(String, SubcircuitDef)>, name: Seq<char>)
    requires
        forall|j: int| 0 <= j < lib.len() ==> (#[trigger] lib[j]).0@ != name,
    ensures
        lib_lookup(lib, name) is None,
    decreases lib.len(),
{
    if lib.len() > 0 {
        assert forall|j: int| 0 <= j < lib.len() - 1 implies (#[trigger] lib.drop_first()[j]).0@ != name by {
            assert(lib.drop_first()[j] == lib[j + 1]);
        }
        lemma_lib_lookup_absent(lib.drop_first(), name);
    }
}

proof fn lemma_lib_lookup_set(lib: Seq<(String, SubcircuitDef)>, i: int, e: (String, SubcircuitDef))
    requires
        0 <= i < lib.len(),
        lib[i].0@ == e.0@,
        forall|j: int| 0 <= j < i ==> (#[trigger] lib[j]).0@ != e.0@,
    ensures
        forall|n: Seq<char>| n != e.0@ ==> lib_lookup(lib.update(i, e), n) == lib_lookup(lib, n),
        lib_lookup(lib.update(i, e), e.0@) == Some(e.1),
    decreases i,
{
    let u = lib.update(i, e);
    assert forall|j: int| 0 <= j < i implies (#[trigger] u[j]).0@ != e.0@ by {}
    lemma_lib_lookup_at(u, i, e.0@);
    assert forall|n: Seq<char>| n != e.0@ implies lib_lookup(u, n) == lib_lookup(lib, n) by {
        lemma_lib_lookup_same_names(lib, u, n);
    }
}

/// Lookups of a name agree on two libraries whose entries differ only where
/// the stored names differ from it.
proof fn lemma_lib_lookup_same_names(a: Seq<(String, SubcircuitDef)>, b: Seq<(String, SubcircuitDef)>, n: Seq<char>)
    requires
        a.len() == b.len(),
        forall|j: int| 0 <= j < a.len() ==> ((#[trigger] a[j]).0@ == n) == (b[j].0@ == n),
        forall|j: int| 0 <= j < a.len() && (#[trigger] a[j]).0@ == n ==> a[j] == b[j],
    ensures
        lib_lookup(a, n) == lib_lookup(b, n),
    decreases a.len(),
{
    if a.len() > 0 {
        assert forall|j: int| 0 <= j < a.len() - 1 implies ((#[trigger] a.drop_first()[j]).0@ == n) == (b.drop_first()[j].0@ == n) by {
            assert(a.drop_first()[j] == a[j + 1]);
            assert(b.drop_first()[j] == b[j + 1]);
        }
        assert forall|j: int| 0 <= j < a.len() - 1 && (#[trigger] a.drop_first()[j]).0@ == n implies a.drop_first()[j] == b.drop_first()[j] by {
            assert(a.drop_first()[j] == a[j + 1]);
            assert(b.drop_first()[j] == b[j + 1]);
        }
        lemma_lib_lookup_same_names(a.drop_first(), b.drop_first(), n);
    }
}

proof fn lemma_lib_lookup_push(lib: Seq<(String, SubcircuitDef)>, e: (String, SubcircuitDef))
    requires
        forall|j: int| 0 <= j < lib.len() ==> (#[trigger] lib[j]).0@ != e.0@,
    ensures
        forall|n: Seq<char>| n != e.0@ ==> lib_lookup(lib.push(e), n) == lib_lookup(lib, n),
        lib_lookup(lib.push(e), e.0@) == Some(e.1),
    decreases lib.len(),
{
    let p = lib.push(e);
    assert forall|j: int| 0 <= j < lib.len() implies (#[trigger] p[j]).0@ != e.0@ by {}
    lemma_lib_lookup_at(p, lib.len() as int, e.0@);
    assert forall|n: Seq<char>| n != e.0@ implies lib_lookup(p, n) == lib_lookup(lib, n) by {
        lemma_lookup_push_other(lib, e, n);
    }
}

proof fn lemma_lookup_push_other(lib: Seq<(String, SubcircuitDef)>, e: (String, SubcircuitDef), n: Seq<char>)
    requires
        n != e.0@,
    ensures
        lib_lookup(lib.push(e), n) == lib_lookup(lib, n),
    decreases lib.len(),
{
    reveal_with_fuel(lib_lookup, 2);
    if lib.len() > 0 {
        assert(lib.push(e).drop_first() =~= lib.drop_first().push(e));
        lemma_lookup_push_other(lib.drop_first(), e, n);
    } else {
        assert(lib.push(e).drop_first() =~= Seq::<(String, SubcircuitDef)>::empty());
    }
}

/// Whether two strings are equal.
pub fn str_eq(a: &str, b: &str) -> (r: bool)
    ensures
        r == (a@ == b@),
{
    let n = a.unicode_len();
    let m = b.unicode_len();
    if n != m {
        return false;
    }
    let mut i: usize = 0;
    while i < n
        invariant
            i <= n,
            n == a@.len(),
            m == b@.len(),
            n == m,
            forall|j: int| 0 <= j < i ==> a@[j] == b@[j],
        decreases n - i,
    {
        if a.get_char(i) != b.get_char(i) {
            return false;
        }
        i = i + 1;
    }
    assert(a@ =~= b@);
    true
}

} // verus!

verus! {

/// Two circuits hold the same components and nets, and library entries
/// with the same names and port names and the same circuits, at every
/// depth.
pub open spec fn circuit_same(a: Circuit, b: Circuit) -> bool
    decreases a,
{
    &&& component_slots(a.components) == component_slots(b.components)
    &&& net_slots(a.nets) == net_slots(b.nets)
    &&& a.subcircuits@.len() == b.subcircuits@.len()
    &&& forall|i: int|
        0 <= i < a.subcircuits@.len() ==> {
            &&& (#[trigger] a.subcircuits@[i]).0@ == b.subcircuits@[i].0@
            &&& a.subcircuits@[i].1.name@ == b.subcircuits@[i].1.name@
            &&& views_eq(a.subcircuits@[i].1.input_names@, b.subcircuits@[i].1.input_names@)
            &&& views_eq(a.subcircuits@[i].1.output_names@, b.subcircuits@[i].1.output_names@)
            &&& circuit_same(a.subcircuits@[i].1.circuit, b.subcircuits@[i].1.circuit)
        }
}

/// Two library entries with the same names and port names and the same
/// circuits (see `circuit_same`).
pub open spec fn entry_same(d: (String, SubcircuitDef), e: (String, SubcircuitDef)) -> bool {
    &&& d.0@ == e.0@
    &&& d.1.name@ == e.1.name@
    &&& views_eq(d.1.input_names@, e.1.input_names@)
    &&& views_eq(d.1.output_names@, e.1.output_names@)
    &&& circuit_same(d.1.circuit, e.1.circuit)
}

/// Two lists of strings with the same texts.
pub open spec fn views_eq(a: Seq<String>, b: Seq<String>) -> bool {
    a.len() == b.len() && forall|i: int| 0 <= i < a.len() ==> (#[trigger] a[i])@ == b[i]@
}

fn clone_strings_eq(v: &Vec<String>) -> (r: Vec<String>)
    ensures
        views_eq(v@, r@),
{
    let mut out: Vec<String> = Vec::new();
    let mut i: usize = 0;
    while i < v.len()
        invariant
            i <= v.len(),
            out@.len() == i,
            forall|j: int| 0 <= j < i ==> (#[trigger] v@[j])@ == out@[j]@,
        decreases v.len() - i,
    {
        out.push(v[i].clone());
        i = i + 1;
    }
    out
}

/// A copy of a circuit (see `circuit_same`).
pub fn clone_circuit(c: &Circuit) -> (r: Circuit)
    ensures
        circuit_same(*c, r),
    decreases c,
{
    let components = crate::slots::component_slots_clone(&c.components);
    let nets = crate::slots::net_slots_clone(&c.nets);
    let mut subs: Vec<(String, SubcircuitDef)> = Vec::new();
    let mut i: usize = 0;
    while i < c.subcircuits.len()
        invariant
            i <= c.subcircuits.len(),
            subs@.len() == i,
            forall|j: int| 0 <= j < i ==> #[trigger] entry_same(c.subcircuits@[j], subs@[j]),
        decreases c.subcircuits.len() - i,
    {
        proof {
            assert(decreases_to!(*c => c.subcircuits));
            assert(decreases_to!(c.subcircuits => c.subcircuits@));
            assert(decreases_to!(c.subcircuits@ => c.subcircuits@[i as int]));
            assert(decreases_to!(c.subcircuits@[i as int] => c.subcircuits@[i as int].1));
            assert(decreases_to!(c.subcircuits@[i as int].1 => c.subcircuits@[i as int].1.circuit));
        }
        let d = &c.subcircuits[i].1;
        let copy = SubcircuitDef {
            name: d.name.clone(),
            input_names: clone_strings_eq(&d.input_names),
            output_names: clone_strings_eq(&d.output_names),
            circuit: clone_circuit(&d.circuit),
        };
        let entry = (c.subcircuits[i].0.clone(), copy);
        let ghost before = subs@;
        subs.push(entry);
        proof {
            assert(entry_same(c.subcircuits@[i as int], entry));
            assert forall|j: int| 0 <= j < i + 1 implies #[trigger] entry_same(c.subcircuits@[j], subs@[j]) by {
                if j < i {
                    assert(subs@[j] == before[j]);
                }
            }
        }
        i = i + 1;
    }
    let ghost sv = subs@;
    let r = Circuit { components, nets, subcircuits: subs };
    assert(r.subcircuits@ == sv);
    assert forall|j: int| 0 <= j < c.subcircuits@.len() implies #[trigger] entry_same(c.subcircuits@[j], r.subcircuits@[j]) by {
        assert(entry_same(c.subcircuits@[j], sv[j]));
    }
    assert(component_slots(c.components) == component_slots(r.components));
    assert(net_slots(c.nets) == net_slots(r.nets));
    assert(c.subcircuits@.len() == r.subcircuits@.len());
    assert forall|i: int| 0 <= i < c.subcircuits@.len() implies {
        &&& (#[trigger] c.subcircuits@[i]).0@ == r.subcircuits@[i].0@
        &&& c.subcircuits@[i].1.name@ == r.subcircuits@[i].1.name@
        &&& views_eq(c.subcircuits@[i].1.input_names@, r.subcircuits@[i].1.input_names@)
        &&& views_eq(c.subcircuits@[i].1.output_names@, r.subcircuits@[i].1.output_names@)
        &&& circuit_same(c.subcircuits@[i].1.circuit, r.subcircuits@[i].1.circuit)
    } by {
        assert(entry_same(c.subcircuits@[i], r.subcircuits@[i]));
    }
    assert(circuit_same(*c, r));
    r
}

impl Clone for Circuit {
    fn clone(&self) -> (r: Self)
        ensures
            circuit_same(*self, r),
    {
        clone_circuit(self)
    }
}

} // verus!
