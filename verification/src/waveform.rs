//! Signal traces for the logic analyzer.
use vstd::prelude::*;
use std::collections::VecDeque;
use crate::component::{spec_display_name, GateKind};
use crate::graph::{valid_key, Circuit, ComponentId, ComponentNode, NodeView};
use crate::hdl::{component_debug, component_debug_string};
use crate::signal::Signal;
use crate::sim::sig_at;
use crate::slots::{component_slots_get, component_slots_keys, lemma_slot_get_at, slot_keys, slots_wf};
use crate::text::append_str;

verus! {

/// The recorded samples of one traced component.
#[derive(Debug, Clone)]
pub struct SignalHistory {
    pub label: String,
    pub samples: VecDeque<Signal>,
}

/// The kinds the analyzer traces: clocks, switches, LEDs, flip-flops and
/// counters.
pub open spec fn is_traced(k: GateKind) -> bool {
    k is Clock || k is ToggleSwitch || k is Led || k is DFlipFlop || k is JkFlipFlop || k is TFlipFlop || k is Counter4
}

/// The level a trace samples: output 0, or input 0 when there are no
/// outputs (`Zero` when neither exists).
pub open spec fn traced_level(n: NodeView) -> Signal {
    if n.output_signals.len() > 0 { n.output_signals[0] } else { sig_at(n.input_signals, 0) }
}

/// Whether a component is traced (see `is_traced`).
pub fn should_trace(k: &GateKind) -> (r: bool)
    ensures
        r == is_traced(*k),
{
    matches!(
        k,
        GateKind::Clock | GateKind::ToggleSwitch | GateKind::Led | GateKind::DFlipFlop | GateKind::JkFlipFlop
            | GateKind::TFlipFlop | GateKind::Counter4
    )
}

/// The level to sample from a component (see `traced_level`).
pub fn sample_level(n: &ComponentNode) -> (r: Signal)
    ensures
        r == traced_level(n@),
{
    if n.output_signals.len() > 0 {
        n.output_signals[0]
    } else if n.input_signals.len() > 0 {
        n.input_signals[0]
    } else {
        Signal::Zero
    }
}

/// A history with one more sample, dropping the oldest beyond `max`.
pub open spec fn push_capped(s: Seq<Signal>, sig: Signal, max: nat) -> Seq<Signal> {
    if s.len() + 1 > max {
        s.push(sig).drop_first()
    } else {
        s.push(sig)
    }
}

impl SignalHistory {
    /// Appends a sample and drops the oldest one when there are more than
    /// `max_samples`.
    pub fn push_sample(&mut self, sig: Signal, max_samples: usize)
        ensures
            final(self).label == old(self).label,
            final(self).samples@ == push_capped(old(self).samples@, sig, max_samples as nat),
    {
        self.samples.push_back(sig);
        if self.samples.len() > max_samples {
            self.samples.pop_front();
        }
    }
}

/// A trace as (component key, label, samples).
pub type TrackView = (u64, Seq<char>, Seq<Signal>);

pub open spec fn track_view(t: (ComponentId, SignalHistory)) -> TrackView {
    (t.0@, t.1.label@, t.1.samples@)
}

pub open spec fn tracks_view(v: Seq<(ComponentId, SignalHistory)>) -> Seq<TrackView> {
    v.map_values(|t: (ComponentId, SignalHistory)| track_view(t))
}

/// The label of a new trace: the kind's display name, `_`, and how the
/// component id prints.
pub open spec fn track_label(k: GateKind, key: u64) -> Seq<char> {
    spec_display_name(k) + "_"@ + component_debug(key)
}

/// `i` is the first trace of component `key`.
pub open spec fn first_track(t: Seq<TrackView>, key: u64, i: int) -> bool {
    &&& 0 <= i < t.len()
    &&& t[i].0 == key
    &&& forall|j: int| 0 <= j < i ==> t[j].0 != key
}

/// One component's sample: a traced component's level goes to its trace,
/// which is created (empty, with `track_label`) on its first sample.
pub open spec fn sample_one(t: Seq<TrackView>, e: (u64, NodeView), max: nat) -> Seq<TrackView> {
    if !is_traced(e.1.kind) {
        t
    } else if exists|i: int| first_track(t, e.0, i) {
        let i = choose|i: int| first_track(t, e.0, i);
        t.update(i, (e.0, t[i].1, push_capped(t[i].2, traced_level(e.1), max)))
    } else {
        t.push((e.0, track_label(e.1.kind, e.0), push_capped(Seq::empty(), traced_level(e.1), max)))
    }
}

/// The traces after sampling the first `n` components in order.
pub open spec fn sample_upto(t: Seq<TrackView>, comps: Seq<(u64, NodeView)>, n: int, max: nat) -> Seq<TrackView>
    decreases n,
{
    if n <= 0 || n > comps.len() {
        t
    } else {
        sample_one(sample_upto(t, comps, n - 1, max), comps[n - 1], max)
    }
}

/// The logic analyzer: whether it is shown and recording, how many
/// snapshots were taken, the history bound, one trace per traced component
/// (at most one per component), and the horizontal scale (`f32` bits).
pub struct WaveformState {
    pub is_open: bool,
    pub is_recording: bool,
    pub step_counter: usize,
    pub max_samples: usize,
    pub track_data: Vec<(ComponentId, SignalHistory)>,
    pub zoom_x: u32,
}

impl Default for WaveformState {
    fn default() -> (r: Self)
        ensures
            !r.is_open,
            r.is_recording,
            r.step_counter == 0,
            r.max_samples == 80,
            r.track_data@.len() == 0,
            r.zoom_x == 0x41a0_0000u32,
    {
        WaveformState {
            is_open: false,
            is_recording: true,
            step_counter: 0,
            max_samples: 80,
            track_data: Vec::new(),
            zoom_x: 0x41a0_0000u32,
        }
    }
}

/// Samples one component into the traces (see `sample_one`).
fn record_sample(tracks: &mut Vec<(ComponentId, SignalHistory)>, key: u64, n: &ComponentNode, max: usize)
    requires
        valid_key(key),
    ensures
        tracks_view(final(tracks)@) == sample_one(tracks_view(old(tracks)@), (key, n@), max as nat),
{
    if !should_trace(&n.kind) {
        return;
    }
    let ghost t = tracks_view(tracks@);
    let sig = sample_level(n);
    let mut j: usize = 0;
    while j < tracks.len()
        invariant
            j <= tracks@.len(),
            t == tracks_view(tracks@),
            t == tracks_view(old(tracks)@),
            sig == traced_level(n@),
            is_traced(n@.kind),
            forall|m: int| 0 <= m < j ==> t[m].0 != key,
        decreases tracks.len() - j,
    {
        if tracks[j].0.raw() == key {
            proof {
                assert(first_track(t, key, j as int));
                let c = choose|i: int| first_track(t, key, i);
                assert(c == j as int);
            }
            let ghost before = tracks@;
            let (cid, mut h) = tracks.remove(j);
            assert(cid@ == key);
            assert(h.label@ == t[j as int].1);
            assert(h.samples@ == t[j as int].2);
            h.push_sample(sig, max);
            tracks.insert(j, (cid, h));
            proof {
                assert(tracks@ =~= before.update(j as int, (cid, h)));
                assert(tracks_view(tracks@) =~= t.update(j as int, (key, t[j as int].1, push_capped(t[j as int].2, sig, max as nat))));
                assert(sig == traced_level(n@));
                assert(is_traced(n@.kind));
            }
            return;
        }
        j = j + 1;
    }
    proof {
        assert(!exists|i: int| first_track(t, key, i));
    }
    let mut label = n.kind.display_name();
    append_str(&mut label, "_");
    let dbg = component_debug_string(ComponentId::from_key(key));
    append_str(&mut label, dbg.as_str());
    let mut h = SignalHistory { label, samples: VecDeque::new() };
    h.push_sample(sig, max);
    let ghost before = tracks@;
    tracks.push((ComponentId::from_key(key), h));
    proof {
        reveal_strlit("_");
        assert(tracks_view(tracks@) =~= tracks_view(before).push(track_view(tracks@[tracks@.len() - 1])));
    }
}

impl WaveformState {
    /// Takes a snapshot while recording: counts it, and samples every
    /// traced component in the circuit's order (see `sample_upto`).
    pub fn sample_circuit(&mut self, circuit: &Circuit)
        requires
            old(self).is_recording ==> old(self).step_counter < usize::MAX,
        ensures
            !old(self).is_recording ==> *final(self) == *old(self),
            final(self).is_open == old(self).is_open,
            final(self).is_recording == old(self).is_recording,
            final(self).max_samples == old(self).max_samples,
            final(self).zoom_x == old(self).zoom_x,
            old(self).is_recording ==> final(self).step_counter == old(self).step_counter + 1,
            old(self).is_recording ==> tracks_view(final(self).track_data@) == sample_upto(
                tracks_view(old(self).track_data@),
                circuit.comps(),
                circuit.comps().len() as int,
                old(self).max_samples as nat,
            ),
    {
        if !self.is_recording {
            return;
        }
        self.step_counter = self.step_counter + 1;
        let keys = component_slots_keys(&circuit.components);
        let ghost cs = circuit.comps();
        let ghost t0 = tracks_view(self.track_data@);
        let ghost open0 = self.is_open;
        let ghost max0 = self.max_samples;
        let ghost zoom0 = self.zoom_x;
        let ghost count0 = self.step_counter;
        proof { crate::graph::lemma_keys_wf(cs, keys@); }
        let mut k: usize = 0;
        while k < keys.len()
            invariant
                k <= keys.len(),
                cs == circuit.comps(),
                keys@ == slot_keys(cs),
                slots_wf(cs),
                self.is_open == open0,
                self.is_recording,
                self.max_samples == max0,
                self.zoom_x == zoom0,
                self.step_counter == count0,
                tracks_view(self.track_data@) == sample_upto(t0, cs, k as int, max0 as nat),
            decreases keys.len() - k,
        {
            proof {
                assert(slot_keys(cs)[k as int] == keys@[k as int]);
                lemma_slot_get_at(cs, k as int);
            }
            let key = keys[k];
            match component_slots_get(&circuit.components, key) {
                Some(n) => {
                    record_sample(&mut self.track_data, key, n, self.max_samples);
                },
                None => {},
            }
            k = k + 1;
        }
    }

    /// Forgets every trace and resets the snapshot count.
    pub fn clear(&mut self)
        ensures
            final(self).step_counter == 0,
            final(self).track_data@.len() == 0,
            final(self).is_open == old(self).is_open,
            final(self).is_recording == old(self).is_recording,
            final(self).max_samples == old(self).max_samples,
            final(self).zoom_x == old(self).zoom_x,
    {
        self.step_counter = 0;
        self.track_data.clear();
    }
}

} // verus!
