//! Snapshot-based undo and redo.
use vstd::prelude::*;
use crate::graph::{circuit_same, clone_circuit, entry_same, Circuit, NetView, NodeView, SubcircuitDef};
use crate::text::views;

verus! {

/// A library entry as (name, definition name, input names, output names,
/// components, nets).
pub type EntryView = (Seq<char>, Seq<char>, Seq<Seq<char>>, Seq<Seq<char>>, Seq<(u64, NodeView)>, Seq<(u64, NetView)>);

/// A circuit snapshot: components, nets, and its library entries.
pub type SnapView = (Seq<(u64, NodeView)>, Seq<(u64, NetView)>, Seq<EntryView>);

pub open spec fn entry_view(e: (String, SubcircuitDef)) -> EntryView {
    (e.0@, e.1.name@, views(e.1.input_names@), views(e.1.output_names@), e.1.circuit.comps(), e.1.circuit.net_seq())
}

pub open spec fn snap_view(c: Circuit) -> SnapView {
    (c.comps(), c.net_seq(), c.subcircuits@.map_values(|e: (String, SubcircuitDef)| entry_view(e)))
}

pub open spec fn snaps_view(v: Seq<Circuit>) -> Seq<SnapView> {
    v.map_values(|c: Circuit| snap_view(c))
}

/// At most this many undo snapshots are kept.
pub open spec fn undo_limit() -> nat {
    100
}

/// Recording the current circuit: its snapshot goes on the undo stack
/// (the oldest is dropped beyond the limit) and the redo stack is emptied.
pub open spec fn spec_record(h: (Seq<SnapView>, Seq<SnapView>), cur: SnapView) -> (Seq<SnapView>, Seq<SnapView>) {
    let s = h.0.push(cur);
    (if s.len() > undo_limit() { s.drop_first() } else { s }, Seq::empty())
}

/// Undoing: the latest undo snapshot becomes current and the current
/// circuit goes on the redo stack; with no snapshot nothing happens.
/// Gives the new stacks, the new current circuit and whether it happened.
pub open spec fn spec_undo(h: (Seq<SnapView>, Seq<SnapView>), cur: SnapView) -> ((Seq<SnapView>, Seq<SnapView>), SnapView, bool) {
    if h.0.len() == 0 {
        (h, cur, false)
    } else {
        ((h.0.drop_last(), h.1.push(cur)), h.0.last(), true)
    }
}

/// Redoing: the mirror image of undoing.
pub open spec fn spec_redo(h: (Seq<SnapView>, Seq<SnapView>), cur: SnapView) -> ((Seq<SnapView>, Seq<SnapView>), SnapView, bool) {
    if h.1.len() == 0 {
        (h, cur, false)
    } else {
        ((h.0.push(cur), h.1.drop_last()), h.1.last(), true)
    }
}

/// Copies of a circuit have the same snapshot.
pub proof fn lemma_same_snap(a: Circuit, b: Circuit)
    requires
        circuit_same(a, b),
    ensures
        snap_view(a) == snap_view(b),
{
    assert forall|i: int| 0 <= i < a.subcircuits@.len() implies #[trigger] entry_view(a.subcircuits@[i]) == entry_view(b.subcircuits@[i]) by {
        let d = a.subcircuits@[i];
        let e = b.subcircuits@[i];
        assert(entry_same(d, e));
        assert(views(d.1.input_names@) =~= views(e.1.input_names@));
        assert(views(d.1.output_names@) =~= views(e.1.output_names@));
    }
    assert(snap_view(a).2 =~= snap_view(b).2);
}

/// The undo and redo stacks of the workbench.
pub struct UndoHistory {
    pub undo_stack: Vec<Circuit>,
    pub redo_stack: Vec<Circuit>,
}

impl UndoHistory {
    pub open spec fn view(&self) -> (Seq<SnapView>, Seq<SnapView>) {
        (snaps_view(self.undo_stack@), snaps_view(self.redo_stack@))
    }

    /// Empty stacks.
    pub fn new() -> (r: Self)
        ensures
            r.view().0.len() == 0,
            r.view().1.len() == 0,
    {
        UndoHistory { undo_stack: Vec::new(), redo_stack: Vec::new() }
    }

    /// Records a snapshot of the circuit before a change (see `spec_record`).
    pub fn record(&mut self, current: &Circuit)
        ensures
            final(self).view() == spec_record(old(self).view(), snap_view(*current)),
            circuit_same(*current, final(self).undo_stack@.last()),
    {
        let copy = clone_circuit(current);
        proof { lemma_same_snap(*current, copy); }
        let ghost before = self.undo_stack@;
        self.undo_stack.push(copy);
        assert(snaps_view(self.undo_stack@) =~= snaps_view(before).push(snap_view(*current)));
        if self.undo_stack.len() > 100 {
            let ghost full = self.undo_stack@;
            self.undo_stack.remove(0);
            assert(snaps_view(self.undo_stack@) =~= snaps_view(full).drop_first());
        }
        self.redo_stack.clear();
        assert(snaps_view(self.redo_stack@) =~= Seq::<SnapView>::empty());
    }

    /// Steps back to the latest snapshot (see `spec_undo`).
    pub fn undo(&mut self, current: &mut Circuit) -> (r: bool)
        ensures
            (final(self).view(), snap_view(*final(current)), r) == spec_undo(old(self).view(), snap_view(*old(current))),
            r ==> *final(current) == old(self).undo_stack@.last(),
            r ==> circuit_same(*old(current), final(self).redo_stack@.last()),
    {
        let ghost u0 = self.undo_stack@;
        let ghost r0 = self.redo_stack@;
        match self.undo_stack.pop() {
            Some(prev) => {
                let copy = clone_circuit(current);
                proof { lemma_same_snap(*current, copy); }
                self.redo_stack.push(copy);
                *current = prev;
                assert(snaps_view(self.undo_stack@) =~= snaps_view(u0).drop_last());
                assert(snaps_view(self.redo_stack@) =~= snaps_view(r0).push(snap_view(*old(current))));
                true
            },
            None => false,
        }
    }

    /// Steps forward again after an undo (see `spec_redo`).
    pub fn redo(&mut self, current: &mut Circuit) -> (r: bool)
        ensures
            (final(self).view(), snap_view(*final(current)), r) == spec_redo(old(self).view(), snap_view(*old(current))),
            r ==> *final(current) == old(self).redo_stack@.last(),
            r ==> circuit_same(*old(current), final(self).undo_stack@.last()),
    {
        let ghost u0 = self.undo_stack@;
        let ghost r0 = self.redo_stack@;
        match self.redo_stack.pop() {
            Some(next) => {
                let copy = clone_circuit(current);
                proof { lemma_same_snap(*current, copy); }
                self.undo_stack.push(copy);
                *current = next;
                assert(snaps_view(self.redo_stack@) =~= snaps_view(r0).drop_last());
                assert(snaps_view(self.undo_stack@) =~= snaps_view(u0).push(snap_view(*old(current))));
                true
            },
            None => false,
        }
    }
}

/// Undoing right after recording gives back the recorded circuit, and the
/// one being replaced becomes the only redo step.
pub proof fn lemma_undo_after_record(h: (Seq<SnapView>, Seq<SnapView>), recorded: SnapView, cur: SnapView)
    ensures
        spec_undo(spec_record(h, recorded), cur).1 == recorded,
        spec_undo(spec_record(h, recorded), cur).2,
        spec_undo(spec_record(h, recorded), cur).0.1 == seq![cur],
{
    assert(spec_record(h, recorded).1 =~= Seq::<SnapView>::empty());
    assert(seq![cur] =~= Seq::<SnapView>::empty().push(cur));
}

/// Redoing right after an undo restores both the stacks and the circuit.
pub proof fn lemma_redo_after_undo(h: (Seq<SnapView>, Seq<SnapView>), cur: SnapView)
    requires
        h.0.len() > 0,
    ensures
        spec_redo(spec_undo(h, cur).0, spec_undo(h, cur).1) == (h, cur, true),
{
    assert(h.0.drop_last().push(h.0.last()) =~= h.0);
    assert(h.1.push(cur).drop_last() =~= h.1);
}

/// Undoing right after a redo restores both the stacks and the circuit.
pub proof fn lemma_undo_after_redo(h: (Seq<SnapView>, Seq<SnapView>), cur: SnapView)
    requires
        h.1.len() > 0,
    ensures
        spec_undo(spec_redo(h, cur).0, spec_redo(h, cur).1) == (h, cur, true),
{
    assert(h.1.drop_last().push(h.1.last()) =~= h.1);
    assert(h.0.push(cur).drop_last() =~= h.0);
}

/// With nothing recorded, undo changes nothing; with nothing undone, redo
/// changes nothing.
pub proof fn lemma_empty_stacks_change_nothing(h: (Seq<SnapView>, Seq<SnapView>), cur: SnapView)
    ensures
        h.0.len() == 0 ==> spec_undo(h, cur) == (h, cur, false),
        h.1.len() == 0 ==> spec_redo(h, cur) == (h, cur, false),
{
}

/// Recording keeps the undo stack within the limit and puts the snapshot
/// on top.
pub proof fn lemma_record_bounded(h: (Seq<SnapView>, Seq<SnapView>), cur: SnapView)
    requires
        h.0.len() <= undo_limit(),
    ensures
        spec_record(h, cur).0.len() <= undo_limit(),
        spec_record(h, cur).0.last() == cur,
{
}

} // verus!
