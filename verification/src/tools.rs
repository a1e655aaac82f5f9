//! Editing tools and the current selection.
use vstd::prelude::*;
use crate::graph::{ComponentId, NetId};

verus! {

/// The tool the canvas pointer acts with.
#[derive(Debug, Clone, Copy, PartialEq, Eq, Structural)]
pub enum ActiveTool {
    Select,
    Wire,
}

impl Default for ActiveTool {
    fn default() -> (r: Self)
        ensures
            r == ActiveTool::Select,
    {
        ActiveTool::Select
    }
}

/// The selected components and nets (each list is used as a set).
#[derive(Debug, Clone)]
pub struct SelectionState {
    pub selected_components: Vec<ComponentId>,
    pub selected_nets: Vec<NetId>,
}

/// The keys of a list of component ids, as a set.
pub open spec fn id_set(v: Seq<ComponentId>) -> Set<u64> {
    Set::new(|k: u64| exists|i: int| 0 <= i < v.len() && v[i]@ == k)
}

/// The keys of a list of net ids, as a set.
pub open spec fn net_id_set(v: Seq<NetId>) -> Set<u64> {
    Set::new(|k: u64| exists|i: int| 0 <= i < v.len() && v[i]@ == k)
}

/// Adding an id adds its key.
proof fn lemma_id_set_push(s: Seq<ComponentId>, x: ComponentId)
    ensures
        id_set(s.push(x)) == id_set(s).insert(x@),
{
    let t = s.push(x);
    assert forall|k: u64| id_set(t).contains(k) <==> id_set(s).insert(x@).contains(k) by {
        if id_set(t).contains(k) {
            let j = choose|j: int| 0 <= j < t.len() && t[j]@ == k;
            if j < s.len() {
                assert(s[j] == t[j]);
                assert(id_set(s).contains(k));
            }
        }
        if id_set(s).contains(k) {
            let j = choose|j: int| 0 <= j < s.len() && s[j]@ == k;
            assert(t[j] == s[j]);
            assert(id_set(t).contains(k));
        }
        if k == x@ {
            assert(t[s.len() as int] == x);
            assert(id_set(t).contains(k));
        }
    }
    assert(id_set(t) =~= id_set(s).insert(x@));
}

/// No ids, no keys.
proof fn lemma_id_set_empty(s: Seq<ComponentId>)
    requires
        s.len() == 0,
    ensures
        id_set(s) == Set::<u64>::empty(),
{
    assert(id_set(s) =~= Set::<u64>::empty());
}

impl Default for SelectionState {
    fn default() -> (r: Self)
        ensures
            r.components() == Set::<u64>::empty(),
            r.nets() == Set::<u64>::empty(),
    {
        let r = SelectionState { selected_components: Vec::new(), selected_nets: Vec::new() };
        assert(r.components() =~= Set::<u64>::empty());
        assert(r.nets() =~= Set::<u64>::empty());
        r
    }
}

impl SelectionState {
    /// The selected components.
    pub open spec fn components(&self) -> Set<u64> {
        id_set(self.selected_components@)
    }

    /// The selected nets.
    pub open spec fn nets(&self) -> Set<u64> {
        net_id_set(self.selected_nets@)
    }

    /// Nothing is selected.
    pub fn is_empty(&self) -> (r: bool)
        ensures
            r == (self.components() == Set::<u64>::empty() && self.nets() == Set::<u64>::empty()),
    {
        let r = self.selected_components.len() == 0 && self.selected_nets.len() == 0;
        if !r {
            if self.selected_components.len() > 0 {
                assert(self.components().contains(self.selected_components@[0]@));
            } else {
                assert(self.nets().contains(self.selected_nets@[0]@));
            }
        } else {
            assert(self.components() =~= Set::<u64>::empty());
            assert(self.nets() =~= Set::<u64>::empty());
        }
        r
    }

    /// Deselects everything.
    pub fn clear(&mut self)
        ensures
            final(self).components() == Set::<u64>::empty(),
            final(self).nets() == Set::<u64>::empty(),
    {
        self.selected_components.clear();
        self.selected_nets.clear();
        assert(self.components() =~= Set::<u64>::empty());
        assert(self.nets() =~= Set::<u64>::empty());
    }

    /// Selects exactly one component.
    pub fn select_single(&mut self, id: ComponentId)
        ensures
            final(self).components() == set![id@],
            final(self).nets() == Set::<u64>::empty(),
    {
        self.selected_components.clear();
        self.selected_nets.clear();
        proof { lemma_id_set_empty(self.selected_components@); }
        let ghost e = self.selected_components@;
        self.selected_components.push(id);
        proof { lemma_id_set_push(e, id); }
        assert(self.components() =~= set![id@]);
        assert(self.nets() =~= Set::<u64>::empty());
    }

    /// Adds a component to the selection, or removes it if selected.
    pub fn toggle_component(&mut self, id: ComponentId)
        ensures
            final(self).components() == if old(self).components().contains(id@) {
                old(self).components().remove(id@)
            } else {
                old(self).components().insert(id@)
            },
            final(self).nets() == old(self).nets(),
    {
        let ghost before = self.components();
        let mut kept: Vec<ComponentId> = Vec::new();
        proof {
            lemma_id_set_empty(kept@);
            lemma_id_set_empty(self.selected_components@.take(0));
        }
        let mut found = false;
        let mut i: usize = 0;
        while i < self.selected_components.len()
            invariant
                i <= self.selected_components.len(),
                self.selected_components == old(self).selected_components,
                self.selected_nets == old(self).selected_nets,
                before == old(self).components(),
                found == exists|j: int| 0 <= j < i && self.selected_components@[j]@ == id@,
                id_set(kept@) == id_set(self.selected_components@.take(i as int)).remove(id@),
            decreases self.selected_components.len() - i,
        {
            let c = self.selected_components[i];
            let ghost pre = kept@;
            if c.raw() == id.raw() {
                found = true;
            } else {
                kept.push(c);
            }
            proof {
                let t = self.selected_components@.take(i + 1);
                assert(t.drop_last() =~= self.selected_components@.take(i as int));
                assert(t =~= t.drop_last().push(c));
                lemma_id_set_push(t.drop_last(), c);
                if c@ != id@ {
                    lemma_id_set_push(pre, c);
                } else {
                    assert(kept@ == pre);
                }
                assert(id_set(kept@) =~= id_set(t).remove(id@));
            }
            i = i + 1;
        }
        assert(self.selected_components@.take(self.selected_components@.len() as int) =~= self.selected_components@);
        if found {
            self.selected_components = kept;
        } else {
            let ghost e = self.selected_components@;
            self.selected_components.push(id);
            proof { lemma_id_set_push(e, id); }
        }
        proof {
            if found {
                assert(before.contains(id@));
                assert(self.components() =~= before.remove(id@));
            } else {
                assert(!before.contains(id@));
            }
        }
    }
}

} // verus!

verus! {

/// Toggling a component twice leaves the selection as it was.
pub proof fn lemma_toggle_twice(s: Set<u64>, k: u64)
    ensures
        ({
            let t = if s.contains(k) { s.remove(k) } else { s.insert(k) };
            (if t.contains(k) { t.remove(k) } else { t.insert(k) }) == s
        }),
{
    if s.contains(k) {
        assert(s.remove(k).insert(k) =~= s);
    } else {
        assert(s.insert(k).remove(k) =~= s);
    }
}

} // verus!
