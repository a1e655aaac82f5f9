//! The slot maps that hold a circuit's components and nets. The maps are
//! `slotmap::SlotMap`s used through the functions below; their contents are
//! modelled as the sequence of `(key, value)` entries in iteration order,
//! where a key is the 64-bit form `KeyData::as_ffi` gives.
use vstd::prelude::*;
use slotmap::{DefaultKey, Key, KeyData, SlotMap};
use crate::graph::{ComponentNode, Net, NodeView, NetView, valid_key};

verus! {

/// The component slot map. Verus does not accept a declaration of
/// `SlotMap` itself (its key bound is an outside trait), so the map is held
/// here and reached only through the functions below.
#[verifier::external_body]
pub struct ComponentSlots {
    map: SlotMap<DefaultKey, ComponentNode>,
}

/// The net slot map, held like `ComponentSlots`.
#[verifier::external_body]
pub struct NetSlots {
    map: SlotMap<DefaultKey, Net>,
}

/// The entries of a component slot map, in iteration order.
pub uninterp spec fn component_slots(m: ComponentSlots) -> Seq<(u64, NodeView)>;

/// The entries of a net slot map, in iteration order.
pub uninterp spec fn net_slots(m: NetSlots) -> Seq<(u64, NetView)>;

/// The keys of a sequence of entries.
pub open spec fn slot_keys<V>(s: Seq<(u64, V)>) -> Seq<u64> {
    s.map_values(|e: (u64, V)| e.0)
}

/// No key occurs twice and every key carries an odd version.
pub open spec fn slots_wf<V>(s: Seq<(u64, V)>) -> bool {
    &&& slot_keys(s).no_duplicates()
    &&& forall|i: int| 0 <= i < s.len() ==> valid_key(#[trigger] s[i].0)
}

/// Some entry has key `k`.
pub open spec fn slot_has<V>(s: Seq<(u64, V)>, k: u64) -> bool {
    exists|i: int| 0 <= i < s.len() && s[i].0 == k
}

/// Position of the entry with key `k` (meaningful when there is one).
pub open spec fn slot_pos<V>(s: Seq<(u64, V)>, k: u64) -> int {
    choose|i: int| 0 <= i < s.len() && s[i].0 == k
}

/// The value stored under `k`, if any.
pub open spec fn slot_get<V>(s: Seq<(u64, V)>, k: u64) -> Option<V> {
    if slot_has(s, k) {
        Some(s[slot_pos(s, k)].1)
    } else {
        None
    }
}

/// The entries with the value under `k` replaced by `v`.
pub open spec fn slot_set<V>(s: Seq<(u64, V)>, k: u64, v: V) -> Seq<(u64, V)> {
    s.map_values(|e: (u64, V)| if e.0 == k { (k, v) } else { e })
}

/// The entries without the one under `k`.
pub open spec fn slot_remove<V>(s: Seq<(u64, V)>, k: u64) -> Seq<(u64, V)> {
    s.filter(key_is_not::<V>(k))
}

/// The entry's key differs from `k`.
pub open spec fn key_is_not<V>(k: u64) -> spec_fn((u64, V)) -> bool {
    |e: (u64, V)| e.0 != k
}

/// With distinct keys, the entry at position `i` is the one `slot_get` finds.
pub proof fn lemma_slot_get_at<V>(s: Seq<(u64, V)>, i: int)
    requires
        slot_keys(s).no_duplicates(),
        0 <= i < s.len(),
    ensures
        slot_has(s, s[i].0),
        slot_pos(s, s[i].0) == i,
        slot_get(s, s[i].0) == Some(s[i].1),
{
    let k = s[i].0;
    assert(slot_has(s, k));
    let j = slot_pos(s, k);
    assert(slot_keys(s)[i] == k && slot_keys(s)[j] == k);
}

/// With distinct keys, replacing the value under the key at position `i`
/// is an update at `i`.
pub proof fn lemma_slot_set_at<V>(s: Seq<(u64, V)>, i: int, v: V)
    requires
        slot_keys(s).no_duplicates(),
        0 <= i < s.len(),
    ensures
        slot_set(s, s[i].0, v) == s.update(i, (s[i].0, v)),
{
    assert forall|j: int| 0 <= j < s.len() && j != i implies s[j].0 != s[i].0 by {
        assert(slot_keys(s)[j] == s[j].0 && slot_keys(s)[i] == s[i].0);
    }
    assert(slot_set(s, s[i].0, v) =~= s.update(i, (s[i].0, v)));
}

/// Replacing a value keeps the keys.
pub proof fn lemma_slot_set_keys<V>(s: Seq<(u64, V)>, k: u64, v: V)
    ensures
        slot_keys(slot_set(s, k, v)) == slot_keys(s),
        slots_wf(s) ==> slots_wf(slot_set(s, k, v)),
{
    assert(slot_keys(slot_set(s, k, v)) =~= slot_keys(s));
}

/// With distinct keys, the value under a present key is replaced.
pub proof fn lemma_slot_set_get<V>(s: Seq<(u64, V)>, k: u64, v: V, k2: u64)
    requires
        slot_keys(s).no_duplicates(),
    ensures
        slot_get(slot_set(s, k, v), k2) == if k2 == k && slot_has(s, k) { Some(v) } else { slot_get(s, k2) },
{
    let t = slot_set(s, k, v);
    lemma_slot_set_keys(s, k, v);
    if slot_has(s, k2) {
        let i = slot_pos(s, k2);
        lemma_slot_get_at(s, i);
        assert(t[i].0 == k2);
        lemma_slot_get_at(t, i);
    } else {
        if slot_has(t, k2) {
            let j = slot_pos(t, k2);
            assert(s[j].0 == k2);
        }
    }
}

/// Removing an absent key changes nothing.
pub proof fn lemma_remove_absent<V>(s: Seq<(u64, V)>, k: u64)
    requires
        !slot_has(s, k),
    ensures
        slot_remove(s, k) == s,
{
    crate::seqs::lemma_filter_ext(s, key_is_not::<V>(k), |e: (u64, V)| true);
    lemma_filter_all(s);
}

/// Filtering by a predicate that always holds changes nothing.
pub proof fn lemma_filter_all<A>(s: Seq<A>)
    ensures
        s.filter(|e: A| true) == s,
    decreases s.len(),
{
    reveal(Seq::filter);
    if s.len() > 0 {
        lemma_filter_all(s.drop_last());
        assert(s.drop_last().push(s.last()) =~= s);
    }
}

// ---- component slot map ----

/// Calls `SlotMap::new`: an empty map.
#[verifier::external_body]
pub fn component_slots_new() -> (m: ComponentSlots)
    ensures
        component_slots(m) == Seq::<(u64, NodeView)>::empty(),
{
    ComponentSlots { map: SlotMap::new() }
}

/// Calls `SlotMap::insert`. The new key was not in the map, has an odd
/// version, and the new entry appears at some position of the iteration
/// order (which one depends on the map's free slots). The map panics when
/// full; below `u32::MAX - 1` entries it is not.
#[verifier::external_body]
pub fn component_slots_insert(m: &mut ComponentSlots, v: ComponentNode) -> (k: u64)
    requires
        component_slots(*old(m)).len() + 1 < u32::MAX,
    ensures
        valid_key(k),
        !slot_has(component_slots(*old(m)), k),
        exists|i: int|
            0 <= i <= component_slots(*old(m)).len() && component_slots(*final(m))
                == component_slots(*old(m)).insert(i, (k, v@)),
{
    m.map.insert(v).data().as_ffi()
}

/// Calls `SlotMap::remove`: takes out the value under `k`, if present.
#[verifier::external_body]
pub fn component_slots_remove(m: &mut ComponentSlots, k: u64) -> (r: Option<ComponentNode>)
    requires
        valid_key(k),
    ensures
        component_slots(*final(m)) == slot_remove(component_slots(*old(m)), k),
        r is Some <==> slot_has(component_slots(*old(m)), k),
        r matches Some(v) ==> Some(v@) == slot_get(component_slots(*old(m)), k),
{
    m.map.remove(KeyData::from_ffi(k).into())
}

/// Calls `SlotMap::get`: the value under `k`, if present.
#[verifier::external_body]
pub fn component_slots_get(m: &ComponentSlots, k: u64) -> (r: Option<&ComponentNode>)
    requires
        valid_key(k),
    ensures
        r is Some <==> slot_has(component_slots(*m), k),
        r matches Some(v) ==> Some(v@) == slot_get(component_slots(*m), k),
{
    m.map.get(KeyData::from_ffi(k).into())
}

/// Calls `IndexMut::index_mut` on the map: a mutable borrow of the value
/// under `k`, which must be present (the call panics otherwise). Writing
/// through it replaces that value and nothing else.
#[verifier::external_body]
pub fn component_slots_get_mut(m: &mut ComponentSlots, k: u64) -> (r: &mut ComponentNode)
    requires
        valid_key(k),
        slot_has(component_slots(*old(m)), k),
    ensures
        Some((*r)@) == slot_get(component_slots(*old(m)), k),
        component_slots(*final(m)) == slot_set(component_slots(*old(m)), k, (*final(r))@),
{
    &mut m.map[KeyData::from_ffi(k).into()]
}

/// Calls `SlotMap::keys`: the keys in iteration order. Keys are distinct
/// and carry odd versions.
#[verifier::external_body]
pub fn component_slots_keys(m: &ComponentSlots) -> (r: Vec<u64>)
    ensures
        r@ == slot_keys(component_slots(*m)),
        r@.no_duplicates(),
        forall|i: int| 0 <= i < r@.len() ==> valid_key(#[trigger] r@[i]),
{
    m.map.keys().map(|k| k.data().as_ffi()).collect()
}

/// Calls `SlotMap::clone`: a map with the same entries in the same order.
#[verifier::external_body]
pub fn component_slots_clone(m: &ComponentSlots) -> (r: ComponentSlots)
    ensures
        component_slots(r) == component_slots(*m),
{
    ComponentSlots { map: m.map.clone() }
}

/// Calls `SlotMap::clear`: the map is left empty.
#[verifier::external_body]
pub fn component_slots_clear(m: &mut ComponentSlots)
    ensures
        component_slots(*final(m)) == Seq::<(u64, NodeView)>::empty(),
{
    m.map.clear()
}

// ---- net slot map ----

/// Calls `SlotMap::new`: an empty map.
#[verifier::external_body]
pub fn net_slots_new() -> (m: NetSlots)
    ensures
        net_slots(m) == Seq::<(u64, NetView)>::empty(),
{
    NetSlots { map: SlotMap::new() }
}

/// Calls `SlotMap::insert`; see `component_slots_insert`.
#[verifier::external_body]
pub fn net_slots_insert(m: &mut NetSlots, v: Net) -> (k: u64)
    requires
        net_slots(*old(m)).len() + 1 < u32::MAX,
    ensures
        valid_key(k),
        !slot_has(net_slots(*old(m)), k),
        exists|i: int|
            0 <= i <= net_slots(*old(m)).len() && net_slots(*final(m)) == net_slots(*old(m)).insert(
                i,
                (k, v@),
            ),
{
    m.map.insert(v).data().as_ffi()
}

/// Calls `SlotMap::remove`: takes out the value under `k`, if present.
#[verifier::external_body]
pub fn net_slots_remove(m: &mut NetSlots, k: u64) -> (r: Option<Net>)
    requires
        valid_key(k),
    ensures
        net_slots(*final(m)) == slot_remove(net_slots(*old(m)), k),
        r is Some <==> slot_has(net_slots(*old(m)), k),
{
    m.map.remove(KeyData::from_ffi(k).into())
}

/// Calls `SlotMap::get`: the value under `k`, if present.
#[verifier::external_body]
pub fn net_slots_get(m: &NetSlots, k: u64) -> (r: Option<&Net>)
    requires
        valid_key(k),
    ensures
        r is Some <==> slot_has(net_slots(*m), k),
        r matches Some(v) ==> Some(v@) == slot_get(net_slots(*m), k),
{
    m.map.get(KeyData::from_ffi(k).into())
}

/// Calls `IndexMut::index_mut` on the map; see `component_slots_get_mut`.
#[verifier::external_body]
pub fn net_slots_get_mut(m: &mut NetSlots, k: u64) -> (r: &mut Net)
    requires
        valid_key(k),
        slot_has(net_slots(*old(m)), k),
    ensures
        Some((*r)@) == slot_get(net_slots(*old(m)), k),
        net_slots(*final(m)) == slot_set(net_slots(*old(m)), k, (*final(r))@),
{
    &mut m.map[KeyData::from_ffi(k).into()]
}

/// Calls `SlotMap::keys`: the keys in iteration order. Keys are distinct
/// and carry odd versions.
#[verifier::external_body]
pub fn net_slots_keys(m: &NetSlots) -> (r: Vec<u64>)
    ensures
        r@ == slot_keys(net_slots(*m)),
        r@.no_duplicates(),
        forall|i: int| 0 <= i < r@.len() ==> valid_key(#[trigger] r@[i]),
{
    m.map.keys().map(|k| k.data().as_ffi()).collect()
}

/// Calls `SlotMap::clear`: the map is left empty.
#[verifier::external_body]
pub fn net_slots_clear(m: &mut NetSlots)
    ensures
        net_slots(*final(m)) == Seq::<(u64, NetView)>::empty(),
{
    m.map.clear()
}

/// Calls `SlotMap::clone`: a map with the same entries in the same order.
#[verifier::external_body]
pub fn net_slots_clone(m: &NetSlots) -> (r: NetSlots)
    ensures
        net_slots(r) == net_slots(*m),
{
    NetSlots { map: m.map.clone() }
}

} // verus!
