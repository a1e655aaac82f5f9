//! The port names of a circuit packaged as a subcircuit.
use vstd::prelude::*;
use crate::component::GateKind;
use crate::graph::{Circuit, NodeView};
use crate::slots::{component_slots_get, component_slots_keys, lemma_slot_get_at, slot_keys};
use crate::text::{append_decimal, spec_decimal, views};

verus! {

/// Switches and clocks feed a packaged circuit.
pub open spec fn feeds_package(k: GateKind) -> bool {
    k is ToggleSwitch || k is Clock
}

/// LEDs show a packaged circuit's results.
pub open spec fn shows_package(k: GateKind) -> bool {
    k is Led
}

/// How many of the first `n` components feed the package.
pub open spec fn count_feeding(comps: Seq<(u64, NodeView)>, n: int) -> nat
    decreases n,
{
    if n <= 0 || n > comps.len() {
        0
    } else {
        count_feeding(comps, n - 1) + if feeds_package(comps[n - 1].1.kind) { 1nat } else { 0nat }
    }
}

/// How many of the first `n` components show the package's results.
pub open spec fn count_showing(comps: Seq<(u64, NodeView)>, n: int) -> nat
    decreases n,
{
    if n <= 0 || n > comps.len() {
        0
    } else {
        count_showing(comps, n - 1) + if shows_package(comps[n - 1].1.kind) { 1nat } else { 0nat }
    }
}

/// `prefix` followed by 0, 1, ..., `n - 1`.
pub open spec fn numbered(prefix: Seq<char>, n: nat) -> Seq<Seq<char>> {
    Seq::new(n, |i: int| prefix + spec_decimal(i as nat))
}

/// A port count: at least one.
pub open spec fn at_least_one(n: nat) -> nat {
    if n == 0 { 1 } else { n }
}

/// `prefix` followed by 0, 1, ..., `n - 1`, as strings.
fn numbered_names(prefix: &str, n: usize) -> (r: Vec<String>)
    ensures
        views(r@) == numbered(prefix@, n as nat),
{
    let mut v: Vec<String> = Vec::new();
    let mut i: usize = 0;
    while i < n
        invariant
            i <= n,
            views(v@) == numbered(prefix@, n as nat).take(i as int),
        decreases n - i,
    {
        let mut s = String::from_str(prefix);
        append_decimal(&mut s, i as u64);
        let ghost prev = v@;
        let ghost sv = s@;
        assert(sv == prefix@ + spec_decimal(i as nat));
        v.push(s);
        proof {
            assert(v@ == prev.push(s));
            assert(views(prev).len() == prev.len());
            assert(numbered(prefix@, n as nat).take(i as int).len() == i);
            assert(views(v@).len() == i + 1);
            assert forall|j: int| 0 <= j < i + 1 implies #[trigger] views(v@)[j] == numbered(prefix@, n as nat)[j] by {
                if j < i {
                    assert(views(v@)[j] == v@[j]@);
                    assert(v@[j] == prev[j]);
                    assert(views(prev)[j] == prev[j]@);
                    assert(views(prev)[j] == numbered(prefix@, n as nat).take(i as int)[j]);
                }
            }
            assert(views(v@) =~= numbered(prefix@, n as nat).take(i + 1));
        }
        i = i + 1;
    }
    proof {
        assert(numbered(prefix@, n as nat).take(n as int) =~= numbered(prefix@, n as nat));
    }
    v
}

impl Circuit {
    /// The input and output port names the circuit gets when it is
    /// packaged as a subcircuit: `IN_0`, `IN_1`, ... one per switch or
    /// clock, and `OUT_0`, `OUT_1`, ... one per LED, with at least one of
    /// each.
    pub fn package_port_names(&self) -> (r: (Vec<String>, Vec<String>))
        ensures
            views(r.0@) == numbered("IN_"@, at_least_one(count_feeding(self.comps(), self.comps().len() as int))),
            views(r.1@) == numbered("OUT_"@, at_least_one(count_showing(self.comps(), self.comps().len() as int))),
    {
        let keys = component_slots_keys(&self.components);
        let ghost cs = self.comps();
        let mut ins: usize = 0;
        let mut outs: usize = 0;
        let mut k: usize = 0;
        while k < keys.len()
            invariant
                k <= keys.len(),
                cs == self.comps(),
                keys@ == slot_keys(cs),
                keys@.no_duplicates(),
                forall|m: int| 0 <= m < keys@.len() ==> crate::graph::valid_key(#[trigger] keys@[m]),
                ins == count_feeding(cs, k as int),
                outs == count_showing(cs, k as int),
                ins <= k,
                outs <= k,
            decreases keys.len() - k,
        {
            proof {
                assert(slot_keys(cs)[k as int] == keys@[k as int]);
                lemma_slot_get_at(cs, k as int);
            }
            match component_slots_get(&self.components, keys[k]) {
                Some(n) => {
                    if matches!(n.kind, GateKind::ToggleSwitch | GateKind::Clock) {
                        ins = ins + 1;
                    }
                    if matches!(n.kind, GateKind::Led) {
                        outs = outs + 1;
                    }
                },
                None => {},
            }
            k = k + 1;
        }
        let n_in: usize = if ins == 0 { 1 } else { ins };
        let n_out: usize = if outs == 0 { 1 } else { outs };
        let r = (numbered_names("IN_", n_in), numbered_names("OUT_", n_out));
        proof {
            reveal_strlit("IN_");
            reveal_strlit("OUT_");
        }
        r
    }
}

} // verus!
