//! Facts about `Seq::filter` used by the loops that drop entries.
use vstd::prelude::*;

verus! {

/// Filtering a prefix one element longer.
pub proof fn lemma_filter_take_step<A>(s: Seq<A>, p: spec_fn(A) -> bool, i: int)
    requires
        0 <= i < s.len(),
    ensures
        s.take(i + 1).filter(p) == (if p(s[i]) {
            s.take(i).filter(p).push(s[i])
        } else {
            s.take(i).filter(p)
        }),
{
    reveal(Seq::filter);
    assert(s.take(i + 1).drop_last() =~= s.take(i));
    assert(s.take(i + 1).last() == s[i]);
}

/// Filtering the whole sequence as a prefix.
pub proof fn lemma_take_full<A>(s: Seq<A>)
    ensures
        s.take(s.len() as int) == s,
{
    assert(s.take(s.len() as int) =~= s);
}

/// Filters with predicates that agree on every element are equal.
pub proof fn lemma_filter_ext<A>(s: Seq<A>, p: spec_fn(A) -> bool, q: spec_fn(A) -> bool)
    requires
        forall|i: int| 0 <= i < s.len() ==> p(#[trigger] s[i]) == q(s[i]),
    ensures
        s.filter(p) == s.filter(q),
    decreases s.len(),
{
    reveal(Seq::filter);
    if s.len() > 0 {
        lemma_filter_ext(s.drop_last(), p, q);
        assert(p(s.last()) == q(s.last())) by {
            assert(s.last() == s[s.len() - 1]);
        }
    }
}

/// Filtering twice is filtering by the conjunction.
pub proof fn lemma_filter_filter<A>(s: Seq<A>, p: spec_fn(A) -> bool, q: spec_fn(A) -> bool)
    ensures
        s.filter(p).filter(q) == s.filter(|x: A| p(x) && q(x)),
    decreases s.len(),
{
    reveal(Seq::filter);
    if s.len() > 0 {
        lemma_filter_filter(s.drop_last(), p, q);
        let sub = s.drop_last().filter(p);
        if p(s.last()) {
            assert(sub.push(s.last()).drop_last() =~= sub);
        }
    }
}

/// Every element of a filter satisfies the predicate and comes from the source.
pub proof fn lemma_filter_elements<A>(s: Seq<A>, p: spec_fn(A) -> bool)
    ensures
        forall|i: int| 0 <= i < s.filter(p).len() ==> p(#[trigger] s.filter(p)[i]) && s.contains(s.filter(p)[i]),
        forall|i: int| 0 <= i < s.len() && p(s[i]) ==> #[trigger] s.filter(p).contains(s[i]),
    decreases s.len(),
{
    reveal(Seq::filter);
    if s.len() > 0 {
        lemma_filter_elements(s.drop_last(), p);
        let sub = s.drop_last().filter(p);
        let out = s.filter(p);
        assert forall|i: int| 0 <= i < out.len() implies p(#[trigger] out[i]) && s.contains(out[i]) by {
            if i < sub.len() {
                assert(out[i] == sub[i]);
                let j = choose|j: int| 0 <= j < s.drop_last().len() && s.drop_last()[j] == sub[i];
                assert(s[j] == out[i]);
            } else {
                assert(out[i] == s[s.len() - 1]);
            }
        }
        assert forall|i: int| 0 <= i < s.len() && p(s[i]) implies #[trigger] out.contains(s[i]) by {
            if i < s.len() - 1 {
                assert(s.drop_last()[i] == s[i]);
                assert(sub.contains(s[i]));
                let j = choose|j: int| 0 <= j < sub.len() && sub[j] == s[i];
                assert(out[j] == s[i]);
            } else {
                assert(out[out.len() - 1] == s[i]);
            }
        }
    }
}

/// Mapping commutes with filtering when the predicate only reads what the
/// map keeps.
pub proof fn lemma_filter_map_values<A, B>(s: Seq<A>, f: spec_fn(A) -> B, p: spec_fn(B) -> bool)
    ensures
        s.map_values(f).filter(p) == s.filter(|x: A| p(f(x))).map_values(f),
    decreases s.len(),
{
    reveal(Seq::filter);
    if s.len() > 0 {
        lemma_filter_map_values(s.drop_last(), f, p);
        assert(s.map_values(f).drop_last() =~= s.drop_last().map_values(f));
        let sub = s.drop_last().filter(|x: A| p(f(x)));
        if p(f(s.last())) {
            assert(sub.push(s.last()).map_values(f) =~= sub.map_values(f).push(f(s.last())));
        }
    }
}

} // verus!
