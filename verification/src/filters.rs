//! Facts about `Seq::filter` that the batch operations rest on: a table
//! after some rows were removed is the table filtered by "not removed".
use vstd::prelude::*;

verus! {

/// Filtering by two predicates that agree on every element gives the same
/// sequence.
pub proof fn lemma_filter_ext<A>(s: Seq<A>, p: spec_fn(A) -> bool, q: spec_fn(A) -> bool)
    requires
        forall|i: int| 0 <= i < s.len() ==> #[trigger] p(s[i]) == q(s[i]),
    ensures
        s.filter(p) == s.filter(q),
    decreases s.len(),
{
    reveal(Seq::filter);
    if s.len() > 0 {
        let t = s.drop_last();
        assert forall|i: int| 0 <= i < t.len() implies #[trigger] p(t[i]) == q(t[i]) by {
            assert(t[i] == s[i]);
        }
        lemma_filter_ext(t, p, q);
        assert(p(s[s.len() - 1]) == q(s[s.len() - 1]));
    }
}

/// Filtering twice is filtering once by both predicates, `r`.
pub proof fn lemma_filter_and<A>(s: Seq<A>, p: spec_fn(A) -> bool, q: spec_fn(A) -> bool, r: spec_fn(A) -> bool)
    requires
        forall|x: A| #[trigger] r(x) == (p(x) && q(x)),
    ensures
        s.filter(p).filter(q) == s.filter(r),
    decreases s.len(),
{
    reveal(Seq::filter);
    if s.len() > 0 {
        let t = s.drop_last();
        let x = s.last();
        lemma_filter_and(t, p, q, r);
        if p(x) {
            t.filter(p).lemma_filter_push(x, q);
        }
    }
}

/// A predicate that holds of every element keeps the whole sequence.
pub proof fn lemma_filter_all<A>(s: Seq<A>, q: spec_fn(A) -> bool)
    requires
        forall|i: int| 0 <= i < s.len() ==> #[trigger] q(s[i]),
    ensures
        s.filter(q) == s,
    decreases s.len(),
{
    reveal(Seq::filter);
    if s.len() > 0 {
        let t = s.drop_last();
        assert forall|i: int| 0 <= i < t.len() implies #[trigger] q(t[i]) by {
            assert(t[i] == s[i]);
        }
        lemma_filter_all(t, q);
        assert(q(s[s.len() - 1]));
        assert(t.push(s.last()) =~= s);
    }
}

/// A predicate that fails at index `k` alone removes that element.
pub proof fn lemma_filter_one<A>(s: Seq<A>, q: spec_fn(A) -> bool, k: int)
    requires
        0 <= k < s.len(),
        !q(s[k]),
        forall|i: int| 0 <= i < s.len() && i != k ==> #[trigger] q(s[i]),
    ensures
        s.filter(q) == s.remove(k),
    decreases s.len(),
{
    reveal(Seq::filter);
    let t = s.drop_last();
    if k == s.len() - 1 {
        assert forall|i: int| 0 <= i < t.len() implies #[trigger] q(t[i]) by {
            assert(t[i] == s[i]);
        }
        lemma_filter_all(t, q);
        assert(s.remove(k) =~= t);
    } else {
        assert(t[k] == s[k]);
        assert forall|i: int| 0 <= i < t.len() && i != k implies #[trigger] q(t[i]) by {
            assert(t[i] == s[i]);
        }
        lemma_filter_one(t, q, k);
        assert(q(s[s.len() - 1]));
        assert(t.remove(k).push(s.last()) =~= s.remove(k));
    }
}

} // verus!
