//! Facts about `Seq::filter` used to reason about canonical record orders.
use vstd::prelude::*;

verus! {

/// Whether some element of `s` satisfies `pred`.
pub open spec fn some_satisfies<A>(s: Seq<A>, pred: spec_fn(A) -> bool) -> bool {
    exists|i: int| 0 <= i < s.len() && #[trigger] pred(s[i])
}

/// Whether two distinct positions of `s` satisfy `pred`.
pub open spec fn two_satisfy<A>(s: Seq<A>, pred: spec_fn(A) -> bool) -> bool {
    exists|i: int, j: int| 0 <= i < j < s.len() && #[trigger] pred(s[i]) && #[trigger] pred(s[j])
}

pub proof fn lemma_filter_empty_iff<A>(s: Seq<A>, pred: spec_fn(A) -> bool)
    ensures
        (s.filter(pred).len() == 0) <==> !some_satisfies(s, pred),
    decreases s.len(),
{
    reveal(Seq::filter);
    if s.len() > 0 {
        let t = s.drop_last();
        lemma_filter_empty_iff(t, pred);
        if some_satisfies(t, pred) {
            let i = choose|i: int| 0 <= i < t.len() && #[trigger] pred(t[i]);
            assert(pred(s[i]));
        }
        if some_satisfies(s, pred) && !pred(s.last()) {
            let i = choose|i: int| 0 <= i < s.len() && #[trigger] pred(s[i]);
            assert(i < s.len() - 1);
            assert(pred(t[i]));
        }
    }
}

pub proof fn lemma_filter_two_iff<A>(s: Seq<A>, pred: spec_fn(A) -> bool)
    ensures
        (s.filter(pred).len() >= 2) <==> two_satisfy(s, pred),
    decreases s.len(),
{
    reveal(Seq::filter);
    if s.len() > 0 {
        let t = s.drop_last();
        let n = s.len() - 1;
        lemma_filter_two_iff(t, pred);
        lemma_filter_empty_iff(t, pred);
        if two_satisfy(t, pred) {
            let (i, j) = choose|i: int, j: int|
                0 <= i < j < t.len() && #[trigger] pred(t[i]) && #[trigger] pred(t[j]);
            assert(pred(s[i]) && pred(s[j]));
        }
        if pred(s.last()) && some_satisfies(t, pred) {
            let i = choose|i: int| 0 <= i < t.len() && #[trigger] pred(t[i]);
            assert(pred(s[i]) && pred(s[n]));
        }
        if two_satisfy(s, pred) {
            let (i, j) = choose|i: int, j: int|
                0 <= i < j < s.len() && #[trigger] pred(s[i]) && #[trigger] pred(s[j]);
            if j == n {
                assert(pred(t[i]));
            } else {
                assert(pred(t[i]) && pred(t[j]));
            }
        }
    }
}

pub proof fn lemma_filter_all_false<A>(s: Seq<A>, pred: spec_fn(A) -> bool)
    requires
        forall|i: int| 0 <= i < s.len() ==> !#[trigger] pred(s[i]),
    ensures
        s.filter(pred) == Seq::<A>::empty(),
{
    lemma_filter_empty_iff(s, pred);
}

/// The filter of a sequence whose last element satisfies `pred` ends with it.
pub proof fn lemma_filter_last<A>(s: Seq<A>, pred: spec_fn(A) -> bool)
    requires
        s.len() > 0,
        pred(s.last()),
    ensures
        s.filter(pred) == s.drop_last().filter(pred).push(s.last()),
{
    reveal(Seq::filter);
}

/// The filter of a sequence whose last element fails `pred` ignores it.
pub proof fn lemma_filter_last_fails<A>(s: Seq<A>, pred: spec_fn(A) -> bool)
    requires
        s.len() > 0,
        !pred(s.last()),
    ensures
        s.filter(pred) == s.drop_last().filter(pred),
{
    reveal(Seq::filter);
}

} // verus!
