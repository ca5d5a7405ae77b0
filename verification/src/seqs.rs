//! Facts about filtered sequences.

use vstd::prelude::*;

verus! {

/// Filtering a sequence that ends in `x` filters what comes before `x`
/// and then keeps or drops `x`.
pub proof fn lemma_filter_push<A>(s: Seq<A>, x: A, keep: spec_fn(A) -> bool)
    ensures
        s.push(x).filter(keep) == if keep(x) {
            s.filter(keep).push(x)
        } else {
            s.filter(keep)
        },
{
    reveal(Seq::filter);
    assert(s.push(x).drop_last() =~= s);
}

/// Filtering the first `k + 1` elements of a sequence filters the first
/// `k` and then keeps or drops the next.
pub proof fn lemma_filter_take<A>(s: Seq<A>, k: int, keep: spec_fn(A) -> bool)
    requires
        0 <= k < s.len(),
    ensures
        s.take(k + 1).filter(keep) == if keep(s[k]) {
            s.take(k).filter(keep).push(s[k])
        } else {
            s.take(k).filter(keep)
        },
{
    assert(s.take(k + 1) =~= s.take(k).push(s[k]));
    lemma_filter_push(s.take(k), s[k], keep);
}

/// Nothing is left of an empty sequence.
pub proof fn lemma_filter_empty<A>(keep: spec_fn(A) -> bool)
    ensures
        Seq::<A>::empty().filter(keep) == Seq::<A>::empty(),
{
    reveal(Seq::filter);
}

/// A filtered sequence is the sequence read at rising indices: the
/// result gives, for each element that was kept, where it stood.
pub proof fn lemma_filter_indices<A>(s: Seq<A>, keep: spec_fn(A) -> bool) -> (at: Seq<int>)
    ensures
        at.len() == s.filter(keep).len(),
        forall|i: int| 0 <= i < at.len() ==> 0 <= #[trigger] at[i] < s.len(),
        forall|i: int| 0 <= i < at.len() ==> s.filter(keep)[i] == s[#[trigger] at[i]],
        forall|i: int, j: int| 0 <= i < j < at.len() ==> #[trigger] at[i] < #[trigger] at[j],
    decreases s.len(),
{
    reveal(Seq::filter);
    if s.len() == 0 {
        Seq::empty()
    } else {
        let before = lemma_filter_indices(s.drop_last(), keep);
        if keep(s.last()) {
            before.push(s.len() - 1)
        } else {
            before
        }
    }
}

} // verus!
