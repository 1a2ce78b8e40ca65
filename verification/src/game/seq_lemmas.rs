//! Facts about the filtered prefixes of a sequence.

use vstd::prelude::*;

verus! {

/// One more element of a sequence either joins the filtered prefix or leaves it as it was.
pub proof fn lemma_filter_take_step<A>(s: Seq<A>, pred: spec_fn(A) -> bool, k: int)
    requires
        0 <= k < s.len(),
    ensures
        s.take(k + 1).filter(pred) == if pred(s[k]) {
            s.take(k).filter(pred).push(s[k])
        } else {
            s.take(k).filter(pred)
        },
{
    reveal(Seq::filter);
    assert(s.take(k + 1).drop_last() =~= s.take(k));
}

/// A stretch of elements that all fail the test adds nothing to the filtered prefix.
pub proof fn lemma_filter_take_skip<A>(s: Seq<A>, pred: spec_fn(A) -> bool, from: int, to: int)
    requires
        0 <= from <= to <= s.len(),
        forall|k: int| from <= k < to ==> !pred(#[trigger] s[k]),
    ensures
        s.take(to).filter(pred) == s.take(from).filter(pred),
    decreases to - from,
{
    if from < to {
        lemma_filter_take_skip(s, pred, from, to - 1);
        lemma_filter_take_step(s, pred, to - 1);
    }
}

} // verus!
