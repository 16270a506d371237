//! Facts about sequences that the walks over tables rest on.

use vstd::prelude::*;

verus! {

/// A step of a walk over `s`: the members of the first `i + 1` that satisfy
/// `pred` are those of the first `i`, and `s[i]` if it does.
pub proof fn lemma_filter_step<A>(s: Seq<A>, pred: spec_fn(A) -> bool, i: int)
    requires
        0 <= i < s.len(),
    ensures
        s.take(i + 1).filter(pred) == if pred(s[i]) {
            s.take(i).filter(pred).push(s[i])
        } else {
            s.take(i).filter(pred)
        },
{
    reveal(Seq::filter);
    assert(s.take(i + 1).drop_last() =~= s.take(i));
}

/// Where no member satisfies `pred`, nothing is selected.
pub proof fn lemma_filter_none<A>(s: Seq<A>, pred: spec_fn(A) -> bool)
    requires
        forall|k: int| 0 <= k < s.len() ==> !pred(#[trigger] s[k]),
    ensures
        s.filter(pred).len() == 0,
    decreases s.len(),
{
    reveal(Seq::filter);
    if s.len() > 0 {
        assert forall|k: int| 0 <= k < s.drop_last().len() implies !pred(
            #[trigger] s.drop_last()[k],
        ) by {
            assert(s.drop_last()[k] == s[k]);
        }
        lemma_filter_none(s.drop_last(), pred);
    }
}

/// The first member that satisfies `pred` is the first that is selected.
pub proof fn lemma_filter_first<A>(s: Seq<A>, pred: spec_fn(A) -> bool, i: int)
    requires
        0 <= i < s.len(),
        pred(s[i]),
        forall|k: int| 0 <= k < i ==> !pred(#[trigger] s[k]),
    ensures
        s.filter(pred).len() > 0,
        s.filter(pred)[0] == s[i],
{
    assert(s =~= s.take(i + 1) + s.skip(i + 1));
    Seq::filter_distributes_over_add(s.take(i + 1), s.skip(i + 1), pred);
    lemma_filter_step(s, pred, i);
    assert forall|k: int| 0 <= k < s.take(i).len() implies !pred(#[trigger] s.take(i)[k]) by {
        assert(s.take(i)[k] == s[k]);
    }
    lemma_filter_none(s.take(i), pred);
}

} // verus!
