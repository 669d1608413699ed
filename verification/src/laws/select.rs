//! Which of some numbered things are taken, in order.
use vstd::prelude::*;

verus! {

/// Whether `picks` are the numbers below `n` that are wanted: all of them, each once, from
/// the lowest up.
pub open spec fn selects(picks: Seq<int>, n: int, wanted: spec_fn(int) -> bool) -> bool {
    &&& forall|k: int|
        0 <= k < picks.len() ==> 0 <= #[trigger] picks[k] < n && wanted(picks[k])
    &&& forall|j: int, k: int|
        0 <= j < k < picks.len() ==> #[trigger] picks[j] < #[trigger] picks[k]
    &&& forall|i: int| 0 <= i < n && #[trigger] wanted(i) ==> picks.contains(i)
}

/// The numbers below `n` that are wanted.
pub open spec fn picks_of(n: int, wanted: spec_fn(int) -> bool) -> Seq<int>
    decreases n,
{
    if n <= 0 {
        Seq::empty()
    } else if wanted(n - 1) {
        picks_of(n - 1, wanted).push(n - 1)
    } else {
        picks_of(n - 1, wanted)
    }
}

/// There is always such a selection.
pub proof fn lemma_selects(n: int, wanted: spec_fn(int) -> bool)
    ensures
        selects(picks_of(n, wanted), n, wanted),
    decreases n,
{
    if n > 0 {
        lemma_selects(n - 1, wanted);
        let rest = picks_of(n - 1, wanted);
        let picks = picks_of(n, wanted);
        assert forall|i: int| 0 <= i < n && #[trigger] wanted(i) implies picks.contains(i) by {
            if i < n - 1 {
                let k = rest.index_of(i);
                assert(rest.contains(i));
                assert(picks[k] == i);
            } else {
                assert(picks[picks.len() - 1] == i);
            }
        }
    }
}

} // verus!
