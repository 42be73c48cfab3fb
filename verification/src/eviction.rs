//! Which file, if any, one cycle removes.
//!
//! A cycle removes nothing while the candidates are no more than the limit.
//! Above it, the cycle removes exactly one: the candidate that was modified
//! the longest ago. Where several share that time, the one that the
//! directory enumeration yielded first is taken.

use vstd::prelude::*;
use crate::candidate::{candidate_views, CandidateView, FileCandidate};

verus! {

/// `i` is the place of the oldest candidate: no candidate is older, and none
/// before it is as old.
pub open spec fn is_oldest(candidates: Seq<CandidateView>, i: int) -> bool {
    &&& 0 <= i < candidates.len()
    &&& forall|j: int|
        0 <= j < candidates.len() ==> candidates[i].last_modified_time
            <= #[trigger] candidates[j].last_modified_time
    &&& forall|j: int|
        0 <= j < i ==> candidates[i].last_modified_time
            < #[trigger] candidates[j].last_modified_time
}

/// The place of the oldest candidate (0 where there is none).
pub open spec fn oldest_index(candidates: Seq<CandidateView>) -> int
    decreases candidates.len(),
{
    if candidates.len() <= 1 {
        0
    } else {
        let i = oldest_index(candidates.drop_last());
        if candidates.last().last_modified_time < candidates[i].last_modified_time {
            candidates.len() - 1
        } else {
            i
        }
    }
}

/// What one cycle does with the candidates it found.
#[derive(Clone, Debug, PartialEq, Eq)]
pub enum EvictionDecision {
    /// The candidates are within the limit: nothing is removed.
    Keep,
    /// The candidates exceed the limit: this one is removed.
    Delete(FileCandidate),
}

/// The mathematical value of an [`EvictionDecision`].
pub ghost enum DecisionView {
    Keep,
    Delete(CandidateView),
}

impl View for EvictionDecision {
    type V = DecisionView;

    open spec fn view(&self) -> DecisionView {
        match self {
            EvictionDecision::Keep => DecisionView::Keep,
            EvictionDecision::Delete(c) => DecisionView::Delete(c@),
        }
    }
}

/// The decision for the given candidates under the given limit.
pub open spec fn decision(candidates: Seq<CandidateView>, limit: int) -> DecisionView {
    if candidates.len() > limit {
        DecisionView::Delete(candidates[oldest_index(candidates)])
    } else {
        DecisionView::Keep
    }
}

/// Among one or more candidates, `oldest_index` is the place of the oldest.
pub proof fn lemma_oldest_index(candidates: Seq<CandidateView>)
    requires
        candidates.len() > 0,
    ensures
        is_oldest(candidates, oldest_index(candidates)),
    decreases candidates.len(),
{
    if candidates.len() > 1 {
        let front = candidates.drop_last();
        lemma_oldest_index(front);
        let i = oldest_index(front);
        let k = oldest_index(candidates);
        assert forall|j: int| 0 <= j < candidates.len() implies candidates[k].last_modified_time
            <= #[trigger] candidates[j].last_modified_time by {
            if j < front.len() {
                assert(front[j] == candidates[j]);
            }
        }
        assert forall|j: int| 0 <= j < k implies candidates[k].last_modified_time
            < #[trigger] candidates[j].last_modified_time by {
            assert(front[j] == candidates[j]);
        }
    }
}

/// Finds the oldest candidate: `None` where there is no candidate, else the
/// place of the one with the least modification time, the first of them in
/// enumeration order where several share it.
pub fn find_oldest(candidates: &Vec<FileCandidate>) -> (place: Option<usize>)
    ensures
        candidates.len() == 0 <==> place is None,
        place is Some ==> place.unwrap() == oldest_index(candidate_views(candidates@)),
        place is Some ==> is_oldest(candidate_views(candidates@), place.unwrap() as int),
{
    if candidates.len() == 0 {
        return None;
    }
    let ghost all = candidate_views(candidates@);
    let mut best: usize = 0;
    let mut i: usize = 1;
    proof {
        assert(oldest_index(all.take(1)) == 0);
    }
    while i < candidates.len()
        invariant
            1 <= i <= candidates.len(),
            all == candidate_views(candidates@),
            best < i,
            best == oldest_index(all.take(i as int)),
        decreases candidates.len() - i,
    {
        proof {
            assert(all.take(i + 1).drop_last() =~= all.take(i as int));
            assert(all.take(i + 1).last() == candidates@[i as int]@);
            assert(all.take(i + 1)[best as int] == candidates@[best as int]@);
        }
        if candidates[i].last_modified_time < candidates[best].last_modified_time {
            best = i;
        }
        i += 1;
    }
    proof {
        assert(all.take(i as int) =~= all);
        lemma_oldest_index(all);
    }
    Some(best)
}

/// Decides what one cycle does: nothing while the candidates are no more
/// than `limit`; above it, the removal of the oldest candidate and of no
/// other.
pub fn decide(candidates: &Vec<FileCandidate>, limit: u32) -> (d: EvictionDecision)
    ensures
        d@ == decision(candidate_views(candidates@), limit as int),
        candidates.len() <= limit ==> d is Keep,
        candidates.len() > limit ==> d is Delete && exists|i: int|
            is_oldest(candidate_views(candidates@), i) && d->Delete_0@ == candidate_views(
                candidates@,
            )[i],
{
    if candidates.len() > limit as usize {
        match find_oldest(candidates) {
            Some(place) => {
                let c = &candidates[place];
                EvictionDecision::Delete(
                    FileCandidate {
                        path: c.path.clone(),
                        last_modified_time: c.last_modified_time,
                    },
                )
            },
            None => EvictionDecision::Keep,
        }
    } else {
        EvictionDecision::Keep
    }
}

/// The candidate at place `i` is evicted before the one at place `j`: it is
/// older, or as old and earlier in enumeration order.
pub open spec fn goes_before(candidates: Seq<CandidateView>, i: int, j: int) -> bool {
    candidates[i].last_modified_time < candidates[j].last_modified_time || (
    candidates[i].last_modified_time == candidates[j].last_modified_time && i < j)
}

/// `place` stands in `order`.
pub open spec fn lists(order: Seq<usize>, place: int) -> bool {
    exists|l: int| 0 <= l < order.len() && #[trigger] order[l] == place
}

/// `order` lists the places of the first `n` candidates, each once, so that
/// each goes before those listed after it.
pub open spec fn orders_first(candidates: Seq<CandidateView>, n: int, order: Seq<usize>) -> bool {
    &&& 0 <= n <= candidates.len()
    &&& order.len() == n
    &&& forall|k: int| 0 <= k < order.len() ==> 0 <= #[trigger] order[k] < n
    &&& forall|k: int, l: int|
        0 <= k < l < order.len() ==> goes_before(
            candidates,
            #[trigger] order[k] as int,
            #[trigger] order[l] as int,
        )
    &&& forall|place: int| 0 <= place < n ==> #[trigger] lists(order, place)
}

/// `order` lists the places of all candidates in the order in which they
/// would be evicted, one per cycle, if nothing else changed the directory.
pub open spec fn is_eviction_order(candidates: Seq<CandidateView>, order: Seq<usize>) -> bool {
    orders_first(candidates, candidates.len() as int, order)
}

/// Putting the place `n` into the order of the first `n` candidates, behind
/// every candidate that is not younger and before every younger one, gives
/// the order of the first `n + 1`.
proof fn lemma_insert_keeps_order(
    candidates: Seq<CandidateView>,
    n: usize,
    order: Seq<usize>,
    at: int,
)
    requires
        orders_first(candidates, n as int, order),
        n < candidates.len(),
        0 <= at <= order.len(),
        forall|k: int|
            at <= k < order.len() ==> candidates[n as int].last_modified_time
                < candidates[#[trigger] order[k] as int].last_modified_time,
        at > 0 ==> candidates[order[at - 1] as int].last_modified_time
            <= candidates[n as int].last_modified_time,
    ensures
        orders_first(candidates, n + 1, order.insert(at, n)),
{
    let longer = order.insert(at, n);
    assert forall|k: int, l: int| 0 <= k < l < longer.len() implies goes_before(
        candidates,
        #[trigger] longer[k] as int,
        #[trigger] longer[l] as int,
    ) by {
        if k == at {
            assert(longer[l] == order[l - 1]);
        } else if l == at {
            assert(longer[k] == order[k]);
            if k < at - 1 {
                assert(goes_before(candidates, order[k] as int, order[at - 1] as int));
            }
        } else {
            let k0 = if k < at {
                k
            } else {
                k - 1
            };
            let l0 = if l < at {
                l
            } else {
                l - 1
            };
            assert(longer[k] == order[k0]);
            assert(longer[l] == order[l0]);
            assert(goes_before(candidates, order[k0] as int, order[l0] as int));
        }
    }
    assert forall|place: int| 0 <= place < n + 1 implies #[trigger] lists(longer, place) by {
        if place == n {
            assert(longer[at] == place);
        } else {
            assert(lists(order, place));
            let l = choose|l: int| 0 <= l < order.len() && #[trigger] order[l] == place;
            if l < at {
                assert(longer[l] == place);
            } else {
                assert(longer[l + 1] == place);
            }
        }
    }
    assert forall|k: int| 0 <= k < longer.len() implies 0 <= #[trigger] longer[k] < n + 1 by {
        if k < at {
            assert(longer[k] == order[k]);
        } else if k > at {
            assert(longer[k] == order[k - 1]);
        }
    }
}

/// Lists the places of the candidates by age, oldest first, and by
/// enumeration order among those of the same age: the order in which they
/// would be evicted, one per cycle.
pub fn eviction_order(candidates: &Vec<FileCandidate>) -> (order: Vec<usize>)
    ensures
        is_eviction_order(candidate_views(candidates@), order@),
{
    let ghost all = candidate_views(candidates@);
    let mut order: Vec<usize> = Vec::new();
    let mut i: usize = 0;
    while i < candidates.len()
        invariant
            i <= candidates.len(),
            all == candidate_views(candidates@),
            orders_first(all, i as int, order@),
        decreases candidates.len() - i,
    {
        let age = candidates[i].last_modified_time;
        let mut at: usize = order.len();
        while at > 0 && candidates[order[at - 1]].last_modified_time > age
            invariant
                i < candidates.len(),
                all == candidate_views(candidates@),
                orders_first(all, i as int, order@),
                age == all[i as int].last_modified_time,
                at <= order.len(),
                forall|k: int|
                    at <= k < order.len() ==> all[i as int].last_modified_time
                        < all[#[trigger] order@[k] as int].last_modified_time,
            decreases at,
        {
            at -= 1;
        }
        proof {
            lemma_insert_keeps_order(all, i, order@, at as int);
        }
        order.insert(at, i);
        i += 1;
    }
    order
}

} // verus!
