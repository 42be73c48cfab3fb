//! What holds of every scan and of every run of the machine.

use vstd::prelude::*;
use crate::candidate::{
    candidate_of, class_of, count_of, eligible, is_eligible, CandidateView, EntryClass, ProbeView,
};
use crate::eviction::{
    decision, goes_before, is_eviction_order, is_oldest, lemma_oldest_index, lists,
    oldest_index, DecisionView,
};
use crate::monitor::{
    answers, awaited, counts_of, heeded, issued, next_phase, next_summary, ActionView,
    CycleSummary, EventView, LastAction, PhaseView, ScanCounts,
};

verus! {

/// The candidates of two lists of entries, one after the other, are the
/// candidates of the first followed by those of the second.
pub proof fn lemma_eligible_concat(a: Seq<ProbeView>, b: Seq<ProbeView>)
    ensures
        eligible(a + b) == eligible(a) + eligible(b),
    decreases b.len(),
{
    if b.len() == 0 {
        assert(a + b =~= a);
        assert(eligible(a) + eligible(b) =~= eligible(a));
    } else {
        lemma_eligible_concat(a, b.drop_last());
        assert((a + b).drop_last() =~= a + b.drop_last());
        assert((a + b).last() == b.last());
        if is_eligible(b.last()) {
            assert(eligible(a + b) =~= eligible(a) + eligible(b));
        }
    }
}

/// The entries of a class in two lists, one after the other, are as many as
/// in both together.
pub proof fn lemma_count_concat(a: Seq<ProbeView>, b: Seq<ProbeView>, class: EntryClass)
    ensures
        count_of(a + b, class) == count_of(a, class) + count_of(b, class),
    decreases b.len(),
{
    if b.len() == 0 {
        assert(a + b =~= a);
    } else {
        lemma_count_concat(a, b.drop_last(), class);
        assert((a + b).drop_last() =~= a + b.drop_last());
        assert((a + b).last() == b.last());
    }
}

/// An entry that is not eligible, put anywhere among the entries of a scan,
/// changes neither the candidates, nor their count, nor the decision.
pub proof fn lemma_ineligible_entry_ignored(
    probes: Seq<ProbeView>,
    at: int,
    entry: ProbeView,
    limit: int,
)
    requires
        0 <= at <= probes.len(),
        !is_eligible(entry),
    ensures
        eligible(probes.insert(at, entry)) == eligible(probes),
        count_of(probes.insert(at, entry), EntryClass::Eligible) == count_of(
            probes,
            EntryClass::Eligible,
        ),
        decision(eligible(probes.insert(at, entry)), limit) == decision(eligible(probes), limit),
{
    let front = probes.take(at);
    let back = probes.skip(at);
    assert(probes.insert(at, entry) =~= front.push(entry) + back);
    assert(probes =~= front + back);
    assert(front.push(entry).drop_last() =~= front);
    lemma_eligible_concat(front.push(entry), back);
    lemma_eligible_concat(front, back);
    lemma_count_concat(front.push(entry), back, EntryClass::Eligible);
    lemma_count_concat(front, back, EntryClass::Eligible);
}

/// A read-only regular file is no candidate, whatever its age: with it or
/// without it the candidates, their count and the decision are the same.
pub proof fn lemma_read_only_file_excluded(
    probes: Seq<ProbeView>,
    at: int,
    entry: ProbeView,
    limit: int,
)
    requires
        0 <= at <= probes.len(),
        class_of(entry.meta) == EntryClass::ReadOnly,
    ensures
        eligible(probes.insert(at, entry)) == eligible(probes),
        eligible(probes.insert(at, entry)).len() == eligible(probes).len(),
        decision(eligible(probes.insert(at, entry)), limit) == decision(eligible(probes), limit),
{
    lemma_ineligible_entry_ignored(probes, at, entry, limit);
}

/// A subdirectory, or any other entry that is no regular file, is no
/// candidate: with it or without it the candidates, their count and the
/// decision are the same.
pub proof fn lemma_non_file_excluded(
    probes: Seq<ProbeView>,
    at: int,
    entry: ProbeView,
    limit: int,
)
    requires
        0 <= at <= probes.len(),
        class_of(entry.meta) == EntryClass::NotAFile,
    ensures
        eligible(probes.insert(at, entry)) == eligible(probes),
        eligible(probes.insert(at, entry)).len() == eligible(probes).len(),
        decision(eligible(probes.insert(at, entry)), limit) == decision(eligible(probes), limit),
{
    lemma_ineligible_entry_ignored(probes, at, entry, limit);
}

/// An entry whose metadata could not be fetched is left out in silence: with
/// it or without it the candidates and the decision are the same.
pub proof fn lemma_unreadable_entry_excluded(
    probes: Seq<ProbeView>,
    at: int,
    entry: ProbeView,
    limit: int,
)
    requires
        0 <= at <= probes.len(),
        entry.meta is None,
    ensures
        eligible(probes.insert(at, entry)) == eligible(probes),
        decision(eligible(probes.insert(at, entry)), limit) == decision(eligible(probes), limit),
{
    lemma_ineligible_entry_ignored(probes, at, entry, limit);
}

/// Every candidate stands for an eligible entry of the scan: a writable
/// regular file, with that entry's path and time.
pub proof fn lemma_candidates_are_eligible(probes: Seq<ProbeView>, k: int)
    requires
        0 <= k < eligible(probes).len(),
    ensures
        exists|j: int|
            0 <= j < probes.len() && is_eligible(#[trigger] probes[j]) && eligible(probes)[k]
                == candidate_of(probes[j]),
    decreases probes.len(),
{
    let front = probes.drop_last();
    if is_eligible(probes.last()) && k == eligible(front).len() {
        assert(is_eligible(probes[probes.len() - 1]));
    } else {
        lemma_candidates_are_eligible(front, k);
        let j = choose|j: int|
            0 <= j < front.len() && is_eligible(#[trigger] front[j]) && eligible(front)[k]
                == candidate_of(front[j]);
        assert(is_eligible(probes[j]));
    }
}

/// The oldest candidate has one place only.
pub proof fn lemma_oldest_unique(candidates: Seq<CandidateView>, i: int, j: int)
    requires
        is_oldest(candidates, i),
        is_oldest(candidates, j),
    ensures
        i == j,
{
    if i < j {
        assert(candidates[j].last_modified_time < candidates[i].last_modified_time);
        assert(candidates[i].last_modified_time <= candidates[j].last_modified_time);
    } else if j < i {
        assert(candidates[i].last_modified_time < candidates[j].last_modified_time);
        assert(candidates[j].last_modified_time <= candidates[i].last_modified_time);
    }
}

/// The eviction order starts with the oldest candidate: what a cycle removes
/// is the head of the candidates sorted by age, those of the same age kept in
/// enumeration order.
pub proof fn lemma_eviction_order_starts_with_oldest(
    candidates: Seq<CandidateView>,
    order: Seq<usize>,
)
    requires
        candidates.len() > 0,
        is_eviction_order(candidates, order),
    ensures
        order[0] == oldest_index(candidates),
        is_oldest(candidates, order[0] as int),
{
    let head = order[0] as int;
    assert forall|j: int| 0 <= j < candidates.len() implies candidates[head].last_modified_time
        <= #[trigger] candidates[j].last_modified_time by {
        assert(lists(order, j));
        let l = choose|l: int| 0 <= l < order.len() && #[trigger] order[l] == j;
        if l > 0 {
            assert(goes_before(candidates, order[0] as int, order[l] as int));
        }
    }
    assert forall|j: int| 0 <= j < head implies candidates[head].last_modified_time
        < #[trigger] candidates[j].last_modified_time by {
        assert(lists(order, j));
        let l = choose|l: int| 0 <= l < order.len() && #[trigger] order[l] == j;
        assert(goes_before(candidates, order[0] as int, order[l] as int));
    }
    lemma_oldest_index(candidates);
    lemma_oldest_unique(candidates, head, oldest_index(candidates));
}

/// The eviction order is sorted by age, oldest first.
pub proof fn lemma_eviction_order_sorted(candidates: Seq<CandidateView>, order: Seq<usize>)
    requires
        is_eviction_order(candidates, order),
    ensures
        forall|k: int, l: int|
            0 <= k <= l < order.len() ==> candidates[#[trigger] order[k] as int].last_modified_time
                <= candidates[#[trigger] order[l] as int].last_modified_time,
{
    assert forall|k: int, l: int| 0 <= k <= l < order.len() implies candidates[#[trigger] order[k] as int]
        .last_modified_time <= candidates[#[trigger] order[l] as int].last_modified_time by {
        if k < l {
            assert(goes_before(candidates, order[k] as int, order[l] as int));
        }
    }
}

/// While the candidates are no more than the limit, the decision is to
/// remove nothing, and the cycle goes back to waiting without asking for a
/// removal.
pub proof fn lemma_within_limit_nothing_removed(
    probes: Seq<ProbeView>,
    cycle_limit: u32,
    configured: u32,
    last: Option<CycleSummary>,
)
    requires
        eligible(probes).len() <= cycle_limit,
    ensures
        decision(eligible(probes), cycle_limit as int) == DecisionView::Keep,
        next_phase(
            PhaseView::Enumerating { limit: cycle_limit },
            configured,
            EventView::Listed(Some(probes)),
        ) == PhaseView::Waiting,
        issued(
            PhaseView::Enumerating { limit: cycle_limit },
            configured,
            EventView::Listed(Some(probes)),
        ) == Some(ActionView::Wait(10)),
        next_summary(
            PhaseView::Enumerating { limit: cycle_limit },
            last,
            EventView::Listed(Some(probes)),
        ) == Some(
            CycleSummary {
                counts: Some(counts_of(probes)),
                last_action: LastAction::NothingRemoved,
            },
        ),
{
}

/// Above the limit the cycle asks for the removal of one file: the oldest
/// candidate, the first in enumeration order among those of the same age.
/// Whatever the outcome of the removal, the cycle then ends: the machine
/// waits for the next interval and asks for no second removal.
pub proof fn lemma_one_removal_above_limit(
    probes: Seq<ProbeView>,
    cycle_limit: u32,
    configured: u32,
    removed: bool,
)
    requires
        eligible(probes).len() > cycle_limit,
    ensures
        ({
            let candidates = eligible(probes);
            let target = candidates[oldest_index(candidates)];
            let evicting = PhaseView::Evicting { target, counts: counts_of(probes) };
            &&& is_oldest(candidates, oldest_index(candidates))
            &&& next_phase(
                PhaseView::Enumerating { limit: cycle_limit },
                configured,
                EventView::Listed(Some(probes)),
            ) == evicting
            &&& issued(
                PhaseView::Enumerating { limit: cycle_limit },
                configured,
                EventView::Listed(Some(probes)),
            ) == Some(ActionView::Remove(target.path))
            &&& next_phase(evicting, configured, EventView::RemovalFinished(removed))
                == PhaseView::Waiting
            &&& issued(evicting, configured, EventView::RemovalFinished(removed)) == Some(
                ActionView::Wait(10),
            )
        }),
{
    lemma_oldest_index(eligible(probes));
}

/// A removal is asked for in one situation only: the directory was listed
/// and its candidates exceed the limit that the cycle started with. The file
/// is then the oldest candidate.
pub proof fn lemma_removal_only_above_limit(
    phase: PhaseView,
    configured: u32,
    event: EventView,
    path: Seq<char>,
)
    requires
        issued(phase, configured, event) == Some(ActionView::Remove(path)),
    ensures
        phase is Enumerating,
        event is Listed,
        event->Listed_0 is Some,
        ({
            let candidates = eligible(event->Listed_0.unwrap());
            &&& candidates.len() > phase->Enumerating_limit
            &&& is_oldest(candidates, oldest_index(candidates))
            &&& path == candidates[oldest_index(candidates)].path
        }),
{
    if phase is Enumerating && event is Listed && event->Listed_0 is Some {
        let candidates = eligible(event->Listed_0.unwrap());
        if candidates.len() > 0 {
            lemma_oldest_index(candidates);
        }
    }
}

/// While a removal is awaited no event makes the machine ask for another:
/// between two removals an interval passes.
pub proof fn lemma_no_removal_while_evicting(
    target: CandidateView,
    counts: ScanCounts,
    configured: u32,
    event: EventView,
)
    ensures
        !(issued(PhaseView::Evicting { target, counts }, configured, event) matches Some(
            ActionView::Remove(_),
        )),
        next_phase(PhaseView::Evicting { target, counts }, configured, event) is Evicting
            || next_phase(PhaseView::Evicting { target, counts }, configured, event) is Waiting
            || next_phase(PhaseView::Evicting { target, counts }, configured, event) is Stopped,
{
}

/// How many removals the machine asks for while the given events arrive one
/// after the other, from phase `phase` on.
pub open spec fn removals_asked(phase: PhaseView, configured: u32, events: Seq<EventView>) -> nat
    decreases events.len(),
{
    if events.len() == 0 {
        0
    } else {
        let asked: nat = if issued(phase, configured, events.first()) matches Some(
            ActionView::Remove(_),
        ) {
            1
        } else {
            0
        };
        asked + removals_asked(
            next_phase(phase, configured, events.first()),
            configured,
            events.drop_first(),
        )
    }
}

/// At most one removal is asked for per cycle: over any run of events in
/// which no interval ends, however long, and from whatever phase it starts,
/// the machine asks for one removal at most.
pub proof fn lemma_one_removal_per_cycle(
    phase: PhaseView,
    configured: u32,
    events: Seq<EventView>,
)
    requires
        forall|i: int| 0 <= i < events.len() ==> !(#[trigger] events[i] is IntervalElapsed),
    ensures
        removals_asked(phase, configured, events) <= 1,
        !(phase is CheckingPermission || phase is Enumerating) ==> removals_asked(
            phase,
            configured,
            events,
        ) == 0,
    decreases events.len(),
{
    if events.len() > 0 {
        let first = events.first();
        let rest = events.drop_first();
        assert(!(events[0] is IntervalElapsed));
        assert forall|i: int| 0 <= i < rest.len() implies !(#[trigger] rest[i]
            is IntervalElapsed) by {
            assert(rest[i] == events[i + 1]);
        }
        lemma_one_removal_per_cycle(next_phase(phase, configured, first), configured, rest);
    }
}

/// A removal that fails, as when the file was taken away by someone else
/// after it was chosen, ends the cycle like any other: the failure is
/// recorded, the machine waits, and the next interval starts a new cycle.
pub proof fn lemma_failed_removal_absorbed(
    target: CandidateView,
    counts: ScanCounts,
    configured: u32,
    last: Option<CycleSummary>,
)
    ensures
        ({
            let evicting = PhaseView::Evicting { target, counts };
            &&& next_phase(evicting, configured, EventView::RemovalFinished(false))
                == PhaseView::Waiting
            &&& next_summary(evicting, last, EventView::RemovalFinished(false)) == Some(
                CycleSummary { counts: Some(counts), last_action: LastAction::RemovalFailed },
            )
            &&& next_phase(PhaseView::Waiting, configured, EventView::IntervalElapsed)
                == (PhaseView::CheckingPermission { limit: configured })
            &&& issued(PhaseView::Waiting, configured, EventView::IntervalElapsed) == Some(
                ActionView::QueryDirectory,
            )
        }),
{
}

/// Once the watched directory is there, nothing but a shutdown request ends
/// the machine: whatever fails inside a cycle, the next phase is one of the
/// cycle's own.
pub proof fn lemma_cycle_survives_failures(phase: PhaseView, configured: u32, event: EventView)
    requires
        phase is Waiting || phase is CheckingPermission || phase is Enumerating
            || phase is Evicting,
        !(event is ShutdownRequested),
    ensures
        ({
            let following = next_phase(phase, configured, event);
            following is Waiting || following is CheckingPermission || following is Enumerating
                || following is Evicting
        }),
{
}

/// Every failure inside a cycle leads straight back to the wait.
pub proof fn lemma_failures_lead_to_wait(cycle_limit: u32, configured: u32, read_only: bool)
    ensures
        next_phase(
            PhaseView::CheckingPermission { limit: cycle_limit },
            configured,
            EventView::DirectoryMetadata(None),
        ) == PhaseView::Waiting,
        next_phase(
            PhaseView::CheckingPermission { limit: cycle_limit },
            configured,
            EventView::DirectoryMetadata(Some(true)),
        ) == PhaseView::Waiting,
        next_phase(
            PhaseView::Enumerating { limit: cycle_limit },
            configured,
            EventView::Listed(None),
        ) == PhaseView::Waiting,
{
}

/// A directory that is already there is not created again, and monitoring
/// starts; one that is missing is created first, and monitoring starts only
/// if that succeeds.
pub proof fn lemma_ensure_directory(configured: u32, created: bool)
    ensures
        issued(PhaseView::Ensuring, configured, EventView::Existence(true)) == Some(
            ActionView::Wait(10),
        ),
        issued(PhaseView::Ensuring, configured, EventView::Existence(false)) == Some(
            ActionView::CreateDirectory,
        ),
        next_phase(PhaseView::Creating, configured, EventView::Created(created)) == if created {
            PhaseView::Waiting
        } else {
            PhaseView::Failed
        },
{
}

/// An event that the phase does not await leaves the phase and the summary
/// as they were.
pub proof fn lemma_unawaited_event_ignored(
    phase: PhaseView,
    configured: u32,
    last: Option<CycleSummary>,
    event: EventView,
)
    requires
        !heeded(phase, event),
    ensures
        next_phase(phase, configured, event) == phase,
        next_summary(phase, last, event) == last,
        issued(phase, configured, event) is None,
        !answers(phase, event),
{
}

} // verus!
