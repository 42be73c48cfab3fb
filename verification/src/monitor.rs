//! The enforcement loop as a state machine.
//!
//! The machine never touches the file system or the clock. It says which
//! [`Action`] it awaits; whoever drives it performs that action and hands
//! back the [`Event`] that came of it. Every failure of an action inside a
//! cycle leads back to the wait for the next cycle. Only a watched directory
//! that could not be created at the start ends the machine for good.

use vstd::prelude::*;
use crate::candidate::{
    collect_candidates, count_class, count_of, eligible, lemma_eligible_len,
    probe_views, CandidateView, EntryClass, EntryProbe, FileCandidate, ProbeView,
};
use crate::eviction::{decide, decision, DecisionView, EvictionDecision};

verus! {

/// The number of eligible files tolerated when no other limit was set.
pub const DEFAULT_LIMIT: u32 = 3;

/// The name of the watched directory inside the home directory.
pub const WATCHED_DIRECTORY_NAME: &'static str = "test";

/// The seconds between two checks, and before the first one.
pub const CHECK_INTERVAL_SECS: u64 = 10;

/// How the entries of one scan divide.
#[derive(Clone, Copy, Debug, PartialEq, Eq)]
pub struct ScanCounts {
    /// Writable regular files: the count that is held against the limit.
    pub eligible: usize,
    /// Regular files skipped because they are read-only.
    pub read_only: usize,
    /// Entries left out because their metadata could not be fetched.
    pub unreadable: usize,
}

/// How the last finished cycle ended.
#[derive(Clone, Copy, Debug, PartialEq, Eq)]
pub enum LastAction {
    /// The directory's metadata could not be queried.
    PermissionCheckFailed,
    /// The directory is read-only.
    DirectoryReadOnly,
    /// The directory's entries could not be listed.
    EnumerationFailed,
    /// The eligible files were within the limit.
    NothingRemoved,
    /// The oldest eligible file was removed.
    Removed,
    /// The removal of the oldest eligible file failed.
    RemovalFailed,
}

/// What the last finished cycle saw and did. `counts` is `None` where the
/// cycle ended before it had listed the directory.
#[derive(Clone, Copy, Debug, PartialEq, Eq)]
pub struct CycleSummary {
    pub counts: Option<ScanCounts>,
    pub last_action: LastAction,
}

/// Where the machine stands.
#[derive(Clone, Debug, PartialEq, Eq)]
pub enum Phase {
    /// Awaiting the answer whether the watched directory exists.
    Ensuring,
    /// Awaiting the creation of the watched directory.
    Creating,
    /// Awaiting the end of the interval.
    Waiting,
    /// Awaiting the directory's metadata. `limit` is the limit of this cycle.
    CheckingPermission { limit: u32 },
    /// Awaiting the directory's entries.
    Enumerating { limit: u32 },
    /// Awaiting the removal of `target`.
    Evicting { target: FileCandidate, counts: ScanCounts },
    /// Shut down on request.
    Stopped,
    /// The watched directory could not be created.
    Failed,
}

/// The mathematical value of a [`Phase`].
pub ghost enum PhaseView {
    Ensuring,
    Creating,
    Waiting,
    CheckingPermission { limit: u32 },
    Enumerating { limit: u32 },
    Evicting { target: CandidateView, counts: ScanCounts },
    Stopped,
    Failed,
}

impl View for Phase {
    type V = PhaseView;

    open spec fn view(&self) -> PhaseView {
        match self {
            Phase::Ensuring => PhaseView::Ensuring,
            Phase::Creating => PhaseView::Creating,
            Phase::Waiting => PhaseView::Waiting,
            Phase::CheckingPermission { limit } => PhaseView::CheckingPermission { limit: *limit },
            Phase::Enumerating { limit } => PhaseView::Enumerating { limit: *limit },
            Phase::Evicting { target, counts } => PhaseView::Evicting {
                target: target@,
                counts: *counts,
            },
            Phase::Stopped => PhaseView::Stopped,
            Phase::Failed => PhaseView::Failed,
        }
    }
}

/// What came of the action that the machine awaited.
#[derive(Clone, Debug, PartialEq, Eq)]
pub enum Event {
    /// Whether the watched directory exists.
    Existence(bool),
    /// Whether the watched directory was created.
    Created(bool),
    /// The interval has passed.
    IntervalElapsed,
    /// The directory's metadata: `None` where the query failed, else whether
    /// the directory is read-only.
    DirectoryMetadata(Option<bool>),
    /// The directory's entries in enumeration order, or `None` where the
    /// enumeration failed.
    Listed(Option<Vec<EntryProbe>>),
    /// Whether the removal succeeded.
    RemovalFinished(bool),
    /// The host asks the machine to stop.
    ShutdownRequested,
}

/// The mathematical value of an [`Event`].
pub ghost enum EventView {
    Existence(bool),
    Created(bool),
    IntervalElapsed,
    DirectoryMetadata(Option<bool>),
    Listed(Option<Seq<ProbeView>>),
    RemovalFinished(bool),
    ShutdownRequested,
}

impl View for Event {
    type V = EventView;

    open spec fn view(&self) -> EventView {
        match self {
            Event::Existence(b) => EventView::Existence(*b),
            Event::Created(b) => EventView::Created(*b),
            Event::IntervalElapsed => EventView::IntervalElapsed,
            Event::DirectoryMetadata(m) => EventView::DirectoryMetadata(*m),
            Event::Listed(None) => EventView::Listed(None),
            Event::Listed(Some(probes)) => EventView::Listed(Some(probe_views(probes@))),
            Event::RemovalFinished(b) => EventView::RemovalFinished(*b),
            Event::ShutdownRequested => EventView::ShutdownRequested,
        }
    }
}

/// What the machine awaits next.
#[derive(Clone, Debug, PartialEq, Eq)]
pub enum Action {
    /// Look whether the watched directory exists.
    ProbeDirectory,
    /// Create the watched directory, and no parent of it.
    CreateDirectory,
    /// Wait the given number of seconds.
    Wait(u64),
    /// Query the watched directory's metadata.
    QueryDirectory,
    /// List the watched directory's entries, each with its metadata.
    ListEntries,
    /// Remove the file at the given path.
    Remove(String),
    /// Stop: a shutdown was requested.
    Stop,
    /// Give up: the watched directory could not be created.
    Abort,
}

/// The mathematical value of an [`Action`].
pub ghost enum ActionView {
    ProbeDirectory,
    CreateDirectory,
    Wait(u64),
    QueryDirectory,
    ListEntries,
    Remove(Seq<char>),
    Stop,
    Abort,
}

impl View for Action {
    type V = ActionView;

    open spec fn view(&self) -> ActionView {
        match self {
            Action::ProbeDirectory => ActionView::ProbeDirectory,
            Action::CreateDirectory => ActionView::CreateDirectory,
            Action::Wait(secs) => ActionView::Wait(*secs),
            Action::QueryDirectory => ActionView::QueryDirectory,
            Action::ListEntries => ActionView::ListEntries,
            Action::Remove(path) => ActionView::Remove(path@),
            Action::Stop => ActionView::Stop,
            Action::Abort => ActionView::Abort,
        }
    }
}

/// The monitor of one watched directory.
#[derive(Clone, Debug, PartialEq, Eq)]
pub struct Enforcer {
    pub watched_path: String,
    /// The configured limit; a cycle reads it when its interval has passed.
    pub limit: u32,
    pub phase: Phase,
    pub last_cycle: Option<CycleSummary>,
}

/// The mathematical value of an [`Enforcer`].
pub ghost struct EnforcerView {
    pub watched_path: Seq<char>,
    pub limit: u32,
    pub phase: PhaseView,
    pub last_cycle: Option<CycleSummary>,
}

impl View for Enforcer {
    type V = EnforcerView;

    open spec fn view(&self) -> EnforcerView {
        EnforcerView {
            watched_path: self.watched_path@,
            limit: self.limit,
            phase: self.phase@,
            last_cycle: self.last_cycle,
        }
    }
}

/// A snapshot of the monitor for display.
#[derive(Clone, Debug, PartialEq, Eq)]
pub struct Status {
    pub watched_path: String,
    pub current_limit: u32,
    pub last_cycle_summary: Option<CycleSummary>,
}

/// How the entries of a scan divide.
pub open spec fn counts_of(probes: Seq<ProbeView>) -> ScanCounts {
    ScanCounts {
        eligible: count_of(probes, EntryClass::Eligible) as usize,
        read_only: count_of(probes, EntryClass::ReadOnly) as usize,
        unreadable: count_of(probes, EntryClass::Unreadable) as usize,
    }
}

/// The action that a phase awaits.
pub open spec fn awaited(phase: PhaseView) -> ActionView {
    match phase {
        PhaseView::Ensuring => ActionView::ProbeDirectory,
        PhaseView::Creating => ActionView::CreateDirectory,
        PhaseView::Waiting => ActionView::Wait(CHECK_INTERVAL_SECS),
        PhaseView::CheckingPermission { .. } => ActionView::QueryDirectory,
        PhaseView::Enumerating { .. } => ActionView::ListEntries,
        PhaseView::Evicting { target, .. } => ActionView::Remove(target.path),
        PhaseView::Stopped => ActionView::Stop,
        PhaseView::Failed => ActionView::Abort,
    }
}

/// The event is one that the phase awaits.
pub open spec fn answers(phase: PhaseView, event: EventView) -> bool {
    match phase {
        PhaseView::Ensuring => event is Existence,
        PhaseView::Creating => event is Created,
        PhaseView::Waiting => event is IntervalElapsed,
        PhaseView::CheckingPermission { .. } => event is DirectoryMetadata,
        PhaseView::Enumerating { .. } => event is Listed,
        PhaseView::Evicting { .. } => event is RemovalFinished,
        PhaseView::Stopped => false,
        PhaseView::Failed => false,
    }
}

/// The phase that follows when `event` arrives in phase `phase` and the
/// configured limit is `limit`.
///
/// A stopped or failed machine stays as it is. A shutdown request stops any
/// other. An event that the phase does not await changes nothing.
pub open spec fn next_phase(phase: PhaseView, limit: u32, event: EventView) -> PhaseView {
    if phase is Stopped || phase is Failed {
        phase
    } else if event is ShutdownRequested {
        PhaseView::Stopped
    } else if !answers(phase, event) {
        phase
    } else {
        match (phase, event) {
            (PhaseView::Ensuring, EventView::Existence(exists)) => if exists {
                PhaseView::Waiting
            } else {
                PhaseView::Creating
            },
            (PhaseView::Creating, EventView::Created(ok)) => if ok {
                PhaseView::Waiting
            } else {
                PhaseView::Failed
            },
            (PhaseView::Waiting, _) => PhaseView::CheckingPermission { limit },
            (
                PhaseView::CheckingPermission { limit: cycle_limit },
                EventView::DirectoryMetadata(Some(false)),
            ) => PhaseView::Enumerating { limit: cycle_limit },
            (
                PhaseView::Enumerating { limit: cycle_limit },
                EventView::Listed(Some(probes)),
            ) => match decision(eligible(probes), cycle_limit as int) {
                DecisionView::Delete(target) => PhaseView::Evicting {
                    target,
                    counts: counts_of(probes),
                },
                DecisionView::Keep => PhaseView::Waiting,
            },
            _ => PhaseView::Waiting,
        }
    }
}

/// Whether the machine heeds the event: it ignores what its phase does not
/// await, but for a shutdown request. A stopped or failed machine answers
/// every event by saying so again.
pub open spec fn heeded(phase: PhaseView, event: EventView) -> bool {
    phase is Stopped || phase is Failed || event is ShutdownRequested || answers(phase, event)
}

/// The action that the arrival of `event` makes the machine ask for: the one
/// that the next phase awaits, or none where the event is ignored.
pub open spec fn issued(phase: PhaseView, limit: u32, event: EventView) -> Option<ActionView> {
    if heeded(phase, event) {
        Some(awaited(next_phase(phase, limit, event)))
    } else {
        None
    }
}

/// The summary that the arrival of `event` in phase `phase` leaves: that of
/// the cycle which the event ends, or `last` where it ends none.
pub open spec fn next_summary(
    phase: PhaseView,
    last: Option<CycleSummary>,
    event: EventView,
) -> Option<CycleSummary> {
    match (phase, event) {
        (PhaseView::CheckingPermission { .. }, EventView::DirectoryMetadata(None)) => Some(
            CycleSummary { counts: None, last_action: LastAction::PermissionCheckFailed },
        ),
        (PhaseView::CheckingPermission { .. }, EventView::DirectoryMetadata(Some(true))) => Some(
            CycleSummary { counts: None, last_action: LastAction::DirectoryReadOnly },
        ),
        (PhaseView::Enumerating { .. }, EventView::Listed(None)) => Some(
            CycleSummary { counts: None, last_action: LastAction::EnumerationFailed },
        ),
        (PhaseView::Enumerating { limit }, EventView::Listed(Some(probes))) => if eligible(
            probes,
        ).len() > limit {
            last
        } else {
            Some(
                CycleSummary {
                    counts: Some(counts_of(probes)),
                    last_action: LastAction::NothingRemoved,
                },
            )
        },
        (PhaseView::Evicting { counts, .. }, EventView::RemovalFinished(ok)) => Some(
            CycleSummary {
                counts: Some(counts),
                last_action: if ok {
                    LastAction::Removed
                } else {
                    LastAction::RemovalFailed
                },
            },
        ),
        _ => last,
    }
}

/// The machine after `event`.
pub open spec fn next(s: EnforcerView, event: EventView) -> EnforcerView {
    EnforcerView {
        watched_path: s.watched_path,
        limit: s.limit,
        phase: next_phase(s.phase, s.limit, event),
        last_cycle: next_summary(s.phase, s.last_cycle, event),
    }
}

/// Counts the classes of a scan's entries.
pub fn scan_counts(probes: &Vec<EntryProbe>) -> (counts: ScanCounts)
    ensures
        counts == counts_of(probe_views(probes@)),
        counts.eligible == count_of(probe_views(probes@), EntryClass::Eligible),
        counts.read_only == count_of(probe_views(probes@), EntryClass::ReadOnly),
        counts.unreadable == count_of(probe_views(probes@), EntryClass::Unreadable),
{
    ScanCounts {
        eligible: count_class(probes, EntryClass::Eligible),
        read_only: count_class(probes, EntryClass::ReadOnly),
        unreadable: count_class(probes, EntryClass::Unreadable),
    }
}

impl Phase {
    /// The action that this phase awaits.
    pub fn awaited(&self) -> (action: Action)
        ensures
            action@ == awaited(self@),
    {
        match self {
            Phase::Ensuring => Action::ProbeDirectory,
            Phase::Creating => Action::CreateDirectory,
            Phase::Waiting => Action::Wait(CHECK_INTERVAL_SECS),
            Phase::CheckingPermission { .. } => Action::QueryDirectory,
            Phase::Enumerating { .. } => Action::ListEntries,
            Phase::Evicting { target, .. } => Action::Remove(target.path.clone()),
            Phase::Stopped => Action::Stop,
            Phase::Failed => Action::Abort,
        }
    }

    /// Whether the machine heeds `event` in this phase.
    pub fn heeds(&self, event: &Event) -> (heeds: bool)
        ensures
            heeds == heeded(self@, event@),
    {
        match (self, event) {
            (Phase::Stopped, _) => true,
            (Phase::Failed, _) => true,
            (_, Event::ShutdownRequested) => true,
            (Phase::Ensuring, Event::Existence(_)) => true,
            (Phase::Creating, Event::Created(_)) => true,
            (Phase::Waiting, Event::IntervalElapsed) => true,
            (Phase::CheckingPermission { .. }, Event::DirectoryMetadata(_)) => true,
            (Phase::Enumerating { .. }, Event::Listed(_)) => true,
            (Phase::Evicting { .. }, Event::RemovalFinished(_)) => true,
            _ => false,
        }
    }

    /// The phase that follows this one on `event`, under the configured
    /// limit `limit`.
    pub fn after(&self, limit: u32, event: &Event) -> (phase: Phase)
        ensures
            phase@ == next_phase(self@, limit, event@),
    {
        match (self, event) {
            (Phase::Stopped, _) => Phase::Stopped,
            (Phase::Failed, _) => Phase::Failed,
            (_, Event::ShutdownRequested) => Phase::Stopped,
            (Phase::Ensuring, Event::Existence(exists)) => {
                if *exists {
                    Phase::Waiting
                } else {
                    Phase::Creating
                }
            },
            (Phase::Creating, Event::Created(ok)) => {
                if *ok {
                    Phase::Waiting
                } else {
                    Phase::Failed
                }
            },
            (Phase::Waiting, Event::IntervalElapsed) => Phase::CheckingPermission { limit },
            (Phase::CheckingPermission { limit: cycle_limit }, Event::DirectoryMetadata(m)) => {
                match m {
                    Some(false) => Phase::Enumerating { limit: *cycle_limit },
                    _ => Phase::Waiting,
                }
            },
            (Phase::Enumerating { limit: cycle_limit }, Event::Listed(listing)) => {
                match listing {
                    None => Phase::Waiting,
                    Some(probes) => {
                        let candidates = collect_candidates(probes);
                        match decide(&candidates, *cycle_limit) {
                            EvictionDecision::Delete(target) => Phase::Evicting {
                                target,
                                counts: scan_counts(probes),
                            },
                            EvictionDecision::Keep => Phase::Waiting,
                        }
                    },
                }
            },
            (Phase::Evicting { .. }, Event::RemovalFinished(_)) => Phase::Waiting,
            (Phase::Ensuring, _) => Phase::Ensuring,
            (Phase::Creating, _) => Phase::Creating,
            (Phase::Waiting, _) => Phase::Waiting,
            (Phase::CheckingPermission { limit: cycle_limit }, _) => Phase::CheckingPermission {
                limit: *cycle_limit,
            },
            (Phase::Enumerating { limit: cycle_limit }, _) => Phase::Enumerating {
                limit: *cycle_limit,
            },
            (Phase::Evicting { target, counts }, _) => Phase::Evicting {
                target: FileCandidate {
                    path: target.path.clone(),
                    last_modified_time: target.last_modified_time,
                },
                counts: *counts,
            },
        }
    }
}

impl Enforcer {
    /// A monitor of the directory at `watched_path`, with the default limit.
    /// It first awaits the answer whether that directory exists.
    pub fn new(watched_path: String) -> (enforcer: Enforcer)
        ensures
            enforcer@ == (EnforcerView {
                watched_path: watched_path@,
                limit: DEFAULT_LIMIT,
                phase: PhaseView::Ensuring,
                last_cycle: None,
            }),
    {
        Enforcer { watched_path, limit: DEFAULT_LIMIT, phase: Phase::Ensuring, last_cycle: None }
    }

    /// Sets the configured limit. Any value is accepted. The cycle in
    /// progress, if there is one, keeps the limit it started with.
    pub fn set_limit(&mut self, new_limit: u32)
        ensures
            final(self)@ == (EnforcerView { limit: new_limit, ..old(self)@ }),
    {
        self.limit = new_limit;
    }

    /// The watched path, the configured limit and the summary of the last
    /// finished cycle.
    pub fn get_status(&self) -> (status: Status)
        ensures
            status.watched_path@ == self@.watched_path,
            status.current_limit == self@.limit,
            status.last_cycle_summary == self@.last_cycle,
    {
        Status {
            watched_path: self.watched_path.clone(),
            current_limit: self.limit,
            last_cycle_summary: self.last_cycle,
        }
    }

    /// The action that the machine awaits.
    pub fn awaited(&self) -> (action: Action)
        ensures
            action@ == awaited(self@.phase),
    {
        self.phase.awaited()
    }

    /// The summary that `event` leaves.
    pub fn summary_after(&self, event: &Event) -> (summary: Option<CycleSummary>)
        ensures
            summary == next_summary(self@.phase, self@.last_cycle, event@),
    {
        match (&self.phase, event) {
            (Phase::CheckingPermission { .. }, Event::DirectoryMetadata(None)) => Some(
                CycleSummary { counts: None, last_action: LastAction::PermissionCheckFailed },
            ),
            (Phase::CheckingPermission { .. }, Event::DirectoryMetadata(Some(true))) => Some(
                CycleSummary { counts: None, last_action: LastAction::DirectoryReadOnly },
            ),
            (Phase::Enumerating { .. }, Event::Listed(None)) => Some(
                CycleSummary { counts: None, last_action: LastAction::EnumerationFailed },
            ),
            (Phase::Enumerating { limit }, Event::Listed(Some(probes))) => {
                let counts = scan_counts(probes);
                proof {
                    lemma_eligible_len(probe_views(probes@));
                }
                if counts.eligible > *limit as usize {
                    self.last_cycle
                } else {
                    Some(CycleSummary { counts: Some(counts), last_action: LastAction::NothingRemoved })
                }
            },
            (Phase::Evicting { counts, .. }, Event::RemovalFinished(ok)) => Some(
                CycleSummary {
                    counts: Some(*counts),
                    last_action: if *ok {
                        LastAction::Removed
                    } else {
                        LastAction::RemovalFailed
                    },
                },
            ),
            _ => self.last_cycle,
        }
    }

    /// Takes the event that came of the awaited action, moves to the next
    /// phase and returns the action awaited there. An event that the phase
    /// does not await is ignored: nothing changes and `None` is returned.
    pub fn step(&mut self, event: Event) -> (action: Option<Action>)
        ensures
            final(self)@ == next(old(self)@, event@),
            match action {
                Some(a) => issued(old(self)@.phase, old(self)@.limit, event@) == Some(a@),
                None => issued(old(self)@.phase, old(self)@.limit, event@) is None,
            },
    {
        let ignored = !self.phase.heeds(&event);
        let summary = self.summary_after(&event);
        let phase = self.phase.after(self.limit, &event);
        self.phase = phase;
        self.last_cycle = summary;
        if ignored {
            None
        } else {
            Some(self.phase.awaited())
        }
    }
}

} // verus!
