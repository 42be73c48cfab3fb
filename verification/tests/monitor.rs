use capacity_watchdog::candidate::{EntryMeta, EntryProbe, FileCandidate, ModifiedTime};
use capacity_watchdog::monitor::{
    scan_counts, Action, CycleSummary, Enforcer, Event, LastAction, Phase, ScanCounts,
    CHECK_INTERVAL_SECS, DEFAULT_LIMIT, WATCHED_DIRECTORY_NAME,
};

fn file(path: &str, modified: i128) -> EntryProbe {
    EntryProbe {
        path: path.to_string(),
        meta: Some(EntryMeta {
            is_file: true,
            readonly: false,
            modified: ModifiedTime::Known(modified),
        }),
    }
}

fn read_only_file(path: &str, modified: i128) -> EntryProbe {
    EntryProbe {
        path: path.to_string(),
        meta: Some(EntryMeta {
            is_file: true,
            readonly: true,
            modified: ModifiedTime::Known(modified),
        }),
    }
}

fn directory(path: &str, modified: i128) -> EntryProbe {
    EntryProbe {
        path: path.to_string(),
        meta: Some(EntryMeta {
            is_file: false,
            readonly: false,
            modified: ModifiedTime::Known(modified),
        }),
    }
}

fn unreadable(path: &str) -> EntryProbe {
    EntryProbe { path: path.to_string(), meta: None }
}

fn counts(eligible: usize, read_only: usize, unreadable: usize) -> ScanCounts {
    ScanCounts { eligible, read_only, unreadable }
}

/// A monitor whose directory is there, waiting for its first interval.
fn waiting(limit: u32) -> Enforcer {
    let mut e = Enforcer::new("/home/u/test".to_string());
    e.set_limit(limit);
    assert_eq!(e.step(Event::Existence(true)), Some(Action::Wait(10)));
    e
}

/// Drives a waiting monitor to the point where it awaits the listing.
fn to_listing(e: &mut Enforcer) {
    assert_eq!(e.step(Event::IntervalElapsed), Some(Action::QueryDirectory));
    assert_eq!(e.step(Event::DirectoryMetadata(Some(false))), Some(Action::ListEntries));
}

#[test]
fn the_constants_are_those_of_the_design() {
    assert_eq!(DEFAULT_LIMIT, 3);
    assert_eq!(CHECK_INTERVAL_SECS, 10);
    assert_eq!(WATCHED_DIRECTORY_NAME, "test");
}

#[test]
fn a_new_monitor_first_asks_whether_the_directory_exists() {
    let e = Enforcer::new("/home/u/test".to_string());
    assert_eq!(e.phase, Phase::Ensuring);
    assert_eq!(e.limit, 3);
    assert_eq!(e.last_cycle, None);
    assert_eq!(e.watched_path, "/home/u/test");
    assert_eq!(e.awaited(), Action::ProbeDirectory);
}

#[test]
fn an_existing_directory_is_not_created_again() {
    let mut e = Enforcer::new("/home/u/test".to_string());
    assert_eq!(e.step(Event::Existence(true)), Some(Action::Wait(10)));
    assert_eq!(e.phase, Phase::Waiting);
}

#[test]
fn a_missing_directory_is_created_before_monitoring() {
    let mut e = Enforcer::new("/home/u/test".to_string());
    assert_eq!(e.step(Event::Existence(false)), Some(Action::CreateDirectory));
    assert_eq!(e.phase, Phase::Creating);
    assert_eq!(e.step(Event::Created(true)), Some(Action::Wait(10)));
    assert_eq!(e.phase, Phase::Waiting);
}

#[test]
fn ensuring_twice_succeeds_twice_and_creates_once() {
    let mut first = Enforcer::new("/home/u/test".to_string());
    assert_eq!(first.step(Event::Existence(false)), Some(Action::CreateDirectory));
    assert_eq!(first.step(Event::Created(true)), Some(Action::Wait(10)));
    let mut second = Enforcer::new("/home/u/test".to_string());
    assert_eq!(second.step(Event::Existence(true)), Some(Action::Wait(10)));
    assert_eq!(second.phase, Phase::Waiting);
}

#[test]
fn a_failed_creation_is_fatal() {
    let mut e = Enforcer::new("/home/u/test".to_string());
    e.step(Event::Existence(false));
    assert_eq!(e.step(Event::Created(false)), Some(Action::Abort));
    assert_eq!(e.phase, Phase::Failed);
    assert_eq!(e.step(Event::IntervalElapsed), Some(Action::Abort));
    assert_eq!(e.step(Event::ShutdownRequested), Some(Action::Abort));
    assert_eq!(e.phase, Phase::Failed);
}

#[test]
fn the_first_check_comes_after_the_first_interval() {
    let mut e = waiting(3);
    assert_eq!(e.awaited(), Action::Wait(10));
    assert_eq!(e.step(Event::IntervalElapsed), Some(Action::QueryDirectory));
    assert_eq!(e.phase, Phase::CheckingPermission { limit: 3 });
}

#[test]
fn a_failed_permission_check_skips_the_cycle() {
    let mut e = waiting(3);
    e.step(Event::IntervalElapsed);
    assert_eq!(e.step(Event::DirectoryMetadata(None)), Some(Action::Wait(10)));
    assert_eq!(e.phase, Phase::Waiting);
    assert_eq!(
        e.last_cycle,
        Some(CycleSummary { counts: None, last_action: LastAction::PermissionCheckFailed })
    );
}

#[test]
fn a_read_only_directory_skips_the_cycle() {
    let mut e = waiting(3);
    e.step(Event::IntervalElapsed);
    assert_eq!(e.step(Event::DirectoryMetadata(Some(true))), Some(Action::Wait(10)));
    assert_eq!(e.phase, Phase::Waiting);
    assert_eq!(
        e.last_cycle,
        Some(CycleSummary { counts: None, last_action: LastAction::DirectoryReadOnly })
    );
}

#[test]
fn a_failed_enumeration_skips_the_cycle() {
    let mut e = waiting(3);
    to_listing(&mut e);
    assert_eq!(e.phase, Phase::Enumerating { limit: 3 });
    assert_eq!(e.step(Event::Listed(None)), Some(Action::Wait(10)));
    assert_eq!(e.phase, Phase::Waiting);
    assert_eq!(
        e.last_cycle,
        Some(CycleSummary { counts: None, last_action: LastAction::EnumerationFailed })
    );
}

#[test]
fn at_the_limit_nothing_is_removed() {
    let mut e = waiting(3);
    to_listing(&mut e);
    let probes = vec![file("a", 1), file("b", 2), file("c", 3)];
    assert_eq!(e.step(Event::Listed(Some(probes))), Some(Action::Wait(10)));
    assert_eq!(e.phase, Phase::Waiting);
    assert_eq!(
        e.last_cycle,
        Some(CycleSummary {
            counts: Some(counts(3, 0, 0)),
            last_action: LastAction::NothingRemoved
        })
    );
}

#[test]
fn above_the_limit_the_oldest_is_removed_and_no_other() {
    let mut e = waiting(1);
    to_listing(&mut e);
    let probes = vec![file("d", 40), file("b", 20), file("a", 10), file("c", 30), file("e", 50)];
    assert_eq!(e.step(Event::Listed(Some(probes))), Some(Action::Remove("a".to_string())));
    assert_eq!(
        e.phase,
        Phase::Evicting {
            target: FileCandidate { path: "a".to_string(), last_modified_time: 10 },
            counts: counts(5, 0, 0),
        }
    );
    assert_eq!(e.step(Event::RemovalFinished(true)), Some(Action::Wait(10)));
    assert_eq!(e.phase, Phase::Waiting);
    assert_eq!(
        e.last_cycle,
        Some(CycleSummary { counts: Some(counts(5, 0, 0)), last_action: LastAction::Removed })
    );
}

#[test]
fn four_files_under_limit_three() {
    let mut e = waiting(3);
    to_listing(&mut e);
    let probes = vec![file("A", 100), file("B", 200), file("C", 300), file("D", 400)];
    assert_eq!(e.step(Event::Listed(Some(probes))), Some(Action::Remove("A".to_string())));
    assert_eq!(e.step(Event::RemovalFinished(true)), Some(Action::Wait(10)));
    to_listing(&mut e);
    let remaining = vec![file("B", 200), file("C", 300), file("D", 400)];
    assert_eq!(e.step(Event::Listed(Some(remaining))), Some(Action::Wait(10)));
    assert_eq!(
        e.last_cycle,
        Some(CycleSummary {
            counts: Some(counts(3, 0, 0)),
            last_action: LastAction::NothingRemoved
        })
    );
}

#[test]
fn one_file_under_limit_zero() {
    let mut e = waiting(0);
    to_listing(&mut e);
    assert_eq!(
        e.step(Event::Listed(Some(vec![file("E", 5)]))),
        Some(Action::Remove("E".to_string()))
    );
    assert_eq!(e.step(Event::RemovalFinished(true)), Some(Action::Wait(10)));
    to_listing(&mut e);
    assert_eq!(e.step(Event::Listed(Some(vec![]))), Some(Action::Wait(10)));
    assert_eq!(
        e.last_cycle,
        Some(CycleSummary {
            counts: Some(counts(0, 0, 0)),
            last_action: LastAction::NothingRemoved
        })
    );
}

#[test]
fn a_read_only_file_is_never_the_target_even_if_oldest() {
    let mut e = waiting(1);
    to_listing(&mut e);
    let probes = vec![read_only_file("ancient", 1), file("b", 20), file("a", 10)];
    assert_eq!(e.step(Event::Listed(Some(probes))), Some(Action::Remove("a".to_string())));
    e.step(Event::RemovalFinished(true));
    assert_eq!(
        e.last_cycle,
        Some(CycleSummary { counts: Some(counts(2, 1, 0)), last_action: LastAction::Removed })
    );
}

#[test]
fn read_only_files_do_not_count_towards_the_limit() {
    let mut e = waiting(2);
    to_listing(&mut e);
    let probes = vec![read_only_file("r1", 1), read_only_file("r2", 2), file("a", 10), file("b", 20)];
    assert_eq!(e.step(Event::Listed(Some(probes))), Some(Action::Wait(10)));
    assert_eq!(
        e.last_cycle,
        Some(CycleSummary {
            counts: Some(counts(2, 2, 0)),
            last_action: LastAction::NothingRemoved
        })
    );
}

#[test]
fn subdirectories_neither_count_nor_are_removed() {
    let mut e = waiting(2);
    to_listing(&mut e);
    let probes = vec![directory("d1", 1), file("a", 10), directory("d2", 2), file("b", 20)];
    assert_eq!(e.step(Event::Listed(Some(probes))), Some(Action::Wait(10)));
    to_listing(&mut e);
    let probes = vec![directory("d1", 1), file("a", 10), file("c", 30), file("b", 20)];
    assert_eq!(e.step(Event::Listed(Some(probes))), Some(Action::Remove("a".to_string())));
}

#[test]
fn unreadable_entries_are_left_out_and_counted() {
    let mut e = waiting(1);
    to_listing(&mut e);
    let probes = vec![unreadable("x"), file("a", 10), unreadable("y")];
    assert_eq!(e.step(Event::Listed(Some(probes))), Some(Action::Wait(10)));
    assert_eq!(
        e.last_cycle,
        Some(CycleSummary {
            counts: Some(counts(1, 0, 2)),
            last_action: LastAction::NothingRemoved
        })
    );
}

#[test]
fn a_file_without_a_timestamp_is_not_taken_for_the_oldest() {
    let mut e = waiting(1);
    to_listing(&mut e);
    let no_time = EntryProbe {
        path: "n".to_string(),
        meta: Some(EntryMeta {
            is_file: true,
            readonly: false,
            modified: ModifiedTime::Unknown { probed_at: 1_000 },
        }),
    };
    let probes = vec![no_time, file("a", 10)];
    assert_eq!(e.step(Event::Listed(Some(probes))), Some(Action::Remove("a".to_string())));
}

#[test]
fn a_failed_removal_is_absorbed_and_the_next_cycle_runs() {
    let mut e = waiting(0);
    to_listing(&mut e);
    assert_eq!(
        e.step(Event::Listed(Some(vec![file("gone", 5)]))),
        Some(Action::Remove("gone".to_string()))
    );
    assert_eq!(e.step(Event::RemovalFinished(false)), Some(Action::Wait(10)));
    assert_eq!(e.phase, Phase::Waiting);
    assert_eq!(
        e.last_cycle,
        Some(CycleSummary {
            counts: Some(counts(1, 0, 0)),
            last_action: LastAction::RemovalFailed
        })
    );
    to_listing(&mut e);
    assert_eq!(e.step(Event::Listed(Some(vec![]))), Some(Action::Wait(10)));
}

#[test]
fn an_event_that_is_not_awaited_is_ignored() {
    let mut e = waiting(0);
    let before = e.clone();
    assert_eq!(e.step(Event::RemovalFinished(true)), None);
    assert_eq!(e.step(Event::Listed(Some(vec![file("a", 1)]))), None);
    assert_eq!(e.step(Event::DirectoryMetadata(Some(false))), None);
    assert_eq!(e.step(Event::Existence(false)), None);
    assert_eq!(e.step(Event::Created(true)), None);
    assert_eq!(e, before);
    to_listing(&mut e);
    e.step(Event::Listed(Some(vec![file("a", 1)])));
    let evicting = e.clone();
    assert_eq!(e.step(Event::IntervalElapsed), None);
    assert_eq!(e.step(Event::Listed(Some(vec![file("b", 1)]))), None);
    assert_eq!(e, evicting);
    assert_eq!(e.awaited(), Action::Remove("a".to_string()));
}

#[test]
fn a_shutdown_request_stops_the_machine_in_any_phase() {
    let mut e = Enforcer::new("p".to_string());
    assert_eq!(e.step(Event::ShutdownRequested), Some(Action::Stop));
    assert_eq!(e.phase, Phase::Stopped);

    let mut e = waiting(3);
    assert_eq!(e.step(Event::ShutdownRequested), Some(Action::Stop));
    assert_eq!(e.phase, Phase::Stopped);
    assert_eq!(e.step(Event::IntervalElapsed), Some(Action::Stop));
    assert_eq!(e.phase, Phase::Stopped);

    let mut e = waiting(0);
    to_listing(&mut e);
    e.step(Event::Listed(Some(vec![file("a", 1)])));
    assert_eq!(e.step(Event::ShutdownRequested), Some(Action::Stop));
    assert_eq!(e.phase, Phase::Stopped);
    assert_eq!(e.awaited(), Action::Stop);
}

#[test]
fn a_new_limit_takes_effect_with_the_next_cycle() {
    let mut e = waiting(3);
    to_listing(&mut e);
    e.set_limit(0);
    assert_eq!(e.limit, 0);
    assert_eq!(e.phase, Phase::Enumerating { limit: 3 });
    assert_eq!(e.step(Event::Listed(Some(vec![file("a", 1)]))), Some(Action::Wait(10)));
    to_listing(&mut e);
    assert_eq!(e.phase, Phase::Enumerating { limit: 0 });
    assert_eq!(
        e.step(Event::Listed(Some(vec![file("a", 1)]))),
        Some(Action::Remove("a".to_string()))
    );
}

#[test]
fn set_limit_accepts_any_value() {
    let mut e = Enforcer::new("p".to_string());
    e.set_limit(u32::MAX);
    assert_eq!(e.limit, u32::MAX);
    e.set_limit(0);
    assert_eq!(e.limit, 0);
    assert_eq!(e.phase, Phase::Ensuring);
    assert_eq!(e.watched_path, "p");
}

#[test]
fn get_status_shows_path_limit_and_last_cycle() {
    let mut e = waiting(7);
    let s = e.get_status();
    assert_eq!(s.watched_path, "/home/u/test");
    assert_eq!(s.current_limit, 7);
    assert_eq!(s.last_cycle_summary, None);
    to_listing(&mut e);
    e.step(Event::Listed(Some(vec![file("a", 1), read_only_file("r", 0)])));
    let s = e.get_status();
    assert_eq!(
        s.last_cycle_summary,
        Some(CycleSummary {
            counts: Some(counts(1, 1, 0)),
            last_action: LastAction::NothingRemoved
        })
    );
}

#[test]
fn the_summary_of_the_last_cycle_stays_while_the_next_runs() {
    let mut e = waiting(0);
    e.step(Event::IntervalElapsed);
    e.step(Event::DirectoryMetadata(None));
    let failed =
        Some(CycleSummary { counts: None, last_action: LastAction::PermissionCheckFailed });
    to_listing(&mut e);
    assert_eq!(e.last_cycle, failed);
    e.step(Event::Listed(Some(vec![file("a", 1)])));
    assert_eq!(e.last_cycle, failed);
    assert_eq!(e.summary_after(&Event::RemovalFinished(true)),
        Some(CycleSummary { counts: Some(counts(1, 0, 0)), last_action: LastAction::Removed }));
}

#[test]
fn phase_after_and_heeds_agree_with_step() {
    let p = Phase::Enumerating { limit: 1 };
    let listing = Event::Listed(Some(vec![file("a", 2), file("b", 1)]));
    assert!(p.heeds(&listing));
    assert!(!p.heeds(&Event::IntervalElapsed));
    assert_eq!(
        p.after(9, &listing),
        Phase::Evicting {
            target: FileCandidate { path: "b".to_string(), last_modified_time: 1 },
            counts: counts(2, 0, 0),
        }
    );
    assert_eq!(p.after(9, &Event::IntervalElapsed), p);
    assert_eq!(Phase::Waiting.after(9, &Event::IntervalElapsed), Phase::CheckingPermission { limit: 9 });
    assert_eq!(Phase::Waiting.awaited(), Action::Wait(10));
}

#[test]
fn scan_counts_divides_the_entries() {
    let probes = vec![file("a", 1), read_only_file("r", 2), directory("d", 3), unreadable("u")];
    assert_eq!(scan_counts(&probes), counts(1, 1, 1));
    assert_eq!(scan_counts(&vec![]), counts(0, 0, 0));
}
