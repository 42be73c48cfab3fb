use capacity_watchdog::candidate::{
    collect_candidates, count_class, EntryClass, EntryMeta, EntryProbe, FileCandidate,
    ModifiedTime,
};

fn file(path: &str, modified: i128) -> EntryProbe {
    EntryProbe {
        path: path.to_string(),
        meta: Some(EntryMeta {
            is_file: true,
            readonly: false,
            modified: ModifiedTime::Known(modified),
        }),
    }
}

fn read_only_file(path: &str, modified: i128) -> EntryProbe {
    EntryProbe {
        path: path.to_string(),
        meta: Some(EntryMeta {
            is_file: true,
            readonly: true,
            modified: ModifiedTime::Known(modified),
        }),
    }
}

fn directory(path: &str, modified: i128, readonly: bool) -> EntryProbe {
    EntryProbe {
        path: path.to_string(),
        meta: Some(EntryMeta { is_file: false, readonly, modified: ModifiedTime::Known(modified) }),
    }
}

fn unreadable(path: &str) -> EntryProbe {
    EntryProbe { path: path.to_string(), meta: None }
}

fn candidate(path: &str, modified: i128) -> FileCandidate {
    FileCandidate { path: path.to_string(), last_modified_time: modified }
}

#[test]
fn resolve_takes_the_reported_time() {
    assert_eq!(ModifiedTime::Known(1_700_000_000_123_456_789).resolve(), 1_700_000_000_123_456_789);
    assert_eq!(ModifiedTime::Known(-5).resolve(), -5);
}

#[test]
fn resolve_falls_back_to_the_moment_of_the_probe() {
    assert_eq!(ModifiedTime::Unknown { probed_at: 42 }.resolve(), 42);
}

#[test]
fn classify_tells_the_four_classes_apart() {
    assert_eq!(file("a", 1).classify(), EntryClass::Eligible);
    assert_eq!(read_only_file("a", 1).classify(), EntryClass::ReadOnly);
    assert_eq!(directory("a", 1, false).classify(), EntryClass::NotAFile);
    assert_eq!(directory("a", 1, true).classify(), EntryClass::NotAFile);
    assert_eq!(unreadable("a").classify(), EntryClass::Unreadable);
}

#[test]
fn collect_of_an_empty_scan_is_empty() {
    assert_eq!(collect_candidates(&vec![]), vec![]);
}

#[test]
fn collect_keeps_enumeration_order() {
    let probes = vec![file("c", 30), file("a", 10), file("b", 20)];
    assert_eq!(
        collect_candidates(&probes),
        vec![candidate("c", 30), candidate("a", 10), candidate("b", 20)]
    );
}

#[test]
fn collect_leaves_out_read_only_files() {
    let probes = vec![file("a", 10), read_only_file("old", 1), file("b", 20)];
    assert_eq!(collect_candidates(&probes), vec![candidate("a", 10), candidate("b", 20)]);
}

#[test]
fn collect_leaves_out_directories() {
    let probes = vec![directory("d", 1, false), file("a", 10), directory("e", 2, true)];
    assert_eq!(collect_candidates(&probes), vec![candidate("a", 10)]);
}

#[test]
fn collect_leaves_out_unreadable_entries() {
    let probes = vec![unreadable("x"), file("a", 10), unreadable("y")];
    assert_eq!(collect_candidates(&probes), vec![candidate("a", 10)]);
}

#[test]
fn collect_substitutes_the_probe_time_for_a_missing_timestamp() {
    let probes = vec![EntryProbe {
        path: "n".to_string(),
        meta: Some(EntryMeta {
            is_file: true,
            readonly: false,
            modified: ModifiedTime::Unknown { probed_at: 999 },
        }),
    }];
    assert_eq!(collect_candidates(&probes), vec![candidate("n", 999)]);
}

#[test]
fn collect_is_unchanged_by_an_ineligible_entry_at_any_place() {
    let base = vec![file("a", 10), file("b", 20), file("c", 5)];
    let expected = collect_candidates(&base);
    for at in 0..=base.len() {
        for extra in [read_only_file("r", 0), directory("d", 0, false), unreadable("u")] {
            let mut probes = base.clone();
            probes.insert(at, extra);
            assert_eq!(collect_candidates(&probes), expected);
        }
    }
}

#[test]
fn count_class_counts_each_class() {
    let probes = vec![
        file("a", 1),
        read_only_file("b", 2),
        directory("c", 3, false),
        unreadable("d"),
        file("e", 5),
        unreadable("f"),
        unreadable("g"),
    ];
    assert_eq!(count_class(&probes, EntryClass::Eligible), 2);
    assert_eq!(count_class(&probes, EntryClass::ReadOnly), 1);
    assert_eq!(count_class(&probes, EntryClass::NotAFile), 1);
    assert_eq!(count_class(&probes, EntryClass::Unreadable), 3);
    assert_eq!(count_class(&vec![], EntryClass::Eligible), 0);
}

#[test]
fn the_candidates_are_as_many_as_the_eligible_entries() {
    let probes = vec![file("a", 1), read_only_file("b", 2), file("c", 3), directory("d", 4, false)];
    assert_eq!(collect_candidates(&probes).len(), count_class(&probes, EntryClass::Eligible));
}
