use sweep::domain::models::LockedProcess;
use sweep::lockscan::{dedup, normalize_target, paths_equal, LockScan};

#[test]
fn paths_equal_is_case_insensitive_and_ignores_verbatim_prefix() {
    assert!(paths_equal(r"\\?\C:\Users\Foo\Test.txt", r"c:\users\foo\test.txt"));
    assert!(paths_equal(r"C:\A", r"c:\a"));
    assert!(!paths_equal(r"C:\A", r"C:\B"));
}

#[test]
fn dedup_removes_duplicate_pid_path_pairs() {
    let rows = vec![
        LockedProcess { pid: 1, name: "a".into(), path: "x".into() },
        LockedProcess { pid: 1, name: "a".into(), path: "x".into() },
        LockedProcess { pid: 2, name: "b".into(), path: "x".into() },
    ];
    let d = dedup(rows);
    assert_eq!(d.len(), 2);
}

#[test]
fn empty_input_returns_empty() {
    let scan = LockScan::new(Vec::new());
    assert!(!scan.all_found());
    assert!(scan.target_for(r"C:\anything").is_none());
    assert!(scan.into_locked().is_empty());
}

#[test]
fn normalization_strips_every_leading_prefix_copy() {
    assert_eq!(normalize_target(r"\\?\\\?\C:\X"), r"c:\x");
    assert_eq!(normalize_target(r"\??\D:\Data"), r"d:\data");
    assert_eq!(normalize_target(r"\??\\\?\E:\Y"), r"\\?\e:\y");
}

#[test]
fn scan_matches_targets_and_stops_when_all_are_seen() {
    let mut scan = LockScan::new(vec![r"C:\T\a.bin".to_string(), r"C:\T\b.bin".to_string(), r"c:\t\A.BIN".to_string()]);
    assert_eq!(scan.target_for(r"\\?\C:\T\A.bin"), Some(0));
    assert_eq!(scan.target_for(r"C:\T\other"), None);
    scan.record(10, "chrome.exe".into(), 0);
    assert!(!scan.all_found());
    scan.record(10, "chrome.exe".into(), 0);
    scan.record(11, "code.exe".into(), 1);
    assert!(scan.all_found());
    let rows = scan.into_locked();
    assert_eq!(rows.len(), 2);
    assert_eq!(rows[0].path, r"C:\T\a.bin");
    assert_eq!(rows[1].pid, 11);
}
