use sweep::platform::{is_protected_for, is_under_windows, windows_comparable};
use std::cell::Cell;

use sweep::doctor::{deep_scan, elevation_status, toast_status};
use sweep::domain::models::{ElevationStatus, ToastStatus};
use sweep::domain::traits::{PathRemover, RamTrimmer};
use sweep::platform::{
    is_protected_system_path, keywords_for, lexical_normalize, locked_processes_for_category, IdleProbe,
    LinuxRamTrimmer, ServiceGuard, TrashRemover,
};

#[test]
fn lexical_normalize_drops_dot_segments() {
    let p = lexical_normalize("a/./b/../c");
    assert_eq!(p, "a/c");
}

#[test]
fn lexical_normalize_keeps_the_root_and_stops_there() {
    assert_eq!(lexical_normalize("/x/../../y"), "/y");
    assert_eq!(lexical_normalize("/.."), "/");
    assert_eq!(lexical_normalize("../z//w/"), "z/w");
}

#[test]
fn keyword_mapping_covers_known_categories() {
    assert!(keywords_for("chrome-cache").contains(&"chrome"));
    assert!(keywords_for("edge-cache").contains(&"msedge"));
    assert!(keywords_for("firefox-cache").contains(&"firefox"));
    assert!(keywords_for("npm-cache").contains(&"node"));
}

#[test]
fn unknown_category_has_no_keywords() {
    assert!(keywords_for("user-temp").is_empty());
}

#[test]
fn lock_owners_are_matched_by_name_and_never_sweep_itself() {
    let procs = vec![(10u32, "Chrome".to_string()), (11, "bash".to_string()), (12, "chrome_crashpad".to_string())];
    let failed = vec!["/c/a".to_string(), "/c/b".to_string()];
    let locked = locked_processes_for_category("chrome-cache", &procs, 12, &failed);
    assert_eq!(locked.len(), 2);
    assert_eq!(locked[0].pid, 10);
    assert_eq!(locked[1].path, "/c/b");
    assert!(locked_processes_for_category("user-temp", &procs, 0, &failed).is_empty());
}

#[test]
fn service_guard_builds_with_empty_list() {
    let guard = ServiceGuard::new(&[]).unwrap();
    drop(guard);
}

#[test]
fn scan_returns_struct() {
    let result = deep_scan();
    assert!(result.wu_download_bytes == 0 || result.wu_download_bytes > 0);
}

#[test]
fn linux_probes_degrade_gracefully() {
    assert_eq!(toast_status(), ToastStatus::Unavailable);
    let p = IdleProbe::new().poll().unwrap();
    assert_eq!(p.idle_seconds, 0);
    assert!(p.foreground_title.is_empty());
    assert_eq!(elevation_status(None), ElevationStatus::Not);
    let root = "Name:\tsh\nUid:\t1000\t0\t0\t0\nGid:\t0\n";
    assert_eq!(elevation_status(Some(root)), ElevationStatus::Elevated);
    let user = "Uid:\t0\t1000\t1000\t1000\n";
    assert_eq!(elevation_status(Some(user)), ElevationStatus::Not);
}

#[test]
fn trimmer_and_remover_hand_the_work_to_their_callbacks() {
    let calls = Cell::new(0);
    let mut t = LinuxRamTrimmer::new(|| {
        calls.set(calls.get() + 1);
        Ok(())
    });
    assert!(t.trim_processes(&[1, 2]).is_err());
    assert_eq!(t.purge_standby(), Ok(true));
    assert_eq!(calls.get(), 1);
    let r = TrashRemover::new(|p: &str| if p == "/ok" { Ok(()) } else { Err(format!("no {p}")) });
    assert_eq!(r.remove_path("/ok"), Ok(()));
    assert_eq!(r.remove_path("/nope"), Err("no /nope".to_string()));
    assert!(!is_protected_system_path("C:\\Windows\\System32"));
}

#[test]
fn guard_allows_ordinary_and_lookalike_paths() {
    let system32 = "C:\\Windows\\System32";
    assert!(!is_under_windows("C:\\Users\\me\\AppData\\Local\\Temp\\sweep-x", system32));
    assert!(!is_under_windows("C:\\Windows\\System32Extra", system32));
}

#[test]
fn system32_guard_matches_any_spelling_of_the_folder() {
    let system32 = "C:\\Windows\\System32";
    assert!(is_under_windows("C:\\Windows\\System32\\DriverStore\\FileRepository", system32));
    assert!(is_under_windows("C:/WINDOWS/SYSTEM32/DRIVERSTORE", system32));
    assert!(is_under_windows("\\\\?\\C:\\Windows\\System32\\", system32));
    assert!(is_under_windows("c:\\windows\\system32", "C:\\Windows\\System32\\\\"));
    assert_eq!(windows_comparable("\\\\?\\C:/Windows/System32\\\\"), "c:\\windows\\system32");
}

#[test]
fn system32_is_protected_on_windows_only() {
    let root = r"C:\Windows";
    assert!(is_protected_for(r"C:\Windows\System32\DriverStore", root, true));
    assert!(is_protected_for(r"C:\WINDOWS\SYSTEM32\DRIVERSTORE", root, true));
    assert!(is_protected_for(r"C:\Windows\System32", root, true));
    assert!(!is_protected_for(r"C:\Windows\System32Extra", root, true));
    assert!(!is_protected_for(r"C:\Windows\System32\DriverStore", root, false));
    assert!(!is_protected_system_path("/usr/lib"));
}
