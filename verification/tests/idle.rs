use std::cell::RefCell;

use sweep::domain::models::{IdleReason, IdleSsdOffender};
use sweep::idle::{cache_dirs_for_process, classify_reason, IdleConfig, IdleService, ProcessSample};

fn sample(pid: u32, name: &str, before: Option<u64>, after: u64, run: u64) -> ProcessSample {
    ProcessSample {
        pid,
        name: name.to_string(),
        written_before: before,
        written_after: after,
        run_time_secs: run,
        memory_bytes: 7,
    }
}

#[test]
fn reasons_follow_the_process_name() {
    assert_eq!(classify_reason("OneDrive.exe"), IdleReason::SyncService);
    assert_eq!(classify_reason("SearchIndexer-cache"), IdleReason::BackgroundFlush);
    assert_eq!(classify_reason("notepad"), IdleReason::Unknown);
}

#[test]
fn offenders_are_filtered_ranked_and_capped() {
    let cfg = IdleConfig { top: 2, idle_mins: 1, min_write_mb: 1, clean_cache: false };
    let mib = 1024 * 1024;
    let samples = vec![
        sample(1, "a", Some(0), 2 * mib, 3600),
        sample(2, "b", Some(mib), 5 * mib, 3600),
        sample(3, "fg", Some(0), 50 * mib, 3600),
        sample(4, "young", Some(0), 50 * mib, 10),
        sample(5, "new", None, 50 * mib, 3600),
        sample(6, "c", Some(0), 3 * mib, 7200),
    ];
    let got = IdleService::new().offenders(&cfg, &samples, true, 3);
    let pids: Vec<u32> = got.iter().map(|o| o.pid).collect();
    assert_eq!(pids, vec![2, 6]);
    assert_eq!(got[0].write_bytes, 4 * mib);
    assert_eq!(got[0].writes_per_hour, 4 * mib);
    assert_eq!(got[1].writes_per_hour, 3 * mib / 2);
    // Without a window the lifetime total counts, so the new process qualifies.
    let lifetime = IdleService::new().offenders(&cfg, &samples, false, 3);
    assert_eq!(lifetime[0].pid, 5);
}

#[test]
fn chrome_and_edge_have_cache_dirs() {
    let dirs = cache_dirs_for_process("chrome.exe", Some("C:\\L"), '\\').unwrap();
    assert_eq!(dirs.len(), 2);
    assert_eq!(dirs[0], "C:\\L\\Google/Chrome/User Data/Default/Cache");
    assert_eq!(cache_dirs_for_process("notepad", Some("C:\\L"), '\\'), None);
    assert_eq!(cache_dirs_for_process("msedge", None, '\\'), None);
}

fn offender(pid: u32, name: &str) -> IdleSsdOffender {
    IdleSsdOffender {
        pid,
        name: name.into(),
        idle_secs: 7200,
        write_bytes: 1 << 30,
        writes_per_hour: 1 << 29,
        memory_bytes: 0,
        reason: classify_reason(name),
    }
}

#[test]
fn clean_cache_trashes_existing_cache_dirs_and_sums_their_sizes() {
    let removed = RefCell::new(Vec::new());
    let offenders = vec![offender(1, "chrome.exe"), offender(2, "notepad.exe"), offender(3, "msedge.exe")];
    let freed = IdleService::clean_cache(
        &offenders,
        Some("/L"),
        '/',
        |p: &str| p.ends_with("/Cache"),
        |p: &str| if p.contains("Chrome") { 4096 } else { 100 },
        |p: &str| {
            removed.borrow_mut().push(p.to_string());
            Ok(())
        },
    )
    .unwrap();
    assert_eq!(freed, 4196);
    assert_eq!(
        *removed.borrow(),
        vec!["/L/Google/Chrome/User Data/Default/Cache".to_string(), "/L/Microsoft/Edge/User Data/Default/Cache".to_string()]
    );
    let none = IdleService::clean_cache(&offenders, None, '/', |_p: &str| true, |_p: &str| 1, |_p: &str| Ok(()));
    assert_eq!(none, Ok(0));
}
