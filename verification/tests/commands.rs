use sweep::commands::{
    check_kill_flags, failed_in_category, filter_by_ids, find_volume, kill_pids, merge_retry, offender_targets,
    process_targets, scans_total, schedule_action, select_scans, termination_step, ScheduleAction, TerminationStep,
};
use sweep::domain::models::{
    CategoryScan, CleanCategory, CleanOutcome, IdleReason, IdleSsdOffender, KillMode, KillRequest, LockedProcess,
    MediaType, ProcessMemInfo, RiskLevel, UndoItem, VolumeInfo,
};

fn cat(id: &str) -> CleanCategory {
    CleanCategory {
        id: id.into(),
        title: id.into(),
        roots: vec![format!("/{id}")],
        risk: RiskLevel::Safe,
        cleanup_command: None,
        reclaimable: true,
    }
}

fn scan(id: &str, bytes: u64) -> CategoryScan {
    CategoryScan {
        category_id: id.into(),
        title: id.into(),
        items: vec![format!("/{id}/a"), format!("/{id}/b")],
        total_bytes: bytes,
        files: 2,
        cleanup_command: None,
    }
}

fn strings(v: &[&str]) -> Vec<String> {
    v.iter().map(|s| s.to_string()).collect()
}

#[test]
fn only_filter_selects_categories_and_scans() {
    let all = filter_by_ids(vec![cat("a"), cat("b"), cat("c")], &Vec::new());
    assert_eq!(all.len(), 3);
    let some = filter_by_ids(vec![cat("a"), cat("b"), cat("c")], &strings(&["c", "a", "zz"]));
    let ids: Vec<&str> = some.iter().map(|c| c.id.as_str()).collect();
    assert_eq!(ids, vec!["a", "c"]);

    let scans = select_scans(vec![scan("a", 1), scan("b", 2)], &strings(&["b"]));
    assert_eq!(scans.len(), 1);
    assert_eq!(scans[0].category_id, "b");
    assert_eq!(select_scans(vec![scan("a", 1)], &strings(&["x"])).len(), 0);
}

#[test]
fn total_is_the_sum_of_scan_bytes() {
    assert_eq!(scans_total(&vec![scan("a", 100), scan("b", 250), scan("c", 25)]), 375);
    assert_eq!(scans_total(&Vec::new()), 0);
}

#[test]
fn failed_paths_are_grouped_by_category_items() {
    let failed = strings(&["/b/a", "/a/b", "/x", "/a/a"]);
    let items = strings(&["/a/a", "/a/b"]);
    assert_eq!(failed_in_category(&failed, &items), strings(&["/a/b", "/a/a"]));
    assert!(failed_in_category(&failed, &Vec::new()).is_empty());
}

#[test]
fn retry_outcome_keeps_both_passes_undo_items() {
    let item = |p: &str| UndoItem { original_path: p.into(), trash_path: p.into(), size_bytes: 1 };
    let first = CleanOutcome {
        removed_bytes: 10,
        removed_items: 1,
        failed_items: 1,
        failed_paths: strings(&["/locked"]),
        undo_items: vec![item("/first")],
    };
    let retry = CleanOutcome {
        removed_bytes: 5,
        removed_items: 1,
        failed_items: 0,
        failed_paths: Vec::new(),
        undo_items: vec![item("/retry")],
    };
    let merged = merge_retry(retry, first);
    assert_eq!(merged.removed_bytes, 5);
    assert_eq!(merged.failed_items, 0);
    let paths: Vec<&str> = merged.undo_items.iter().map(|u| u.original_path.as_str()).collect();
    assert_eq!(paths, vec!["/retry", "/first"]);
}

#[test]
fn kill_list_is_deduplicated_and_never_self() {
    let lp = |pid: u32| LockedProcess { pid, name: format!("p{pid}"), path: "/x".into() };
    let apps = vec![lp(7), lp(3), lp(7), lp(99), lp(3), lp(5)];
    assert_eq!(kill_pids(&apps, 99), vec![7, 3, 5]);
    assert!(kill_pids(&Vec::new(), 1).is_empty());
}

#[test]
fn volume_lookup_normalizes_trailing_separators() {
    let vols = vec![
        VolumeInfo { mount: "/".into(), media: MediaType::Ssd },
        VolumeInfo { mount: "/home".into(), media: MediaType::Hdd },
    ];
    assert_eq!(find_volume(&vols, "/home/"), Some(1));
    assert_eq!(find_volume(&vols, "/"), Some(0));
    assert_eq!(find_volume(&vols, "/mnt"), None);
}

#[test]
fn schedule_flags_pick_one_action_in_order() {
    assert_eq!(schedule_action(true, true, true, true, true, true), Some(ScheduleAction::GuardStatus));
    assert_eq!(schedule_action(true, true, true, true, true, false), Some(ScheduleAction::GuardInstall));
    assert_eq!(schedule_action(true, true, true, false, true, false), Some(ScheduleAction::GuardRemove));
    assert_eq!(schedule_action(true, true, true, false, false, false), Some(ScheduleAction::Status));
    assert_eq!(schedule_action(true, true, false, false, false, false), Some(ScheduleAction::Install));
    assert_eq!(schedule_action(false, true, false, false, false, false), Some(ScheduleAction::Remove));
    assert_eq!(schedule_action(false, false, false, false, false, false), None);
}

#[test]
fn kill_needs_force() {
    assert!(check_kill_flags(true, false).is_err());
    assert!(check_kill_flags(true, true).is_ok());
    assert!(check_kill_flags(false, false).is_ok());
}

#[test]
fn idle_and_bg_targets_follow_the_only_list() {
    let off = |pid: u32| IdleSsdOffender {
        pid,
        name: format!("o{pid}"),
        idle_secs: 0,
        write_bytes: 0,
        writes_per_hour: 0,
        memory_bytes: 1000 + pid as u64,
        reason: IdleReason::Unknown,
    };
    let offenders = vec![off(1), off(2), off(3)];
    let close = offender_targets(&offenders, &Vec::new(), false);
    assert_eq!(close.len(), 3);
    assert!(close.iter().all(|r| r.mode == KillMode::Close && !r.consent));
    let kill = offender_targets(&offenders, &vec![3, 1], true);
    let pids: Vec<u32> = kill.iter().map(|r| r.pid).collect();
    assert_eq!(pids, vec![1, 3]);
    assert_eq!(kill[1].size_bytes, 1003);
    assert_eq!(kill[1].name, "o3");
    assert!(kill.iter().all(|r| r.mode == KillMode::Kill));

    let proc_info = |pid: u32| ProcessMemInfo {
        pid,
        name: format!("p{pid}"),
        memory_bytes: 10,
        read_bytes: 0,
        write_bytes: 0,
        total_written_bytes: 0,
    };
    let bg = process_targets(&vec![proc_info(5), proc_info(6)], &vec![6]);
    assert_eq!(bg.len(), 1);
    assert_eq!(bg[0].pid, 6);
    assert_eq!(bg[0].mode, KillMode::Kill);
}

#[test]
fn termination_gate_skips_protected_and_asks_before_killing() {
    let req = |pid: u32, name: &str, mode: KillMode| KillRequest { pid, name: name.into(), size_bytes: 0, mode, consent: false };
    assert_eq!(termination_step(&req(4, "System", KillMode::Close), 100), TerminationStep::SkipProtected);
    assert_eq!(termination_step(&req(100, "sweep", KillMode::Kill), 100), TerminationStep::SkipProtected);
    assert_eq!(termination_step(&req(500, "csrss.exe", KillMode::Close), 100), TerminationStep::SkipProtected);
    assert_eq!(termination_step(&req(500, "notepad", KillMode::Kill), 100), TerminationStep::AskConsent);
    assert_eq!(termination_step(&req(500, "notepad", KillMode::Close), 100), TerminationStep::Proceed);
}
