use std::cell::{Cell, RefCell};

use sweep::clean::CleanService;
use sweep::domain::models::{CategoryScan, CleanCategory, ExclusionConfig, RiskLevel};
use sweep::domain::traits::PathRemover;
use sweep::exclusion::apply_exclusions;

struct RecordingRemover {
    removed: RefCell<Vec<String>>,
    fail_on: Vec<String>,
}

impl PathRemover for RecordingRemover {
    fn remove_path(&self, path: &str) -> Result<(), String> {
        if self.fail_on.iter().any(|f| path.contains(f.as_str())) {
            return Err("locked".to_string());
        }
        self.removed.borrow_mut().push(path.to_string());
        Ok(())
    }
}

struct CountingRemover(Cell<usize>);

impl PathRemover for CountingRemover {
    fn remove_path(&self, _p: &str) -> Result<(), String> {
        self.0.set(self.0.get() + 1);
        Ok(())
    }
}

/// The tree `base/a.bin` (100 bytes) and `base/sub/b.bin` (50 bytes).
fn tree_listing(base: &str) -> impl Fn(&str) -> Vec<String> + '_ {
    move |root: &str| {
        if root == base {
            vec![format!("{base}/a.bin"), format!("{base}/sub")]
        } else {
            Vec::new()
        }
    }
}

fn tree_measure(p: &str) -> (u64, u64) {
    if p.ends_with("/a.bin") {
        (100, 1)
    } else if p.ends_with("/sub") {
        (50, 1)
    } else {
        (0, 0)
    }
}

#[test]
fn scan_measures_children_and_files() {
    let cats = vec![CleanCategory {
        id: "t".into(),
        title: "test".into(),
        roots: vec!["/tmp/sweep-clean-test".into()],
        risk: RiskLevel::Safe,
        cleanup_command: None,
        reclaimable: true,
    }];
    let svc = CleanService::new(CountingRemover(Cell::new(0)));
    let scans = svc.scan(&cats, tree_listing("/tmp/sweep-clean-test"), tree_measure);
    assert_eq!(scans[0].items.len(), 2);
    assert_eq!(scans[0].files, 2);
    assert_eq!(scans[0].total_bytes, 150);
}

#[test]
fn run_filters_by_category_ids_and_counts_failures() {
    let scans = vec![
        CategoryScan {
            category_id: "keep".into(),
            title: "k".into(),
            items: vec!["/a/a.bin".into()],
            total_bytes: 100,
            files: 1,
            cleanup_command: None,
        },
        CategoryScan {
            category_id: "do".into(),
            title: "d".into(),
            items: vec!["/b/ok.bin".into(), "/b/locked.bin".into()],
            total_bytes: 0,
            files: 2,
            cleanup_command: None,
        },
    ];
    let remover = RecordingRemover { removed: RefCell::new(vec![]), fail_on: vec!["locked".into()] };
    let svc = CleanService::new(remover);
    let only = vec!["do".to_string()];
    let out = svc.run(&scans, Some(only.as_slice()), |_c: &str| true, |_p: &str| (0, 1)).unwrap();

    assert_eq!(out.removed_items, 1);
    assert_eq!(out.failed_items, 1);
    assert_eq!(out.failed_paths, vec!["/b/locked.bin".to_string()]);
    assert_eq!(svc.remover.removed.borrow().clone(), vec!["/b/ok.bin".to_string()]);
}

#[test]
fn missing_roots_are_ignored_in_scan() {
    let cats = vec![CleanCategory {
        id: "ghost".into(),
        title: "g".into(),
        roots: vec!["/tmp/sweep-does-not-exist-xyz".into()],
        risk: RiskLevel::Safe,
        cleanup_command: None,
        reclaimable: true,
    }];
    let svc = CleanService::new(CountingRemover(Cell::new(0)));
    let scans = svc.scan(&cats, |_r: &str| Vec::new(), |_p: &str| (0, 0));
    assert!(scans[0].items.is_empty());
    assert_eq!(scans[0].total_bytes, 0);
}

#[test]
fn run_records_undo_items_with_measured_sizes_and_counts_command_bytes() {
    let scans = vec![
        CategoryScan {
            category_id: "items".into(),
            title: "i".into(),
            items: vec!["/c/one.bin".into(), "/c/two.bin".into()],
            total_bytes: 0,
            files: 2,
            cleanup_command: None,
        },
        CategoryScan {
            category_id: "cmd".into(),
            title: "c".into(),
            items: vec!["/store".into()],
            total_bytes: 1000,
            files: 9,
            cleanup_command: Some("prune".into()),
        },
    ];
    let svc = CleanService::new(CountingRemover(Cell::new(0)));
    let out = svc
        .run(&scans, None, |c: &str| c == "prune", |p: &str| if p.ends_with("one.bin") { (10, 1) } else { (20, 1) })
        .unwrap();
    assert_eq!(out.removed_items, 3);
    assert_eq!(out.removed_bytes, 1030);
    assert_eq!(out.failed_items, 0);
    let undo: Vec<(String, String, u64)> =
        out.undo_items.iter().map(|u| (u.original_path.clone(), u.trash_path.clone(), u.size_bytes)).collect();
    assert_eq!(
        undo,
        vec![
            ("/c/one.bin".to_string(), "/c/one.bin".to_string(), 10),
            ("/c/two.bin".to_string(), "/c/two.bin".to_string(), 20)
        ]
    );
    let failed = svc.run(&scans[1..], None, |_c: &str| false, |_p: &str| (0, 0)).unwrap();
    assert_eq!(failed.removed_items, 0);
    assert_eq!(failed.failed_items, 1);
    assert_eq!(failed.failed_paths, vec!["/store".to_string()]);
}

#[test]
fn excluded_items_are_never_counted_or_trashed() {
    let cats = vec![CleanCategory {
        id: "t".into(),
        title: "test".into(),
        roots: vec!["/base".into()],
        risk: RiskLevel::Safe,
        cleanup_command: None,
        reclaimable: true,
    }];
    let excl = ExclusionConfig { paths: vec!["/base/sub".into()], category_ids: vec![], globs: vec![] };
    let svc = CleanService::new(RecordingRemover { removed: RefCell::new(vec![]), fail_on: vec![] });
    let scans = svc.scan_excluding(&cats, &excl, tree_listing("/base"), tree_measure);
    assert_eq!(scans[0].items, vec!["/base/a.bin".to_string()]);
    assert_eq!(scans[0].total_bytes, 100);
    let out = svc.run(&scans, None, |_c: &str| true, tree_measure).unwrap();
    assert_eq!(svc.remover.removed.borrow().clone(), vec!["/base/a.bin".to_string()]);
    assert_eq!(out.removed_bytes, 100);
}

#[test]
fn scan_within_flags_a_measurement_that_gave_up() {
    let cats = vec![CleanCategory {
        id: "t".into(),
        title: "test".into(),
        roots: vec!["/base".into()],
        risk: RiskLevel::Safe,
        cleanup_command: None,
        reclaimable: true,
    }];
    let none = ExclusionConfig::default();
    let svc = CleanService::new(CountingRemover(Cell::new(0)));
    let (scans, partial) =
        svc.scan_within(&cats, &none, tree_listing("/base"), |p: &str| if p.ends_with("/sub") { (5, 1, false) } else { (100, 1, true) });
    assert!(partial);
    assert_eq!(scans[0].total_bytes, 105);
    assert_eq!(scans[0].files, 2);
    let (_, complete) = svc.scan_within(&cats, &none, tree_listing("/base"), |_p: &str| (1, 1, true));
    assert!(!complete);
}

#[test]
fn excluding_one_profile_keeps_the_others() {
    let ud = "/lad/Google/Chrome/User Data";
    let cats = vec![CleanCategory {
        id: "chrome-cache".into(),
        title: "Chrome cache".into(),
        roots: vec![format!("{ud}/Default/Cache"), format!("{ud}/Profile 1/Cache")],
        risk: RiskLevel::Safe,
        cleanup_command: None,
        reclaimable: true,
    }];
    let excl = ExclusionConfig { paths: vec![format!("{ud}/Profile 1")], category_ids: vec![], globs: vec![] };
    let (cats, excluded) = apply_exclusions(&cats, &excl);
    assert_eq!(excluded, 0, "one excluded profile must not hide the category");
    let svc = CleanService::new(CountingRemover(Cell::new(0)));
    let list = |root: &str| vec![format!("{root}/Cache_Data")];
    let measure = |_p: &str| (10u64, 1u64);
    let scans = svc.scan_excluding(&cats, &excl, list, measure);
    assert_eq!(scans[0].items.len(), 1, "{:?}", scans[0].items);
    assert!(scans[0].items[0].starts_with(&format!("{ud}/Default")));
    assert_eq!(scans[0].total_bytes, 10);
}
