use sweep::doctor::{safe_freed, system_freed};
use sweep::diagnose::{filter_excluded_rows, DiagnoseService};
use sweep::doctor::{would_clean_estimate, DoctorProbes, DoctorService};
use sweep::domain::models::{
    CategoryEstimate, CategoryScan, CleanCategory, DiagnoseRow, ElevationStatus, ExclusionConfig, ReserveStatus,
    RiskLevel, ToastStatus,
};

fn scan(id: &str, bytes: u64) -> CategoryScan {
    CategoryScan {
        category_id: id.into(),
        title: id.into(),
        items: vec![],
        total_bytes: bytes,
        files: 1,
        cleanup_command: None,
    }
}

#[test]
fn sorts_by_size_desc() {
    let scans = vec![scan("small", 100), scan("large", 1000), scan("medium", 500)];
    let report = DiagnoseService::build_report(&scans);
    assert_eq!(report.rows[0].category_id, "large");
    assert_eq!(report.rows[1].category_id, "medium");
    assert_eq!(report.rows[2].category_id, "small");
}

#[test]
fn sums_total_reclaimable() {
    let scans = vec![scan("a", 100), scan("b", 200)];
    let report = DiagnoseService::build_report(&scans);
    assert_eq!(report.total_reclaimable, 300);
}

#[test]
fn empty_input_returns_empty_report() {
    let report = DiagnoseService::build_report(&[]);
    assert!(report.rows.is_empty());
    assert_eq!(report.total_reclaimable, 0);
}

#[test]
fn marks_all_rows_safe_and_reclaimable() {
    let scans = vec![scan("x", 50)];
    let report = DiagnoseService::build_report(&scans);
    assert_eq!(report.rows[0].risk, RiskLevel::Safe);
    assert!(report.rows[0].reclaimable);
}

#[test]
fn equal_sizes_keep_scan_order_and_excluded_rows_are_counted() {
    let report = DiagnoseService::build_report(&[scan("first", 5), scan("second", 5)]);
    assert_eq!(report.rows[0].category_id, "first");
    assert_eq!(report.rows[1].category_id, "second");
    let rows: Vec<DiagnoseRow> = report.rows.clone();
    let excl = ExclusionConfig { category_ids: vec!["first".into()], ..Default::default() };
    let (kept, excluded) = filter_excluded_rows(rows, &excl);
    assert_eq!(excluded, 1);
    assert_eq!(kept.len(), 1);
    assert_eq!(kept[0].category_id, "second");
}

fn est(id: &str, size: u64) -> CategoryEstimate {
    CategoryEstimate { id: id.into(), size_bytes: size, risk: RiskLevel::Safe }
}

fn probes() -> DoctorProbes {
    DoctorProbes {
        reserve: (ReserveStatus::Healthy, 0, 0),
        elevation: ElevationStatus::Not,
        toast: ToastStatus::Unavailable,
        guard_armed: false,
        idle_offender_count: 0,
        volumes: vec![],
    }
}

#[test]
fn total_equals_sum_of_category_estimates() {
    let would_clean = vec![est("a", 100), est("b", 250), est("c", 25)];
    let report = DoctorService::new().report(probes(), would_clean, false);
    assert_eq!(
        report.would_clean_total_bytes,
        report.would_clean.iter().map(|c| c.size_bytes).sum::<u64>()
    );
    assert_eq!(report.would_clean_total_bytes, 375);
}

fn cat(id: &str, risk: RiskLevel) -> CleanCategory {
    CleanCategory {
        id: id.into(),
        title: id.into(),
        roots: vec![],
        risk,
        cleanup_command: None,
        reclaimable: true,
    }
}

#[test]
fn estimates_drop_empty_categories_and_sort_largest_first() {
    let cats = vec![cat("a", RiskLevel::Safe), cat("b", RiskLevel::System), cat("c", RiskLevel::Safe)];
    let scans = vec![scan("a", 10), scan("b", 0), scan("c", 30)];
    let est = would_clean_estimate(&cats, &scans);
    assert_eq!(est.len(), 2);
    assert_eq!(est[0].id, "c");
    assert_eq!(est[1].id, "a");
    assert_eq!(est[1].size_bytes, 10);
}

#[test]
fn freed_bytes_split_by_category_risk() {
    let cat = |id: &str, risk: RiskLevel| CleanCategory {
        id: id.into(),
        title: id.into(),
        roots: vec![],
        risk,
        cleanup_command: None,
        reclaimable: true,
    };
    let cats = vec![cat("a", RiskLevel::Safe), cat("wu", RiskLevel::System)];
    let recorded = vec![("a".to_string(), 100u64), ("wu".to_string(), 40), ("gone".to_string(), 7), ("a".to_string(), 1)];
    assert_eq!(safe_freed(&recorded, &cats), 101);
    assert_eq!(system_freed(&recorded, &cats), 40);
    assert_eq!(safe_freed(&Vec::new(), &cats), 0);
}
