use std::cell::RefCell;
use std::rc::Rc;

use sweep::domain::models::{DiskStats, MemoryStats, ProcessMemInfo, SystemSnapshot};
use sweep::domain::traits::{RamTrimmer, SystemMonitor};
use sweep::system::{compare_versions, limit_top, parse_latest_tag, parse_semver, update_from_reply, RamService, SystemService, UpdateCheck};

fn proc(pid: u32, name: &str, mem: u64) -> ProcessMemInfo {
    ProcessMemInfo { pid, name: name.into(), memory_bytes: mem, read_bytes: 0, write_bytes: 0, total_written_bytes: 0 }
}

struct MockMonitor;

impl SystemMonitor for MockMonitor {
    fn snapshot(&mut self) -> Result<SystemSnapshot, String> {
        Ok(SystemSnapshot {
            memory: MemoryStats {
                total_bytes: 16_000_000_000,
                used_bytes: 8_000_000_000,
                available_bytes: 8_000_000_000,
                swap_total_bytes: 0,
                swap_used_bytes: 0,
            },
            disks: vec![],
            top_processes: vec![proc(42, "chrome", 900), proc(7, "code", 500), proc(11, "mock", 100)],
        })
    }
}

#[test]
fn status_report_returns_monitor_data() {
    let mut svc = SystemService::new(MockMonitor);
    let snap = svc.status_report(10).unwrap();
    assert_eq!(snap.memory.total_bytes, 16_000_000_000);
    assert_eq!(snap.top_processes.len(), 3);
    assert!(snap.disks.is_empty());
}

#[test]
fn status_report_truncates_to_requested_top() {
    let mut svc = SystemService::new(MockMonitor);
    let snap = svc.status_report(2).unwrap();
    assert_eq!(snap.top_processes.len(), 2);
    assert_eq!(snap.top_processes[0].name, "chrome");
    assert_eq!(snap.top_processes[1].name, "code");
}

#[derive(Clone)]
struct SharedState {
    used: Rc<RefCell<u64>>,
}

struct RamMonitor {
    state: SharedState,
}

impl SystemMonitor for RamMonitor {
    fn snapshot(&mut self) -> Result<SystemSnapshot, String> {
        let used = *self.state.used.borrow();
        Ok(SystemSnapshot {
            memory: MemoryStats {
                total_bytes: 1000,
                used_bytes: used,
                available_bytes: 1000 - used,
                swap_total_bytes: 0,
                swap_used_bytes: 0,
            },
            disks: vec![DiskStats {
                name: "C".into(),
                mount_point: "C:\\".into(),
                total_bytes: 10,
                used_bytes: 5,
                available_bytes: 5,
            }],
            top_processes: vec![proc(111, "big.exe", 500), proc(222, "mid.exe", 300), proc(333, "small.exe", 100)],
        })
    }
}

struct RecorderTrimmer {
    calls: RefCell<Vec<Vec<u32>>>,
    standby_result: bool,
    state: SharedState,
}

impl RamTrimmer for RecorderTrimmer {
    fn trim_processes(&mut self, pids: &[u32]) -> Result<(u32, u32), String> {
        self.calls.borrow_mut().push(pids.to_vec());
        *self.state.used.borrow_mut() -= 200;
        Ok((pids.len() as u32 - 1, 1))
    }
    fn purge_standby(&mut self) -> Result<bool, String> {
        Ok(self.standby_result)
    }
}

fn service(used: u64) -> RamService<RamMonitor, RecorderTrimmer> {
    let state = SharedState { used: Rc::new(RefCell::new(used)) };
    RamService::new(
        RamMonitor { state: state.clone() },
        RecorderTrimmer { calls: RefCell::new(vec![]), standby_result: true, state },
    )
}

#[test]
fn trims_only_top_n_pids_in_monitor_order() {
    let mut svc = service(900);
    let report = svc.optimize(Some(2), false).unwrap();

    assert_eq!(report.outcome.attempted_pids, vec![111, 222]);
    assert_eq!(report.outcome.succeeded, 1);
    assert_eq!(report.outcome.failed, 1);
    assert!(!report.outcome.standby_attempted);
    assert!(report.after.used_bytes < report.before.used_bytes);
}

#[test]
fn standby_flag_flows_into_outcome() {
    let mut svc = service(800);
    let report = svc.optimize(None, true).unwrap();
    assert!(report.outcome.standby_attempted && report.outcome.standby_ok);
    assert!(report.outcome.attempted_pids.is_empty());
}

#[test]
fn newer_tag_reports_update_available() {
    assert_eq!(compare_versions("0.8.0", "v0.9.0"), UpdateCheck::Available("v0.9.0".into()));
}

#[test]
fn same_version_is_up_to_date() {
    assert_eq!(compare_versions("0.9.0", "v0.9.0"), UpdateCheck::UpToDate);
}

#[test]
fn older_tag_is_up_to_date() {
    assert_eq!(compare_versions("1.0.0", "v0.9.9"), UpdateCheck::UpToDate);
}

#[test]
fn tag_without_v_prefix_is_handled() {
    assert_eq!(compare_versions("0.1.0", "0.2.0"), UpdateCheck::Available("0.2.0".into()));
}

#[test]
fn unparseable_tag_is_skipped() {
    assert_eq!(compare_versions("0.9.0", "nightly"), UpdateCheck::Skipped);
}

#[test]
fn parses_tag_name_from_release_json() {
    let body = r#"{"tag_name":"v1.2.3","name":"release"}"#;
    assert_eq!(parse_latest_tag(body), Some("v1.2.3".to_string()));
}

#[test]
fn malformed_json_yields_no_tag() {
    assert_eq!(parse_latest_tag("not json"), None);
}

#[test]
fn semver_parts_default_and_suffixes_are_dropped() {
    assert_eq!(parse_semver("1"), Some((1, 0, 0)));
    assert_eq!(parse_semver("1.2"), Some((1, 2, 0)));
    assert_eq!(parse_semver("1.2.3-beta+7"), Some((1, 2, 3)));
    assert_eq!(parse_semver("1.2.3.4"), Some((1, 2, 3)));
    // `+` starts build metadata, so nothing is left of the version.
    assert_eq!(parse_semver("+1.2.3"), None);
    assert_eq!(parse_semver("18446744073709551616"), None);
    assert_eq!(parse_semver(""), None);
    assert_eq!(update_from_reply("0.1.0", None), UpdateCheck::Skipped);
    assert_eq!(
        update_from_reply("0.1.0", Some(r#"{"tag_name":"v0.3.0"}"#)),
        UpdateCheck::Available("v0.3.0".into())
    );
}

#[test]
fn limit_top_keeps_memory_and_disks_and_the_first_processes() {
    let snap = MockMonitor.snapshot().unwrap();
    let limited = limit_top(snap.clone(), 2);
    assert_eq!(limited.memory.used_bytes, 8_000_000_000);
    assert_eq!(limited.disks.len(), 0);
    let pids: Vec<u32> = limited.top_processes.iter().map(|p| p.pid).collect();
    assert_eq!(pids, vec![42, 7]);
    let all = limit_top(snap, 10);
    assert_eq!(all.top_processes.len(), 3);
}
