use sweep::domain::models::{
    CleanCategory, DiskRescuePhase, DiskSnapshot, GuardAction, GuardConfig, GuardLogEntry, GuardLogLevel, IdleReason,
    IdleSsdOffender, KillMode, RamSnapshot, RiskLevel,
};
use sweep::domain::traits::GuardMonitor;
use sweep::guard::{close_requests, cycle_action, purged_bin_bytes, rescue_categories, DiskRescue, GuardLog, GuardService, GIB};

struct Fixed;

impl GuardMonitor for Fixed {
    fn snapshot_ram(&self) -> Result<RamSnapshot, String> {
        Ok(ram(950))
    }
    fn snapshot_disk(&self) -> Result<DiskSnapshot, String> {
        Ok(disk(100 * GIB))
    }
}

fn ram(used: u64) -> RamSnapshot {
    RamSnapshot { timestamp_secs: 0, used_bytes: used, total_bytes: 1000, available_bytes: 1000 - used }
}

fn disk(free: u64) -> DiskSnapshot {
    DiskSnapshot { timestamp_secs: 0, free_bytes: free, total_bytes: 200 * GIB }
}

#[test]
fn ram_trim_needs_three_consecutive_pressured_samples() {
    let mut g = GuardService::new(Fixed, GuardConfig::new_default());
    let (r, d) = g.sample().unwrap();
    let p1 = g.plan_cycle(0, &r, &d);
    assert_eq!(p1.pressure_sample, Some(1));
    assert!(!p1.trim_ram);
    let p2 = g.plan_cycle(60, &ram(950), &d);
    assert_eq!(p2.pressure_sample, Some(2));
    // a calm sample resets the count
    let calm = g.plan_cycle(120, &ram(100), &d);
    assert!(calm.pressure_sample.is_none() && !calm.trim_ram);
    assert_eq!(g.ram_pressure_count, 0);
    g.plan_cycle(180, &ram(900), &d);
    g.plan_cycle(240, &ram(900), &d);
    let p = g.plan_cycle(300, &ram(900), &d);
    assert!(p.trim_ram);
    assert!(p.rescue_target.is_none());
    assert!(!p.close_offenders);
}

#[test]
fn cooldown_silences_the_guard() {
    let mut g = GuardService::new(Fixed, GuardConfig::new_default());
    g.ram_trimmed(1000);
    assert_eq!(g.cooldown_until, Some(1300));
    assert_eq!(g.ram_pressure_count, 0);
    let p = g.plan_cycle(1299, &ram(999), &disk(0));
    assert!(p.cooling_down && !p.trim_ram && p.rescue_target.is_none());
    assert_eq!(g.ram_pressure_count, 0);
    let p = g.plan_cycle(1300, &ram(999), &disk(0));
    assert!(!p.cooling_down);
    assert_eq!(p.rescue_target, Some(10 * GIB));
    assert_eq!(g.cooldown_until, None);
}

#[test]
fn disk_rescue_escalates_and_stops_once_enough_is_free() {
    let mut r = DiskRescue::start(GIB, 10 * GIB);
    assert_eq!(r.phase, Some(DiskRescuePhase::Reserve));
    r.record(512 * 1024 * 1024);
    assert_eq!(r.phase, Some(DiskRescuePhase::CleanSafe));
    r.record(9 * GIB);
    assert_eq!(r.phase, None);
    assert_eq!(r.total_freed, 9 * GIB + 512 * 1024 * 1024);
    let mut s = DiskRescue::start(0, GIB);
    s.record(0);
    s.record(0);
    assert_eq!(s.phase, Some(DiskRescuePhase::PurgeBin));
    s.record(purged_bin_bytes(3));
    assert_eq!(s.phase, None);
    assert_eq!(s.total_freed, 3072);

    let mut g = GuardService::new(Fixed, GuardConfig::new_default());
    assert_eq!(g.disk_rescued(5, 0), GuardAction::Nothing);
    assert_eq!(g.cooldown_until, None);
    assert_eq!(g.disk_rescued(5, 1), GuardAction::DiskCleanSafe);
    assert_eq!(g.cooldown_until, Some(305));
    assert_eq!(cycle_action(true, None), GuardAction::RamTrim);
    assert_eq!(cycle_action(true, Some(GuardAction::Nothing)), GuardAction::Nothing);
    assert_eq!(cycle_action(false, None), GuardAction::Nothing);
}

#[test]
fn only_heavy_writers_are_closed_and_only_gracefully() {
    let off = |pid: u32, rate: u64| IdleSsdOffender {
        pid,
        name: format!("p{pid}"),
        idle_secs: 7200,
        write_bytes: 1,
        writes_per_hour: rate,
        memory_bytes: 42,
        reason: IdleReason::Unknown,
    };
    let reqs = close_requests(&vec![off(1, 500 * 1024 * 1024), off(2, 500 * 1024 * 1024 - 1)]);
    assert_eq!(reqs.len(), 1);
    assert_eq!(reqs[0].pid, 1);
    assert_eq!(reqs[0].mode, KillMode::Close);
    assert!(reqs[0].consent);
    assert_eq!(reqs[0].size_bytes, 42);
    let mut cfg = GuardConfig::new_default();
    cfg.allow_kill = true;
    let mut g = GuardService::new(Fixed, cfg);
    assert!(g.plan_cycle(0, &ram(0), &disk(100 * GIB)).close_offenders);
}

#[test]
fn guard_log_lines_carry_level_message_and_bytes() {
    let e = GuardLogEntry {
        timestamp: "2024-01-01T00:00:00+00:00".into(),
        level: GuardLogLevel::Action,
        message: "ram trim: freed 5 bytes".into(),
        bytes_freed: Some(5),
    };
    assert_eq!(GuardLog::line(&e), "[2024-01-01T00:00:00+00:00] [ACTION] [ram trim: freed 5 bytes] [5]");
    let i = GuardLogEntry { timestamp: "t".into(), level: GuardLogLevel::Info, message: "test message".into(), bytes_freed: None };
    let line = GuardLog::line(&i);
    assert!(line.contains("INFO"));
    assert!(line.contains("test message"));
    assert_eq!(line, "[t] [INFO] [test message]");
}

#[test]
fn guard_log_writes_entries() {
    let e = GuardLogEntry { timestamp: "2024-05-01T10:00:00+00:00".into(), level: GuardLogLevel::Info, message: "test message".into(), bytes_freed: None };
    let content = GuardLog::line(&e);
    assert!(content.contains("INFO"));
    assert!(content.contains("test message"));
}

#[test]
fn disk_rescue_cleans_only_safe_categories() {
    let cat = |id: &str, risk: RiskLevel| CleanCategory {
        id: id.into(),
        title: id.into(),
        roots: vec![],
        risk,
        cleanup_command: None,
        reclaimable: true,
    };
    let picked = rescue_categories(vec![
        cat("a", RiskLevel::Safe),
        cat("b", RiskLevel::System),
        cat("c", RiskLevel::Safe),
    ]);
    let ids: Vec<&str> = picked.iter().map(|c| c.id.as_str()).collect();
    assert_eq!(ids, vec!["a", "c"]);
}
