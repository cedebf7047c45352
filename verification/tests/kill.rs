use sweep::domain::models::{KillMode, KillRequest};
use sweep::kill::KillService;

fn req(pid: u32, name: &str, mode: KillMode, consent: bool) -> KillRequest {
    KillRequest { pid, name: name.into(), size_bytes: 0, mode, consent }
}

#[test]
fn blocks_system_pids() {
    let me: u32 = 4242;
    assert!(KillService::is_blocked(&req(0, "x", KillMode::Kill, true), me));
    assert!(KillService::is_blocked(&req(4, "x", KillMode::Kill, true), me));
    assert!(KillService::is_blocked(&req(me, "sweep", KillMode::Kill, true), me));
}

#[test]
fn blocks_system_names_with_and_without_exe() {
    let me: u32 = 4242;
    assert!(KillService::is_blocked(&req(100, "csrss", KillMode::Close, false), me));
    assert!(KillService::is_blocked(&req(100, "wininit.exe", KillMode::Kill, true), me));
    assert!(KillService::is_blocked(&req(100, "SERVICES", KillMode::Kill, true), me));
}

#[test]
fn unconsented_kill_is_rejected() {
    let svc = KillService::new();
    let r = req(12345, "notepad", KillMode::Kill, false);
    assert!(!KillService::is_blocked(&r, 1));
    assert_eq!(svc.execute(&r, 1), None);
}

#[test]
fn allowed_requests_hand_back_their_mode() {
    let svc = KillService::new();
    assert_eq!(svc.execute(&req(12345, "notepad", KillMode::Kill, true), 1), Some(KillMode::Kill));
    assert_eq!(svc.execute(&req(12345, "notepad", KillMode::Close, false), 1), Some(KillMode::Close));
    assert_eq!(svc.execute(&req(100, "CSRSS.EXE", KillMode::Close, true), 1), None);
    // Only one trailing `.exe` is removed before the blocklist comparison.
    assert!(!KillService::is_blocked(&req(100, "csrss.exe.exe", KillMode::Close, true), 1));
}
