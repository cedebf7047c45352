use sweep::domain::models::{MaintenanceAction, MediaType, VolumeInfo};
use sweep::optimize::{action_description, action_for, summarize_error, OptimizeService};

#[test]
fn ssd_is_trimmed_never_defragmented() {
    let action = action_for(MediaType::Ssd);
    assert_eq!(action, MaintenanceAction::Trim);
    assert_ne!(action, MaintenanceAction::Defrag);
}

#[test]
fn hdd_is_defragmented() {
    assert_eq!(action_for(MediaType::Hdd), MaintenanceAction::Defrag);
}

#[test]
fn unknown_media_gets_no_action() {
    match action_for(MediaType::Unknown) {
        MaintenanceAction::Unsupported(reason) => {
            assert!(reason.contains("could not be determined"));
        }
        other => panic!("unknown media must not act, got {other:?}"),
    }
}

#[test]
fn unsupported_volume_reports_without_running() {
    let volume = VolumeInfo { mount: "Z:\\".into(), media: MediaType::Unknown };
    let outcome = OptimizeService::new().run(&volume, false, |_, _, _| panic!("must not run"));
    assert!(!outcome.applied);
    assert!(!outcome.succeeded);
    assert!(matches!(outcome.action, MaintenanceAction::Unsupported(_)));
}

#[test]
fn permission_errors_become_one_actionable_line() {
    let raw = "Optimize-Volume failed: Optimize-Volume : Access denied\nActivity ID: {…}\n\
               At line:1 char:1\n+ Optimize-Volume -DriveLetter C";
    let summary = summarize_error(raw);
    assert_eq!(summary.lines().count(), 1);
    assert!(summary.contains("elevated") || summary.contains("root"));
    assert!(!summary.contains("At line:1"));
}

#[test]
fn other_errors_keep_their_first_line() {
    let summary = summarize_error("fstrim failed: the discard operation is not supported\ntrace");
    assert_eq!(summary, "fstrim failed: the discard operation is not supported");
}

#[test]
fn descriptions_name_the_volume_and_media() {
    let trim = action_description(&MaintenanceAction::Trim, "C:\\");
    assert!(trim.contains("TRIM"));
    assert!(trim.contains("C:\\"));
    let defrag = action_description(&MaintenanceAction::Defrag, "D:\\");
    assert!(defrag.contains("defragment"));
    assert!(defrag.contains("D:\\"));
}

#[test]
fn action_display_is_stable() {
    assert_eq!(MaintenanceAction::Trim.label(), "trim");
    assert_eq!(MaintenanceAction::Defrag.label(), "defrag");
    assert_eq!(MaintenanceAction::Unsupported("x".into()).label(), "none");
    assert_eq!(MediaType::Ssd.label(), "ssd");
    assert_eq!(MediaType::Hdd.label(), "hdd");
    assert_eq!(MediaType::Unknown.label(), "unknown");
}

#[test]
fn a_run_reports_what_the_tool_said() {
    let ssd = VolumeInfo { mount: "/".into(), media: MediaType::Ssd };
    let ok = OptimizeService::new().run(&ssd, false, |_, a, _| {
        assert_eq!(*a, MaintenanceAction::Trim);
        Ok("/: 1 GiB trimmed".to_string())
    });
    assert!(ok.succeeded && ok.applied);
    assert_eq!(ok.message, "/: 1 GiB trimmed");
    let dry = OptimizeService::new().run(&ssd, true, |_, _, _| Ok(String::new()));
    assert!(dry.succeeded && !dry.applied);
    let failed = OptimizeService::new().run(&ssd, false, |_, _, _| Err("fstrim: Operation not permitted\nmore".into()));
    assert!(!failed.succeeded && !failed.applied);
    assert_eq!(failed.message, "permission denied \u{2014} fstrim requires root (try sudo)");
    assert_eq!(summarize_error("\n  \n"), "\n  \n");
}

#[test]
fn only_sized_volumes_are_listed() {
    let mounted = vec![
        (VolumeInfo { mount: "/".into(), media: MediaType::Ssd }, 100u64),
        (VolumeInfo { mount: "/proc".into(), media: MediaType::Unknown }, 0u64),
    ];
    let v = OptimizeService::new().volumes(&mounted);
    assert_eq!(v.len(), 1);
    assert_eq!(v[0].mount, "/");
}
