use sweep::domain::models::{AppUsage, UsageSource};
use sweep::domain::traits::UsageProbe;
use sweep::usage::{
    exe_from_pf_name, exe_name_from_path, filetime_to_unix, merge_results, parse_count_blob, rot13, PrefetchProbe, UsageMap,
    UsageService, UserAssistProbe, FT_TO_UNIX_SECS, RUNTIME_OFFSET,
};
use std::time::{SystemTime, UNIX_EPOCH};

#[test]
fn rot13_roundtrip() {
    let original = r"C:\Users\test\AppData\Local\App.EXE";
    assert_eq!(rot13(&rot13(original)), original);
    assert_eq!(rot13("CHROME.EXE"), "PUEBZR.RKR");
}

#[test]
fn parses_blob_with_known_filetime() {
    let ft: i64 = 133_500_000_000_000_000;
    let mut blob = vec![0u8; 72];
    blob[0..4].copy_from_slice(&42u32.to_le_bytes());
    blob[RUNTIME_OFFSET..RUNTIME_OFFSET + 8].copy_from_slice(&ft.to_le_bytes());
    let (count, ts) = parse_count_blob(&blob).unwrap();
    assert_eq!(count, 42);
    assert_eq!(ts, filetime_to_unix(ft));
    assert_eq!(ts, 1_705_526_400);
}

#[test]
fn rejects_short_or_empty_blobs() {
    assert!(parse_count_blob(&[]).is_none());
    assert!(parse_count_blob(&vec![0u8; 16]).is_none());
    let mut zeroed = vec![0u8; 72];
    assert!(parse_count_blob(&zeroed).is_none());
    zeroed[RUNTIME_OFFSET] = 1;
    assert!(parse_count_blob(&zeroed).is_some());
}

#[test]
fn extracts_exe_names_from_decoded_paths() {
    assert_eq!(
        exe_name_from_path(r"C:\Program Files\Git\git-bash.exe"),
        Some("git-bash.exe".to_string())
    );
    assert_eq!(exe_name_from_path(r"C:\docs\readme.txt"), None);
    assert_eq!(exe_name_from_path("not-a-path"), None);
}

#[test]
fn filetime_epoch_is_sane() {
    let now_unix = SystemTime::now().duration_since(UNIX_EPOCH).unwrap().as_secs() as i64;
    let now_ft = (now_unix + FT_TO_UNIX_SECS) * 10_000_000;
    assert!((filetime_to_unix(now_ft) - now_unix).abs() <= 1);
}

#[test]
fn filetime_before_the_epoch_truncates_toward_zero() {
    assert_eq!(filetime_to_unix(-15_000_000), -1 - FT_TO_UNIX_SECS);
    assert_eq!(filetime_to_unix(i64::MIN), i64::MIN / 10_000_000 - FT_TO_UNIX_SECS);
}

#[test]
fn extracts_exe_from_pf_names() {
    assert_eq!(exe_from_pf_name("CHROME.EXE-ABCDEF12.pf"), Some("chrome.exe".to_string()));
    assert_eq!(exe_from_pf_name("CODE.EXE-DEADBEEF.pf"), Some("code.exe".to_string()));
    assert_eq!(exe_from_pf_name("notapffile.txt"), None);
    assert_eq!(exe_from_pf_name(".pf"), None);
}

#[test]
fn probes_turn_raw_values_into_usage_records() {
    let ua = UserAssistProbe::new();
    let mut blob = vec![0u8; 72];
    blob[0..4].copy_from_slice(&3u32.to_le_bytes());
    blob[RUNTIME_OFFSET..RUNTIME_OFFSET + 8].copy_from_slice(&133_500_000_000_000_000i64.to_le_bytes());
    let values = vec![
        (rot13(r"C:\Apps\Tool.EXE"), blob.clone()),
        (rot13(r"C:\docs\a.txt"), blob.clone()),
        (rot13(r"C:\Apps\Empty.exe"), vec![]),
    ];
    let got = ua.usages_from_values(&values);
    assert_eq!(got.len(), 1);
    assert_eq!(got[0].exe_name, "tool.exe");
    assert_eq!(got[0].run_count, 3);
    assert_eq!(got[0].last_run_unix, 1_705_526_400);
    assert_eq!(got[0].source, UsageSource::UserAssist);

    let pf = PrefetchProbe::new();
    assert_eq!(pf.dir, "C:\\Windows\\Prefetch");
    let entries = vec![
        ("CHROME.EXE-1.pf".to_string(), Some(55)),
        ("CODE.EXE-2.pf".to_string(), None),
        ("x.txt".to_string(), Some(1)),
    ];
    let got = pf.usages_from_entries(&entries);
    assert_eq!(got.len(), 1);
    assert_eq!(got[0].exe_name, "chrome.exe");
    assert_eq!(got[0].last_run_unix, 55);
    assert_eq!(got[0].run_count, 0);
}

struct FixedProbe {
    entries: Vec<AppUsage>,
}

impl UsageProbe for FixedProbe {
    fn probe(&self) -> Result<Vec<AppUsage>, String> {
        Ok(self.entries.clone())
    }
}

fn usage(name: &str, ts: i64, count: u64, src: UsageSource) -> AppUsage {
    AppUsage { exe_name: name.to_string(), last_run_unix: ts, run_count: count, source: src }
}

#[test]
fn merges_taking_latest_time_and_max_count() {
    let svc = UsageService::new(vec![
        Box::new(FixedProbe { entries: vec![usage("chrome.exe", 1000, 0, UsageSource::Prefetch)] }),
        Box::new(FixedProbe {
            entries: vec![
                usage("chrome.exe", 2000, 55, UsageSource::UserAssist),
                usage("code.exe", 500, 3, UsageSource::UserAssist),
            ],
        }),
        Box::new(FixedProbe { entries: vec![usage("broken", 1, 1, UsageSource::Prefetch)] }),
    ]);
    let map = svc.collect_map();

    assert_eq!(map.len(), 3);
    let chrome = map.get("chrome.exe").unwrap();
    assert_eq!(chrome.last_run_unix, 2000);
    assert_eq!(chrome.run_count, 55);
    assert_eq!(chrome.source, UsageSource::UserAssist);
    assert_eq!(map.get("broken").unwrap().last_run_unix, 1);

    assert!(svc.lookup(&map, "CODE.EXE").is_some());
    assert!(svc.lookup(&map, "missing.exe").is_none());
}

#[test]
fn empty_and_failing_probes_are_tolerated() {
    struct FailingProbe;
    impl UsageProbe for FailingProbe {
        fn probe(&self) -> Result<Vec<AppUsage>, String> {
            Err("no access".to_string())
        }
    }
    let svc = UsageService::new(vec![Box::new(FailingProbe), Box::new(FixedProbe { entries: vec![] })]);
    assert_eq!(svc.collect_map().len(), 0);
}

#[test]
fn an_older_record_keeps_the_newer_time_but_raises_the_count() {
    let mut map = UsageMap::new();
    map.merge(usage("a.exe", 50, 1, UsageSource::UserAssist));
    map.merge(usage("a.exe", 10, 9, UsageSource::Prefetch));
    let a = map.get("a.exe").unwrap();
    assert_eq!(a.last_run_unix, 50);
    assert_eq!(a.run_count, 9);
    assert_eq!(a.source, UsageSource::UserAssist);
    assert_eq!(map.values().len(), 1);
}

#[test]
fn merge_results_skips_failed_probes_and_keeps_latest_run() {
    let results = vec![
        Ok(vec![usage("chrome.exe", 1000, 3, UsageSource::Prefetch), usage("code.exe", 50, 1, UsageSource::Prefetch)]),
        Err("registry unavailable".to_string()),
        Ok(vec![usage("chrome.exe", 2000, 2, UsageSource::UserAssist)]),
    ];
    let map = merge_results(results);
    assert_eq!(map.len(), 2);
    let chrome = map.get("chrome.exe").unwrap();
    assert_eq!(chrome.last_run_unix, 2000);
    assert_eq!(chrome.run_count, 3);
    assert_eq!(chrome.source, UsageSource::UserAssist);
    assert_eq!(map.get("code.exe").unwrap().last_run_unix, 50);
}
