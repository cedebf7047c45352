use sweep::apps::AppService;
use sweep::domain::models::{AppUsage, InstalledApp, UsageSource};
use sweep::domain::traits::AppInventory;
use sweep::usage::UsageMap;

struct MockInventory {
    apps: Vec<InstalledApp>,
}

impl AppInventory for MockInventory {
    fn installed_apps(&self) -> Result<Vec<InstalledApp>, String> {
        Ok(self.apps.clone())
    }
}

fn app(name: &str, version: &str, size: u64) -> InstalledApp {
    InstalledApp {
        name: name.to_string(),
        version: version.to_string(),
        publisher: String::new(),
        install_location: None,
        uninstall_command: None,
        size_bytes: Some(size),
        last_run_unix: None,
    }
}

fn usage(exe: &str, ts: i64) -> AppUsage {
    AppUsage { exe_name: exe.to_string(), last_run_unix: ts, run_count: 1, source: UsageSource::UserAssist }
}

fn service(apps: Vec<InstalledApp>) -> AppService<MockInventory> {
    AppService::new(MockInventory { apps })
}

#[test]
fn attaches_usage_via_first_word_heuristic() {
    let mut apps = vec![app("Google Chrome", "120", 500), app("Totally Unknown", "1", 10)];
    let mut map = UsageMap::new();
    map.merge(usage("chrome.exe", 1_700_000_000));
    service(vec![]).attach_usage(&mut apps, &map);

    assert_eq!(apps[0].last_run_unix, Some(1_700_000_000));
    assert_eq!(apps[1].last_run_unix, None);
}

#[test]
fn unused_filter_keeps_unknown_and_old_only() {
    let now = 2_000_000_000i64;
    let mut recent = app("Recent App", "1", 1);
    recent.last_run_unix = Some(now - 3600);
    let mut old = app("Old App", "1", 1);
    old.last_run_unix = Some(now - 40 * 86400);
    let unknown = app("Mystery App", "1", 1);

    let kept = service(vec![]).filter_unused_since(vec![recent, old, unknown], 30, now);
    let names: Vec<&str> = kept.iter().map(|a| a.name.as_str()).collect();
    assert_eq!(names, vec!["Old App", "Mystery App"]);
}

#[test]
fn find_matches_case_insensitive_substring() {
    let apps = vec![app("7-Zip 24.0", "24", 1), app("zipper tool", "1", 1)];
    let hits = service(vec![]).find(&apps, "7-zip");
    assert_eq!(hits.len(), 1);
    assert_eq!(hits[0].name, "7-Zip 24.0");
}

#[test]
fn the_latest_run_over_all_name_words_wins() {
    let mut apps = vec![app("Visual Studio Code", "1", 1), app("Go", "1", 1)];
    let mut map = UsageMap::new();
    map.merge(usage("code.exe", 10));
    map.merge(usage("vscode-studio.exe", 30));
    map.merge(usage("go.exe", 99));
    service(vec![]).attach_usage(&mut apps, &map);
    assert_eq!(apps[0].last_run_unix, Some(30));
    // "Go" is shorter than three bytes, so it is never matched.
    assert_eq!(apps[1].last_run_unix, None);
    assert_eq!(service(vec![app("x", "1", 1)]).list().unwrap().len(), 1);
}
