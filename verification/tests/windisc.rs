use std::collections::BTreeSet;

use sweep::domain::categories::lookup;
use sweep::domain::models::CleanCategory;
use sweep::windisc::{chromium_browsers, chromium_caches, chromium_categories, windows_categories};

/// A small in-memory Windows file tree.
struct Tree {
    dirs: BTreeSet<String>,
    files: BTreeSet<String>,
}

impl Tree {
    fn new(root: &str) -> Tree {
        let mut t = Tree { dirs: BTreeSet::new(), files: BTreeSet::new() };
        t.dirs.insert(root.to_string());
        t
    }

    fn mkdirs(&mut self, base: &str, rel: &str) {
        let mut p = base.to_string();
        for part in rel.split('/') {
            p = format!("{p}\\{part}");
            self.dirs.insert(p.clone());
        }
    }

    fn touch(&mut self, base: &str, rel: &str) {
        let rel = rel.replace('/', "\\");
        let full = format!("{base}\\{rel}");
        let parent = full.rsplit_once('\\').unwrap().0.to_string();
        self.mkdirs(base, &parent[base.len() + 1..].replace('\\', "/"));
        self.files.insert(full);
    }

    fn is_dir(&self, p: &str) -> bool {
        self.dirs.contains(p)
    }

    fn is_file(&self, p: &str) -> bool {
        self.files.contains(p)
    }

    fn present(&self, p: &str) -> bool {
        self.is_dir(p) || self.is_file(p)
    }

    fn list(&self, d: &str) -> Vec<String> {
        let prefix = format!("{d}\\");
        self.dirs
            .iter()
            .chain(self.files.iter())
            .filter(|p| p.starts_with(&prefix) && !p[prefix.len()..].contains('\\'))
            .cloned()
            .collect()
    }
}

const LAD: &str = "C:\\Users\\me\\AppData\\Local";

fn browsers(t: &Tree) -> Vec<CleanCategory> {
    chromium_categories(LAD, &|p: &str| t.is_dir(p), &|p: &str| t.is_file(p), &|p: &str| t.list(p))
}

fn roots_of(cats: &[CleanCategory], id: &str) -> Vec<String> {
    cats.iter().find(|c| c.id == id).map(|c| c.roots.clone()).unwrap_or_default()
}

#[test]
fn chrome_covers_every_profile() {
    let mut t = Tree::new(LAD);
    let ud = "Google/Chrome/User Data";
    for p in ["Default", "Profile 1"] {
        t.mkdirs(LAD, &format!("{ud}/{p}/Cache/Cache_Data"));
        t.mkdirs(LAD, &format!("{ud}/{p}/Code Cache"));
        t.touch(LAD, &format!("{ud}/{p}/Preferences"));
    }
    t.mkdirs(LAD, &format!("{ud}/ShaderCache/GPUCache"));
    t.mkdirs(LAD, &format!("{ud}/GPUPersistentCache/GPUCache"));

    let cats = browsers(&t);
    let user_data = format!("{LAD}\\Google\\Chrome\\User Data");
    assert_eq!(
        roots_of(&cats, "chrome-cache"),
        vec![format!("{user_data}\\Default\\Cache"), format!("{user_data}\\Profile 1\\Cache")]
    );
    assert_eq!(roots_of(&cats, "chrome-code-cache").len(), 2);
    assert!(roots_of(&cats, "chrome-gpu").is_empty());
}

#[test]
fn profile_without_a_cache_kind_adds_no_empty_root() {
    let mut t = Tree::new(LAD);
    let ud = "Microsoft/Edge/User Data";
    t.mkdirs(LAD, &format!("{ud}/Default/Cache"));
    t.mkdirs(LAD, &format!("{ud}/Default/GPUCache"));
    t.mkdirs(LAD, &format!("{ud}/Profile 2/Cache"));
    let cats = browsers(&t);
    assert_eq!(roots_of(&cats, "edge-cache").len(), 2);
    assert_eq!(roots_of(&cats, "edge-gpu").len(), 1);
    assert!(cats.iter().all(|c| c.id != "edge-code-cache"));
}

#[test]
fn opera_split_layout_is_found_without_preferences() {
    let mut t = Tree::new(LAD);
    t.mkdirs(LAD, "Opera Software/Opera Stable/Default/Cache/Cache_Data");
    let cats = browsers(&t);
    assert_eq!(roots_of(&cats, "opera-cache"), vec![format!("{LAD}\\Opera Software\\Opera Stable\\Default\\Cache")]);
}

#[test]
fn flat_layout_counts_the_user_data_dir_itself() {
    let mut t = Tree::new(LAD);
    t.mkdirs(LAD, "Opera Software/Opera GX Stable/Cache");
    let cats = browsers(&t);
    assert_eq!(roots_of(&cats, "opera-gx-cache"), vec![format!("{LAD}\\Opera Software\\Opera GX Stable\\Cache")]);
}

#[test]
fn no_browsers_installed_means_no_browser_categories() {
    let t = Tree::new(LAD);
    assert!(browsers(&t).is_empty());
}

#[test]
fn every_browser_category_id_is_registered() {
    for (browser, _) in chromium_browsers() {
        for (suffix, _) in chromium_caches() {
            let id = format!("{browser}-{suffix}");
            assert!(lookup(&id).is_some(), "{id} is not in the registry");
        }
    }
}

#[test]
fn deep_discovery_never_offers_report_only_or_system32_categories() {
    let mut t = Tree::new(LAD);
    t.mkdirs(LAD, "Google/Chrome/User Data/Default/Cache");
    t.mkdirs(LAD, "npm-cache");
    t.mkdirs(LAD, "Microsoft/Windows/DeliveryOptimization");
    t.mkdirs("C:\\ProgramData", "Microsoft/Windows/SoftwareDistribution/Download");
    let cats = windows_categories(
        Some(LAD),
        Some("C:\\ProgramData"),
        true,
        Vec::new(),
        &|p: &str| t.present(p),
        &|p: &str| t.is_dir(p),
        &|p: &str| t.is_file(p),
        &|p: &str| t.list(p),
    );
    let system32 = "c:\\windows\\system32";
    for cat in &cats {
        let entry = lookup(&cat.id).unwrap_or_else(|| panic!("category '{}' is not in the registry", cat.id));
        assert_eq!(cat.reclaimable, entry.reclaimable, "{}", cat.id);
        assert!(cat.reclaimable, "clean discovered report-only category '{}'", cat.id);
        assert_ne!(cat.id, "driver-store");
        for root in &cat.roots {
            assert!(!root.to_lowercase().starts_with(system32), "{} root {} is under System32", cat.id, root);
        }
    }
    let ids: Vec<&str> = cats.iter().map(|c| c.id.as_str()).collect();
    assert_eq!(ids, vec!["user-temp", "crash-dumps", "chrome-cache", "npm-cache", "wu-downloads", "do-cache"]);
}

#[test]
fn windows_discovery_without_local_app_data_finds_nothing_and_keeps_dev_first() {
    let t = Tree::new(LAD);
    let none = windows_categories(
        None,
        None,
        true,
        Vec::new(),
        &|p: &str| t.present(p),
        &|p: &str| t.is_dir(p),
        &|p: &str| t.is_file(p),
        &|p: &str| t.list(p),
    );
    assert!(none.is_empty());
    let dev = sweep::domain::categories::category("dev-cargo", vec!["C:\\Users\\me\\.cargo\\registry\\cache".into()]);
    let shallow = windows_categories(
        Some(LAD),
        Some("C:\\ProgramData"),
        false,
        vec![dev],
        &|_p: &str| true,
        &|p: &str| t.is_dir(p),
        &|p: &str| t.is_file(p),
        &|p: &str| t.list(p),
    );
    let ids: Vec<&str> = shallow.iter().map(|c| c.id.as_str()).collect();
    assert_eq!(ids, vec!["dev-cargo", "user-temp", "crash-dumps", "npm-cache", "pip-cache"]);
    assert_eq!(shallow[1].roots, vec![format!("{LAD}\\Temp")]);
}
