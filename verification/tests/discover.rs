use std::collections::HashSet;

use sweep::discover::{build_categories, discover_categories, discover_dev_categories};

fn fs_of(paths: &[&str]) -> HashSet<String> {
    paths.iter().map(|p| p.to_string()).collect()
}

fn no_listing(_dir: &str) -> Vec<String> {
    Vec::new()
}

#[test]
fn builds_only_existing_categories() {
    let fs = fs_of(&[
        "/tmp/base/google-chrome",
        "/tmp/base/mozilla/firefox",
        "/tmp/base/mozilla/firefox/abc.default/cache2",
        "/tmp/base/pip",
    ]);
    let cats = build_categories(
        "/tmp/base",
        None,
        |p: &str| fs.contains(p),
        |d: &str| {
            if d == "/tmp/base/mozilla/firefox" {
                vec!["/tmp/base/mozilla/firefox/abc.default".to_string()]
            } else {
                Vec::new()
            }
        },
    );
    let ids: Vec<&str> = cats.iter().map(|c| c.id.as_str()).collect();
    assert!(ids.contains(&"chrome-cache"));
    assert!(ids.contains(&"firefox-cache"));
    assert!(ids.contains(&"pip-cache"));
    assert!(!ids.contains(&"chromium-cache"));

    let ff = cats.iter().find(|c| c.id == "firefox-cache").unwrap();
    assert_eq!(ff.roots.len(), 1);
    assert!(ff.roots[0].ends_with("abc.default/cache2"));
}

#[test]
fn xdg_categories_keep_probe_order_and_registry_titles() {
    let fs = fs_of(&["/c/google-chrome", "/c/fontconfig", "/h/.npm/_cacache"]);
    let cats = build_categories("/c", Some("/h"), |p: &str| fs.contains(p), no_listing);
    let ids: Vec<&str> = cats.iter().map(|c| c.id.as_str()).collect();
    assert_eq!(ids, vec!["chrome-cache", "fontconfig", "npm-cache"]);
    assert_eq!(cats[0].title, "Google Chrome cache");
    assert_eq!(cats[2].roots, vec!["/h/.npm/_cacache".to_string()]);
    assert!(cats.iter().all(|c| c.cleanup_command.is_none()));
}

#[test]
fn cache_home_comes_from_xdg_then_home() {
    let fs = fs_of(&["/x/pip", "/h/.cache/pip"]);
    let from_xdg = discover_categories(Some("/x"), Some("/h"), |p: &str| fs.contains(p), no_listing);
    assert_eq!(from_xdg[0].roots, vec!["/x/pip".to_string()]);
    let from_home = discover_categories(None, Some("/h"), |p: &str| fs.contains(p), no_listing);
    assert_eq!(from_home[0].roots, vec!["/h/.cache/pip".to_string()]);
    let nowhere = discover_categories(None, None, |_p: &str| true, no_listing);
    assert!(nowhere.is_empty());
}

#[test]
fn discover_dev_categories_returns_only_existing() {
    let fs = fs_of(&["/home/u/.local/share/uv", "/home/u/.cargo/git/checkouts", "/home/u/.gradle/caches"]);
    let caches = discover_dev_categories(Some("/home/u"), None, None, None, |p: &str| fs.contains(p));
    assert!(!caches.is_empty());
    for cat in &caches {
        assert!(!cat.id.is_empty());
        assert!(!cat.title.is_empty());
        for root in &cat.roots {
            assert!(fs.contains(root.as_str()), "root {} does not exist for category {}", root, cat.id);
        }
    }
}

#[test]
fn discover_dev_categories_skips_missing_roots() {
    let fs = fs_of(&["/tmp/missing/.local/share/pnpm/store"]);
    let cats = discover_dev_categories(Some("/tmp/missing"), None, None, None, |p: &str| fs.contains(p));
    assert!(cats.iter().any(|c| c.id == "dev-pnpm"));
    assert!(
        cats.iter().all(|c| c.id != "dev-cargo" && c.id != "dev-gradle"),
        "missing cargo/gradle roots must not produce categories"
    );
}

#[test]
fn relocation_env_vars_win_over_the_profile_default() {
    let fs = fs_of(&["/d/cargo-reloc/registry/cache", "/d/gradle-reloc/caches"]);
    let cats = discover_dev_categories(
        Some("/d/empty-home"),
        None,
        Some("/d/cargo-reloc"),
        Some("/d/gradle-reloc"),
        |p: &str| fs.contains(p),
    );
    let cargo = cats.iter().find(|c| c.id == "dev-cargo").expect("dev-cargo present");
    assert_eq!(cargo.roots, vec!["/d/cargo-reloc/registry/cache".to_string()]);
    let gradle = cats.iter().find(|c| c.id == "dev-gradle").expect("dev-gradle present");
    assert_eq!(gradle.roots, vec!["/d/gradle-reloc/caches".to_string()]);
}

#[test]
fn empty_relocation_env_var_falls_back_to_the_profile() {
    let fs = fs_of(&["/d/.cargo/registry/cache"]);
    let cats = discover_dev_categories(Some("/d"), None, Some(""), None, |p: &str| fs.contains(p));
    let cargo = cats.iter().find(|c| c.id == "dev-cargo").expect("dev-cargo present");
    assert_eq!(cargo.roots, vec!["/d/.cargo/registry/cache".to_string()]);
}

#[test]
fn pnpm_store_is_pruned_and_found_once() {
    let fs = fs_of(&["/h/.local/share/pnpm/store", "/p/store"]);
    let cats = discover_dev_categories(Some("/h"), Some("/p"), None, None, |p: &str| fs.contains(p));
    let pnpm: Vec<_> = cats.iter().filter(|c| c.id == "dev-pnpm").collect();
    assert_eq!(pnpm.len(), 1);
    assert_eq!(pnpm[0].roots, vec!["/h/.local/share/pnpm/store".to_string()]);
    assert_eq!(pnpm[0].cleanup_command.as_deref(), Some("pnpm store prune"));

    let only_pnpm_home = fs_of(&["/p/store"]);
    let cats = discover_dev_categories(Some("/h"), Some("/p"), None, None, |p: &str| only_pnpm_home.contains(p));
    let pnpm = cats.iter().find(|c| c.id == "dev-pnpm").unwrap();
    assert_eq!(pnpm.roots, vec!["/p/store".to_string()]);
}

#[test]
fn no_home_means_no_home_caches() {
    let cats = discover_dev_categories(None, Some("/p"), None, None, |_p: &str| true);
    assert!(cats.iter().all(|c| c.id != "dev-pnpm" && c.id != "dev-uv" && c.id != "dev-pipx"));
    assert!(cats.iter().all(|c| c.id != "dev-cargo" && c.id != "dev-gradle"));
}

#[test]
fn cargo_keeps_both_roots_in_order() {
    let fs = fs_of(&["/h/.cargo/registry/cache", "/h/.cargo/git/checkouts"]);
    let cats = discover_dev_categories(Some("/h"), None, None, None, |p: &str| fs.contains(p));
    let cargo = cats.iter().find(|c| c.id == "dev-cargo").unwrap();
    assert_eq!(
        cargo.roots,
        vec!["/h/.cargo/registry/cache".to_string(), "/h/.cargo/git/checkouts".to_string()]
    );
}
