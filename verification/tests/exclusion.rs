use sweep::domain::models::{CleanCategory, ExclusionConfig, RiskLevel, RulePackCategory};
use sweep::exclusion::{apply_exclusions, glob_match, is_path_excluded, load_policy_with_rules, rule_packs_to_categories};

fn cat(id: &str, roots: &[&str]) -> CleanCategory {
    CleanCategory {
        id: id.into(),
        title: id.into(),
        roots: roots.iter().map(|r| r.to_string()).collect(),
        risk: RiskLevel::Safe,
        cleanup_command: None,
        reclaimable: true,
    }
}

#[test]
fn empty_exclusion_keeps_all() {
    let cats = vec![cat("a", &["C:\\a"])];
    let (kept, n) = apply_exclusions(&cats, &ExclusionConfig::default());
    assert_eq!(kept.len(), 1);
    assert_eq!(n, 0);
}

#[test]
fn excludes_by_category_id() {
    let cats = vec![cat("dev-pnpm", &["C:\\pnpm"])];
    let excl = ExclusionConfig { category_ids: vec!["dev-pnpm".into()], ..Default::default() };
    let (kept, n) = apply_exclusions(&cats, &excl);
    assert_eq!(kept.len(), 0);
    assert_eq!(n, 1);
}

#[test]
fn excludes_by_path_prefix() {
    let cats = vec![cat("user-temp", &["C:\\Users\\me\\AppData\\Local\\Temp"])];
    let excl = ExclusionConfig {
        paths: vec!["C:\\Users\\me\\AppData\\Local\\Temp".to_string()],
        ..Default::default()
    };
    let (kept, n) = apply_exclusions(&cats, &excl);
    assert_eq!(kept.len(), 0);
    assert_eq!(n, 1);
}

#[test]
fn glob_star_matches_nested_node_modules() {
    assert!(glob_match("**/node_modules/**", "C:\\proj\\node_modules\\x"));
    assert!(glob_match("**/node_modules", "C:\\proj\\node_modules"));
    assert!(!glob_match("**/node_modules/**", "C:\\proj\\src\\x"));
}

#[test]
fn glob_matching_is_case_insensitive() {
    assert!(glob_match("**/Node_Modules/**", r"C:\proj\node_modules\x"));
    assert!(glob_match("**/.Cache/**", "/home/me/.CACHE/thing"));
    assert!(!glob_match("**/cache/**", "/home/me/.CACHE/thing"));
}

#[test]
fn exclusion_service_is_path_excluded_matches_prefix_and_glob() {
    let excl = ExclusionConfig {
        paths: vec!["/games".to_string()],
        globs: vec!["**/node_modules/**".into()],
        ..Default::default()
    };
    assert!(is_path_excluded("/games/cache", &excl));
    assert!(is_path_excluded("/proj/node_modules/x", &excl));
    assert!(!is_path_excluded("/proj/src", &excl));
}

#[test]
fn empty_config_excludes_nothing() {
    let excl = ExclusionConfig::default();
    assert!(!is_path_excluded("/anything", &excl));
    assert!(!is_path_excluded(r"C:\anything", &excl));
}

#[test]
fn packs_are_hidden_unless_deep_and_never_shadow_a_builtin() {
    let sys = RulePackCategory {
        id: "sys".into(),
        roots: vec!["/tmp".into()],
        risk: RiskLevel::System,
        cleanup_command: None,
    };
    assert!(rule_packs_to_categories(&[sys.clone()], &[], false).is_empty());
    assert_eq!(rule_packs_to_categories(&[sys], &[], true).len(), 1);
    let builtin = vec![cat("user-temp", &[r"C:\temp"])];
    let clash = RulePackCategory {
        id: "user-temp".into(),
        roots: vec!["/tmp".into()],
        risk: RiskLevel::Safe,
        cleanup_command: None,
    };
    assert!(rule_packs_to_categories(&[clash], &builtin, false).is_empty());
}

#[test]
fn extra_rule_packs_come_after_the_config_ones() {
    let pack = |id: &str| RulePackCategory { id: id.into(), roots: vec!["/tmp".into()], risk: RiskLevel::Safe, cleanup_command: None };
    let excl = ExclusionConfig { paths: vec!["/keep".into()], category_ids: vec![], globs: vec![] };
    let (e, packs) = load_policy_with_rules(excl.clone(), vec![pack("a"), pack("b")], Some(vec![pack("c")]));
    assert_eq!(e.paths, vec!["/keep".to_string()]);
    let ids: Vec<String> = packs.iter().map(|p| p.id.clone()).collect();
    assert_eq!(ids, vec!["a", "b", "c"]);
    let (_, only) = load_policy_with_rules(excl, vec![pack("a")], None);
    assert_eq!(only.len(), 1);
}
