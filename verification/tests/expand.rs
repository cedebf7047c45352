use sweep::domain::models::{RiskLevel, RulePackCategory};
use sweep::exclusion::rule_packs_to_categories;
use sweep::expand::{expand_env, expand_pack_roots};

fn vars(pairs: &[(&str, &str)]) -> Vec<(String, String)> {
    pairs.iter().map(|(k, v)| (k.to_string(), v.to_string())).collect()
}

#[test]
fn expand_env_substitutes_known_vars_and_keeps_unknown() {
    let env = vars(&[("SWEEP_TEST_ROOT", "/opt/base")]);
    assert_eq!(expand_env("$SWEEP_TEST_ROOT/cache", &env), "/opt/base/cache");
    assert_eq!(expand_env("%SWEEP_TEST_ROOT%/cache", &env), "/opt/base/cache");
    assert_eq!(expand_env("%SWEEP_NOT_SET_VAR%/x", &env), "%SWEEP_NOT_SET_VAR%/x");
}

#[test]
fn expansion_edge_cases() {
    let env = vars(&[("A", "1"), ("A_B", "2"), ("A", "shadowed")]);
    assert_eq!(expand_env("$A_B/$A", &env), "2/1");
    assert_eq!(expand_env("$A-x", &env), "1-x");
    assert_eq!(expand_env("100%", &env), "100%");
    assert_eq!(expand_env("$", &env), "$");
    assert_eq!(expand_env("$/x", &env), "$/x");
    assert_eq!(expand_env("%%", &env), "%%");
    assert_eq!(expand_env("%A%%A%", &env), "11");
    assert_eq!(expand_env("$UNSET_X/y", &env), "$UNSET_X/y");
    assert_eq!(expand_env("", &env), "");
}

#[test]
fn without_variables_text_is_unchanged() {
    let none: Vec<(String, String)> = Vec::new();
    for s in ["$HOME/x", "%APPDATA%\\y", "plain/path", "50% of $", "a$b%c%d"] {
        assert_eq!(expand_env(s, &none), s);
    }
}

#[test]
fn pack_roots_are_expanded_and_limited_to_existing() {
    let env = vars(&[("BASE", "/opt")]);
    let packs = vec![RulePackCategory {
        id: "p".into(),
        roots: vec!["$BASE/a".into(), "$BASE/b".into(), "/c".into()],
        risk: RiskLevel::Safe,
        cleanup_command: Some("x".into()),
    }];
    let out = expand_pack_roots(&packs, &env, |p: &str| p == "/opt/b" || p == "/c");
    assert_eq!(out.len(), 1);
    assert_eq!(out[0].id, "p");
    assert_eq!(out[0].roots, vec!["/opt/b".to_string(), "/c".to_string()]);
    assert_eq!(out[0].cleanup_command.as_deref(), Some("x"));
}

#[test]
fn rule_pack_with_no_existing_root_is_dropped() {
    let pack = RulePackCategory {
        id: "ghost".into(),
        roots: vec!["/definitely/not/here/xyz".into()],
        risk: RiskLevel::Safe,
        cleanup_command: None,
    };
    let expanded = expand_pack_roots(&[pack], &Vec::new(), |_p: &str| false);
    assert!(rule_packs_to_categories(&expanded, &[], false).is_empty());
}

#[test]
fn system_rule_packs_are_hidden_unless_deep() {
    let pack = RulePackCategory {
        id: "sys".into(),
        roots: vec!["/tmp".into()],
        risk: RiskLevel::System,
        cleanup_command: None,
    };
    let expanded = expand_pack_roots(&[pack], &Vec::new(), |p: &str| p == "/tmp");
    assert!(rule_packs_to_categories(&expanded, &[], false).is_empty());
    assert_eq!(rule_packs_to_categories(&expanded, &[], true).len(), 1);
}

#[test]
fn rule_pack_colliding_with_builtin_is_skipped() {
    let builtin = vec![sweep::domain::models::CleanCategory {
        id: "user-temp".into(),
        title: "user-temp".into(),
        roots: vec!["C:\\temp".into()],
        risk: RiskLevel::Safe,
        cleanup_command: None,
        reclaimable: true,
    }];
    let pack = RulePackCategory {
        id: "user-temp".into(),
        roots: vec!["/tmp".into()],
        risk: RiskLevel::Safe,
        cleanup_command: None,
    };
    let expanded = expand_pack_roots(&[pack], &Vec::new(), |_p: &str| true);
    assert!(rule_packs_to_categories(&expanded, &builtin, false).is_empty());
}
