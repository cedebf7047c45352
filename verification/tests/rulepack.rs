use sweep::domain::models::{RiskLevel, RulePackCategory};
use sweep::rulepack::{parse_risk, validate_rule_packs, RulePackEntry};

fn entry(id: &str, roots: &[&str], risk: &str) -> RulePackEntry {
    RulePackEntry {
        id: id.to_string(),
        roots: roots.iter().map(|r| r.to_string()).collect(),
        risk: risk.to_string(),
        cleanup_command: None,
    }
}

fn validate(entries: Vec<RulePackEntry>) -> Vec<RulePackCategory> {
    validate_rule_packs(&entries)
}

#[test]
fn parses_a_valid_category() {
    let packs = validate(vec![entry("myapp-cache", &["C:/Users/me/AppData/Local/MyApp/Cache"], "Safe")]);
    assert_eq!(packs.len(), 1);
    assert_eq!(packs[0].id, "myapp-cache");
    assert_eq!(packs[0].risk, RiskLevel::Safe);
    assert_eq!(packs[0].roots.len(), 1);
}

#[test]
fn system_risk_is_preserved() {
    let packs = validate(vec![entry("sys-thing", &["/tmp/x"], "System")]);
    assert_eq!(packs[0].risk, RiskLevel::System);
}

#[test]
fn unknown_risk_defaults_to_safe() {
    let packs = validate(vec![entry("weird", &["/tmp/x"], "Dangerous")]);
    assert_eq!(packs.len(), 1);
    assert_eq!(packs[0].risk, RiskLevel::Safe);
}

#[test]
fn empty_id_is_skipped() {
    let packs = validate(vec![entry("  ", &["/tmp/x"], "Safe")]);
    assert!(packs.is_empty());
}

#[test]
fn duplicate_ids_are_skipped() {
    let packs = validate(vec![entry("dup", &["/tmp/a"], "Safe"), entry("dup", &["/tmp/b"], "Safe")]);
    assert_eq!(packs.len(), 1);
    assert_eq!(packs[0].roots, vec!["/tmp/a".to_string()]);
}

#[test]
fn risk_names_are_case_insensitive_ascii() {
    assert_eq!(parse_risk("SYSTEM"), RiskLevel::System);
    assert_eq!(parse_risk("sYsTeM"), RiskLevel::System);
    assert_eq!(parse_risk("safe"), RiskLevel::Safe);
    assert_eq!(parse_risk("system "), RiskLevel::Safe);
    assert_eq!(parse_risk(""), RiskLevel::Safe);
}

#[test]
fn validation_keeps_order_fields_and_first_of_each_id() {
    let mut with_cmd = entry("b", &["/b1", "/b2"], "system");
    with_cmd.cleanup_command = Some("tool prune".to_string());
    let packs = validate(vec![
        entry("a", &["/a"], "Safe"),
        entry("", &["/x"], "Safe"),
        with_cmd,
        entry("a", &["/a2"], "System"),
        entry("\t c \n", &["/c"], "Safe"),
    ]);
    let ids: Vec<&str> = packs.iter().map(|p| p.id.as_str()).collect();
    assert_eq!(ids, vec!["a", "b", "\t c \n"]);
    assert_eq!(packs[1].roots, vec!["/b1".to_string(), "/b2".to_string()]);
    assert_eq!(packs[1].risk, RiskLevel::System);
    assert_eq!(packs[1].cleanup_command.as_deref(), Some("tool prune"));
    assert_eq!(packs[0].risk, RiskLevel::Safe);
}
