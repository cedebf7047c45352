use sweep::domain::categories::{category, lookup, registry};
use sweep::domain::models::RiskLevel;

/// Each hint, the token its own store's tool must contain, and the tokens
/// that belong to some *other* store.
const HINT_TARGETS: &[(&str, &str, &[&str])] = &[
    ("winsxs", "dism", &["pnputil", "pnpm store prune", "sweep index"]),
    ("driver-store", "pnputil", &["dism", "pnpm store prune", "sweep index"]),
    ("dev-pnpm", "pnpm store prune", &["dism", "pnputil", "sweep index"]),
    ("index", "sweep index --compact", &["dism", "pnputil", "pnpm store prune"]),
];

#[test]
fn registry_ids_are_unique() {
    let reg = registry();
    for (i, d) in reg.iter().enumerate() {
        assert!(
            reg[i + 1..].iter().all(|o| o.id != d.id),
            "duplicate registry id {}",
            d.id
        );
    }
}

#[test]
fn driver_store_is_report_only() {
    let d = lookup("driver-store").unwrap();
    assert!(!d.reclaimable);
    assert_eq!(d.risk, RiskLevel::System);
}

#[test]
fn every_hint_names_a_command_for_its_own_category() {
    for (id, required, forbidden) in HINT_TARGETS {
        let d = lookup(id).unwrap_or_else(|| panic!("'{id}' is not in the registry"));
        let hint = d
            .hint
            .unwrap_or_else(|| panic!("'{id}' is listed as hint-bearing but has no hint"));
        assert!(hint.contains(required), "{id}: hint must name '{required}'. Got: {hint}");
        for other in *forbidden {
            assert!(!hint.contains(other), "{id}: hint names '{other}'. Got: {hint}");
        }
    }
}

#[test]
fn every_declared_hint_is_covered_by_the_hint_targets_table() {
    for d in registry() {
        if d.hint.is_some() {
            assert!(
                HINT_TARGETS.iter().any(|(id, ..)| *id == d.id),
                "'{}' declares a hint but is not in HINT_TARGETS",
                d.id
            );
        }
    }
}

#[test]
fn driver_store_and_winsxs_hints_name_their_own_stores() {
    let ds = lookup("driver-store").unwrap().hint.unwrap();
    let ws = lookup("winsxs").unwrap().hint.unwrap();
    assert!(ds.contains("pnputil"), "got: {ds}");
    assert!(!ds.contains("dism"), "got: {ds}");
    assert!(ws.contains("dism"), "got: {ws}");
    assert!(!ws.contains("pnputil"), "got: {ws}");
}

#[test]
fn category_copies_registry_metadata() {
    let c = category("driver-store", vec![]);
    assert_eq!(c.title, "Driver Store");
    assert!(!c.reclaimable);
    assert!(category("user-temp", vec![]).reclaimable);
}

#[test]
fn lookup_of_an_unknown_id_is_none() {
    assert!(lookup("no-such-category").is_none());
    assert_eq!(lookup("user-temp").unwrap().id, "user-temp");
}
