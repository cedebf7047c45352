use sweep::reserve::is_disk_full_error;
use sweep::domain::models::{ReserveStatus, HEADROOM_THRESHOLD_BYTES, RECREATION_THRESHOLD_BYTES, RESERVE_SIZE_BYTES};
use sweep::reserve::{classify_reserve, ensure_headroom_or_consume_reserve, reserve_needs_allocation, should_consume, should_recreate, try_recreate_reserve};

#[test]
fn consume_triggers_only_below_headroom() {
    assert!(should_consume(HEADROOM_THRESHOLD_BYTES - 1));
    assert!(!should_consume(HEADROOM_THRESHOLD_BYTES));
    assert!(!should_consume(RECREATION_THRESHOLD_BYTES));
}

#[test]
fn recreate_triggers_only_at_or_above_the_recreation_threshold() {
    assert!(!should_recreate(0));
    assert!(!should_recreate(HEADROOM_THRESHOLD_BYTES));
    assert!(!should_recreate(RECREATION_THRESHOLD_BYTES - 1));
    assert!(should_recreate(RECREATION_THRESHOLD_BYTES));
}

#[test]
fn a_nearly_full_disk_does_not_recreate_the_reserve() {
    assert!(!should_recreate(237 * 1024 * 1024));
    for free in [
        HEADROOM_THRESHOLD_BYTES,
        HEADROOM_THRESHOLD_BYTES * 2,
        RECREATION_THRESHOLD_BYTES - 1,
    ] {
        assert!(!should_recreate(free), "{free} bytes free is inside the hysteresis band");
    }
}

#[test]
fn reserve_classification_covers_every_state() {
    let full = RESERVE_SIZE_BYTES;
    let roomy = RECREATION_THRESHOLD_BYTES;
    let tight = HEADROOM_THRESHOLD_BYTES - 1;

    assert_eq!(classify_reserve(Some(full), roomy, true), ReserveStatus::Healthy);
    assert_eq!(classify_reserve(Some(full), tight, true), ReserveStatus::HeldBelowHeadroom);
    assert_eq!(classify_reserve(Some(full), HEADROOM_THRESHOLD_BYTES, true), ReserveStatus::Healthy);
    assert_eq!(classify_reserve(Some(0), roomy, true), ReserveStatus::Partial);
    assert_eq!(classify_reserve(Some(full - 1), roomy, true), ReserveStatus::Partial);
    assert_eq!(classify_reserve(None, roomy, true), ReserveStatus::Consumed);
    assert_eq!(classify_reserve(None, roomy, false), ReserveStatus::Missing);
}

#[test]
fn gates_match_their_predicates_and_the_band_does_nothing() {
    let mid = HEADROOM_THRESHOLD_BYTES * 2;
    assert!(!ensure_headroom_or_consume_reserve(mid));
    assert!(!try_recreate_reserve(mid));
    assert!(ensure_headroom_or_consume_reserve(0));
    assert!(try_recreate_reserve(RECREATION_THRESHOLD_BYTES));
    assert!(reserve_needs_allocation(None));
    assert!(reserve_needs_allocation(Some(RESERVE_SIZE_BYTES - 1)));
    assert!(!reserve_needs_allocation(Some(RESERVE_SIZE_BYTES)));
}

#[test]
fn disk_full_errors_are_recognized_by_message() {
    assert!(is_disk_full_error("write failed: No space left on device (os error 28)", None));
    assert!(is_disk_full_error("disk I/O error", None));
    assert!(is_disk_full_error("opening index database", Some("database or disk is full (SQLITE_FULL)")));
    assert!(is_disk_full_error("opening index database", Some("error code 13")));
    assert!(!is_disk_full_error("permission denied", None));
    assert!(!is_disk_full_error("permission denied", Some("no such table: entries")));
}
