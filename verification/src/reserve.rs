//! The reserve file: 512 MiB held back so a nearly full disk still has room
//! for sweep's own writes, released below one threshold and re-created only
//! above a higher one.
use vstd::prelude::*;

use crate::domain::models::{
    HEADROOM_THRESHOLD_BYTES, RECREATION_THRESHOLD_BYTES, RESERVE_SIZE_BYTES, ReserveStatus,
};
use crate::text::{chars_of, contains, has_infix};

verus! {

/// Free space is low enough that the reserve must be released to make room
/// for the write that is about to happen.
pub fn should_consume(free_bytes: u64) -> (r: bool)
    ensures
        r == (free_bytes < HEADROOM_THRESHOLD_BYTES),
{
    free_bytes < HEADROOM_THRESHOLD_BYTES
}

/// Free space has recovered enough to re-arm the reserve.
pub fn should_recreate(free_bytes: u64) -> (r: bool)
    ensures
        r == (free_bytes >= RECREATION_THRESHOLD_BYTES),
{
    free_bytes >= RECREATION_THRESHOLD_BYTES
}

/// Whether the reserve must be released before a write, given the free bytes
/// on the index volume.
pub fn ensure_headroom_or_consume_reserve(free_bytes: u64) -> (release: bool)
    ensures
        release == (free_bytes < HEADROOM_THRESHOLD_BYTES),
{
    should_consume(free_bytes)
}

/// Whether the reserve may be re-created, given the free bytes on the index
/// volume.
pub fn try_recreate_reserve(free_bytes: u64) -> (recreate: bool)
    ensures
        recreate == (free_bytes >= RECREATION_THRESHOLD_BYTES),
{
    should_recreate(free_bytes)
}

/// Whether the reserve file has to be (re)allocated: it is absent or short.
pub fn reserve_needs_allocation(existing_len: Option<u64>) -> (r: bool)
    ensures
        r == match existing_len {
            Some(len) => len < RESERVE_SIZE_BYTES,
            None => true,
        },
{
    match existing_len {
        Some(len) => len < RESERVE_SIZE_BYTES,
        None => true,
    }
}

/// The two thresholds never fire together, and between them (the hysteresis
/// band) neither fires: re-arming never immediately re-triggers a release.
pub proof fn lemma_reserve_hysteresis(free_bytes: u64)
    ensures
        !(free_bytes < HEADROOM_THRESHOLD_BYTES && free_bytes >= RECREATION_THRESHOLD_BYTES),
        HEADROOM_THRESHOLD_BYTES <= free_bytes < RECREATION_THRESHOLD_BYTES ==> !(free_bytes
            < HEADROOM_THRESHOLD_BYTES) && !(free_bytes >= RECREATION_THRESHOLD_BYTES),
        free_bytes >= RECREATION_THRESHOLD_BYTES ==> free_bytes - RESERVE_SIZE_BYTES
            >= HEADROOM_THRESHOLD_BYTES,
{
}

pub open spec fn classify_reserve_spec(file_len: Option<u64>, free_bytes: u64, data_dir_exists: bool) -> ReserveStatus {
    match file_len {
        Some(len) => if len >= RESERVE_SIZE_BYTES {
            if free_bytes < HEADROOM_THRESHOLD_BYTES {
                ReserveStatus::HeldBelowHeadroom
            } else {
                ReserveStatus::Healthy
            }
        } else {
            ReserveStatus::Partial
        },
        None => if data_dir_exists {
            ReserveStatus::Consumed
        } else {
            ReserveStatus::Missing
        },
    }
}

/// Classify the reserve file from its size, the volume's free space, and
/// whether sweep has run here before.
///
/// A full-size file on a volume below headroom is space the next write needs,
/// so it is not reported as healthy; a short file is a failed allocation, not
/// a deliberate release.
pub fn classify_reserve(file_len: Option<u64>, free_bytes: u64, data_dir_exists: bool) -> (r: ReserveStatus)
    ensures
        r == classify_reserve_spec(file_len, free_bytes, data_dir_exists),
{
    match file_len {
        Some(len) => {
            if len >= RESERVE_SIZE_BYTES {
                if free_bytes < HEADROOM_THRESHOLD_BYTES {
                    ReserveStatus::HeldBelowHeadroom
                } else {
                    ReserveStatus::Healthy
                }
            } else {
                ReserveStatus::Partial
            }
        },
        None => {
            if data_dir_exists {
                ReserveStatus::Consumed
            } else {
                ReserveStatus::Missing
            }
        },
    }
}

/// An error reads as "the disk is full": its message mentions a disk I/O
/// error or no space left on the device, or the SQLite error beneath it (if
/// any) mentions `SQLITE_FULL` or code 13.
pub open spec fn disk_full_spec(message: Seq<char>, sqlite_message: Option<Seq<char>>) -> bool {
    ||| has_infix(message, "disk I/O error"@)
    ||| has_infix(message, "No space left on device"@)
    ||| match sqlite_message {
        Some(s) => has_infix(s, "SQLITE_FULL"@) || has_infix(s, "13"@),
        None => false,
    }
}

/// Whether an error with this message (and, when it wraps a SQLite error,
/// that error's message) means the disk is full, so the reserve should be
/// released and the operation tried again.
pub fn is_disk_full_error(message: &str, sqlite_message: Option<&str>) -> (r: bool)
    ensures
        r == disk_full_spec(message@, match sqlite_message {
            Some(s) => Some(s@),
            None => None,
        }),
{
    let m = chars_of(message);
    if contains(m.as_slice(), chars_of("disk I/O error").as_slice()) || contains(m.as_slice(), chars_of("No space left on device").as_slice()) {
        return true;
    }
    match sqlite_message {
        Some(s) => {
            let v = chars_of(s);
            contains(v.as_slice(), chars_of("SQLITE_FULL").as_slice()) || contains(v.as_slice(), chars_of("13").as_slice())
        },
        None => false,
    }
}

} // verus!
