//! The ports through which the services reach the machine. Each is
//! implemented by a platform adapter (or by a test double); the services are
//! verified for whatever an implementation hands back.
use vstd::prelude::*;

use crate::domain::models::{
    AppUsage, BinItem, DiskSnapshot, EntryRecord, IndexStats, InstalledApp, RamSnapshot,
    SystemSnapshot,
};

verus! {

pub trait SystemMonitor {
    fn snapshot(&mut self) -> Result<SystemSnapshot, String>;
}

/// The two readings the guard daemon samples each cycle.
pub trait GuardMonitor {
    fn snapshot_ram(&self) -> Result<RamSnapshot, String>;

    fn snapshot_disk(&self) -> Result<DiskSnapshot, String>;
}

pub trait UsageProbe {
    fn probe(&self) -> Result<Vec<AppUsage>, String>;
}

pub trait AppInventory {
    fn installed_apps(&self) -> Result<Vec<InstalledApp>, String>;
}

/// Removes a file or directory (implementations decide the safety policy,
/// e.g. moving to the recycle bin).
pub trait PathRemover {
    fn remove_path(&self, path: &str) -> Result<(), String>;
}

pub trait RamTrimmer {
    /// Trims the working sets of the given pids; returns (succeeded, failed).
    fn trim_processes(&mut self, pids: &[u32]) -> Result<(u32, u32), String>;

    /// Purges the standby list (needs elevation on Windows);
    /// `Ok(false)` or an error when unavailable.
    fn purge_standby(&mut self) -> Result<bool, String>;
}

pub trait RecycleBin {
    fn items(&self) -> Result<Vec<BinItem>, String>;

    /// Permanently deletes everything currently in the bin; returns the count.
    fn purge_all(&self) -> Result<u64, String>;
}

pub trait IndexStore {
    fn get_dir_mtime(&self, path: &str) -> Result<Option<i64>, String>;

    fn child_entries(&self, parent: &str) -> Result<Vec<(String, bool)>, String>;

    fn upsert_entries(&mut self, entries: &[EntryRecord]) -> Result<(), String>;

    fn delete_paths(&mut self, paths: &[String]) -> Result<u64, String>;

    fn stats(&self) -> Result<IndexStats, String>;

    fn clear(&mut self) -> Result<(), String>;

    fn meta_get(&self, key: &str) -> Result<Option<String>, String>;

    fn meta_set(&mut self, key: &str, value: &str) -> Result<(), String>;

    /// All indexed files with size >= `min_size`, sorted by size descending.
    fn files_by_size(&self, min_size: u64) -> Result<Vec<(String, u64)>, String>;
}

pub trait PathNormalizer {
    fn normalize(&self, path: &str) -> String;
}

} // verus!
