//! Plain data shared by the services.
//!
//! Paths are carried as `String`s. Every type whose values a contract compares
//! has a `DeepView` into a model built from `Seq<char>` and plain values.
use vstd::prelude::*;

verus! {

#[derive(Debug, Clone, Copy)]
pub struct MemoryStats {
    pub total_bytes: u64,
    pub used_bytes: u64,
    pub available_bytes: u64,
    pub swap_total_bytes: u64,
    pub swap_used_bytes: u64,
}

#[derive(Debug, Clone)]
pub struct DiskStats {
    pub name: String,
    pub mount_point: String,
    pub total_bytes: u64,
    pub used_bytes: u64,
    pub available_bytes: u64,
}

#[derive(Debug, Clone)]
pub struct ProcessMemInfo {
    pub pid: u32,
    pub name: String,
    pub memory_bytes: u64,
    pub read_bytes: u64,
    pub write_bytes: u64,
    pub total_written_bytes: u64,
}

#[derive(Debug, Clone)]
pub struct SystemSnapshot {
    pub memory: MemoryStats,
    pub disks: Vec<DiskStats>,
    pub top_processes: Vec<ProcessMemInfo>,
}

#[derive(Debug, Clone)]
pub struct EntryRecord {
    pub path: String,
    pub parent: String,
    pub size_bytes: u64,
    pub mtime_ms: i64,
    pub is_dir: bool,
}

#[derive(Debug, Clone)]
pub struct DirListing {
    pub path: String,
    pub dir_mtime_ms: i64,
    pub readable: bool,
    pub entries: Vec<EntryRecord>,
}

#[derive(Debug, Clone, Copy, Default)]
pub struct IndexStats {
    pub files: u64,
    pub dirs: u64,
    pub total_bytes: u64,
}

#[derive(Debug, Clone, Default)]
pub struct IndexProgress {
    pub running: bool,
    pub dirs_scanned: u64,
    pub dirs_skipped: u64,
    pub files_recorded: u64,
    pub stale_removed: u64,
    pub errors: u64,
    pub current_path: String,
    pub started_at_unix: Option<i64>,
    pub finished_at_unix: Option<i64>,
}

#[derive(Debug, Clone, Copy, PartialEq, Eq, Structural)]
pub enum UsageSource {
    Prefetch,
    UserAssist,
}

#[derive(Debug, Clone)]
pub struct AppUsage {
    pub exe_name: String,
    pub last_run_unix: i64,
    pub run_count: u64,
    pub source: UsageSource,
}

pub struct AppUsageModel {
    pub exe_name: Seq<char>,
    pub last_run_unix: i64,
    pub run_count: u64,
    pub source: UsageSource,
}

impl DeepView for AppUsage {
    type V = AppUsageModel;

    open spec fn deep_view(&self) -> AppUsageModel {
        AppUsageModel {
            exe_name: self.exe_name@,
            last_run_unix: self.last_run_unix,
            run_count: self.run_count,
            source: self.source,
        }
    }
}

impl AppUsage {
    pub fn duplicate(&self) -> (r: AppUsage)
        ensures
            r.deep_view() == self.deep_view(),
    {
        AppUsage {
            exe_name: self.exe_name.clone(),
            last_run_unix: self.last_run_unix,
            run_count: self.run_count,
            source: self.source,
        }
    }
}

#[derive(Debug, Clone, Default)]
pub struct InstalledApp {
    pub name: String,
    pub version: String,
    pub publisher: String,
    pub install_location: Option<String>,
    pub uninstall_command: Option<String>,
    pub size_bytes: Option<u64>,
    pub last_run_unix: Option<i64>,
}

pub struct InstalledAppModel {
    pub name: Seq<char>,
    pub version: Seq<char>,
    pub publisher: Seq<char>,
    pub install_location: Option<Seq<char>>,
    pub uninstall_command: Option<Seq<char>>,
    pub size_bytes: Option<u64>,
    pub last_run_unix: Option<i64>,
}

impl DeepView for InstalledApp {
    type V = InstalledAppModel;

    open spec fn deep_view(&self) -> InstalledAppModel {
        InstalledAppModel {
            name: self.name@,
            version: self.version@,
            publisher: self.publisher@,
            install_location: opt_view(self.install_location),
            uninstall_command: opt_view(self.uninstall_command),
            size_bytes: self.size_bytes,
            last_run_unix: self.last_run_unix,
        }
    }
}

pub open spec fn opt_view(o: Option<String>) -> Option<Seq<char>> {
    match o {
        Some(s) => Some(s@),
        None => None,
    }
}

pub fn copy_opt_string(o: &Option<String>) -> (r: Option<String>)
    ensures
        opt_view(r) == opt_view(*o),
{
    match o {
        Some(s) => Some(s.clone()),
        None => None,
    }
}

/// Element-wise copy of a vector of strings.
pub fn copy_strings(v: &Vec<String>) -> (r: Vec<String>)
    ensures
        r.deep_view() == v.deep_view(),
{
    let mut r: Vec<String> = Vec::new();
    let mut i: usize = 0;
    while i < v.len()
        invariant
            i <= v@.len(),
            r.deep_view() =~= v.deep_view().take(i as int),
        decreases v@.len() - i,
    {
        let c = v[i].clone();
        let ghost prev = r.deep_view();
        r.push(c);
        assert(r.deep_view() =~= prev.push(c@));
        i = i + 1;
        assert(r.deep_view() =~= v.deep_view().take(i as int));
    }
    assert(v.deep_view().take(v@.len() as int) =~= v.deep_view());
    r
}

impl InstalledApp {
    pub fn duplicate(&self) -> (r: InstalledApp)
        ensures
            r.deep_view() == self.deep_view(),
    {
        InstalledApp {
            name: self.name.clone(),
            version: self.version.clone(),
            publisher: self.publisher.clone(),
            install_location: copy_opt_string(&self.install_location),
            uninstall_command: copy_opt_string(&self.uninstall_command),
            size_bytes: self.size_bytes,
            last_run_unix: self.last_run_unix,
        }
    }
}

#[derive(Debug, Clone, Copy, PartialEq, Eq, Structural)]
pub enum RiskLevel {
    Safe,
    System,
}

#[derive(Debug, Clone)]
pub struct CleanCategory {
    pub id: String,
    pub title: String,
    /// each root's children are removal candidates; a root that is a plain
    /// file is itself the candidate
    pub roots: Vec<String>,
    pub risk: RiskLevel,
    /// when set, sweep runs this shell command instead of trashing files
    /// (used for pnpm store, which uses hardlinks that don't free on trash)
    pub cleanup_command: Option<String>,
    /// false = sweep may measure and report this category but must never
    /// remove anything in it
    pub reclaimable: bool,
}

pub struct CleanCategoryModel {
    pub id: Seq<char>,
    pub title: Seq<char>,
    pub roots: Seq<Seq<char>>,
    pub risk: RiskLevel,
    pub cleanup_command: Option<Seq<char>>,
    pub reclaimable: bool,
}

impl DeepView for CleanCategory {
    type V = CleanCategoryModel;

    open spec fn deep_view(&self) -> CleanCategoryModel {
        CleanCategoryModel {
            id: self.id@,
            title: self.title@,
            roots: self.roots.deep_view(),
            risk: self.risk,
            cleanup_command: opt_view(self.cleanup_command),
            reclaimable: self.reclaimable,
        }
    }
}

impl CleanCategory {
    pub fn duplicate(&self) -> (r: CleanCategory)
        ensures
            r.deep_view() == self.deep_view(),
    {
        CleanCategory {
            id: self.id.clone(),
            title: self.title.clone(),
            roots: copy_strings(&self.roots),
            risk: self.risk,
            cleanup_command: copy_opt_string(&self.cleanup_command),
            reclaimable: self.reclaimable,
        }
    }
}

#[derive(Debug, Clone)]
pub struct CategoryScan {
    pub category_id: String,
    pub title: String,
    pub items: Vec<String>,
    pub total_bytes: u64,
    pub files: u64,
    /// copied from CleanCategory; run this command instead of trashing if set
    pub cleanup_command: Option<String>,
}

#[derive(Debug, Clone, Default)]
pub struct CleanOutcome {
    pub removed_bytes: u64,
    pub removed_items: u64,
    pub failed_items: u64,
    /// paths that could not be removed (locked or protected), for the
    /// `clean --kill` retry pass
    pub failed_paths: Vec<String>,
    /// successfully trashed items, recorded so the caller can append an
    /// [`UndoSession`] to the journal for `sweep undo`
    pub undo_items: Vec<UndoItem>,
}

#[derive(Debug, Clone, Default)]
pub struct TrimOutcome {
    pub attempted_pids: Vec<u32>,
    pub succeeded: u32,
    pub failed: u32,
    pub standby_attempted: bool,
    pub standby_ok: bool,
}

#[derive(Debug, Clone)]
pub struct BinItem {
    pub name: String,
    pub original_parent: String,
    pub deleted_unix: i64,
}

pub const RESERVE_SIZE_BYTES: u64 = 512 * 1024 * 1024;

pub const HEADROOM_THRESHOLD_BYTES: u64 = 256 * 1024 * 1024;

pub const RECREATION_THRESHOLD_BYTES: u64 = 1024 * 1024 * 1024;

#[derive(Debug, Clone)]
pub struct DiagnoseRow {
    pub category_id: String,
    pub title: String,
    pub size_bytes: u64,
    pub risk: RiskLevel,
    pub reclaimable: bool,
    /// actionable guidance shown below the row (e.g. DISM command for driver store)
    pub hint: Option<String>,
}

pub struct DiagnoseRowModel {
    pub category_id: Seq<char>,
    pub title: Seq<char>,
    pub size_bytes: u64,
    pub risk: RiskLevel,
    pub reclaimable: bool,
    pub hint: Option<Seq<char>>,
}

impl DeepView for DiagnoseRow {
    type V = DiagnoseRowModel;

    open spec fn deep_view(&self) -> DiagnoseRowModel {
        DiagnoseRowModel {
            category_id: self.category_id@,
            title: self.title@,
            size_bytes: self.size_bytes,
            risk: self.risk,
            reclaimable: self.reclaimable,
            hint: opt_view(self.hint),
        }
    }
}

/// a running process that holds an open handle on one or more cleanable
/// paths; used by `clean --kill`
#[derive(Debug, Clone)]
pub struct LockedProcess {
    pub pid: u32,
    /// image name, e.g. "chrome.exe"
    pub name: String,
    /// the specific locked path this process holds
    pub path: String,
}

#[derive(Debug, Clone)]
pub struct IdleProbeResult {
    pub idle_seconds: u64,
    pub foreground_title: String,
}

#[derive(Debug, Clone)]
pub struct DiagnoseReport {
    pub rows: Vec<DiagnoseRow>,
    pub total_reclaimable: u64,
    pub safe_reclaimable: u64,
    pub system_reclaimable: u64,
    pub idle: Option<IdleProbeResult>,
}

pub const DEFAULT_GUARD_RAM_THRESHOLD_PERMILLE: u64 = 900;

pub const DEFAULT_GUARD_DISK_MIN_GB: u64 = 10;

pub const DEFAULT_GUARD_INTERVAL_SECS: u64 = 60;

pub const GUARD_COOLDOWN_SECS: u64 = 300;

pub const GUARD_HYSTERESIS_SAMPLES: u64 = 3;

/// Configuration for the guard daemon. The RAM threshold is a fraction of
/// total memory expressed in thousandths (900 = 90%).
#[derive(Debug, Clone, Copy)]
pub struct GuardConfig {
    pub ram_threshold_permille: u64,
    pub disk_min_gb: u64,
    pub interval_secs: u64,
    pub once: bool,
    pub allow_service_stop: bool,
    pub allow_kill: bool,
}

impl GuardConfig {
    pub fn new_default() -> (r: GuardConfig)
        ensures
            r.ram_threshold_permille == DEFAULT_GUARD_RAM_THRESHOLD_PERMILLE,
            r.disk_min_gb == DEFAULT_GUARD_DISK_MIN_GB,
            r.interval_secs == DEFAULT_GUARD_INTERVAL_SECS,
            !r.once && !r.allow_service_stop && !r.allow_kill,
    {
        GuardConfig {
            ram_threshold_permille: DEFAULT_GUARD_RAM_THRESHOLD_PERMILLE,
            disk_min_gb: DEFAULT_GUARD_DISK_MIN_GB,
            interval_secs: DEFAULT_GUARD_INTERVAL_SECS,
            once: false,
            allow_service_stop: false,
            allow_kill: false,
        }
    }
}

/// RAM usage snapshot at a point in time.
#[derive(Debug, Clone, Copy)]
pub struct RamSnapshot {
    pub timestamp_secs: i64,
    pub used_bytes: u64,
    pub total_bytes: u64,
    pub available_bytes: u64,
}

/// Disk free space snapshot at a point in time.
#[derive(Debug, Clone, Copy)]
pub struct DiskSnapshot {
    pub timestamp_secs: i64,
    pub free_bytes: u64,
    pub total_bytes: u64,
}

/// State for tracking which services were running before guard intervention.
#[derive(Debug, Clone)]
pub struct ServiceGuardState {
    pub name: String,
    pub was_running: bool,
}

#[derive(Debug, Clone)]
pub struct ServiceEntry {
    pub name: String,
    pub display_name: String,
    pub pid: Option<u32>,
    pub status: String,
}

/// A process detected as idle but writing heavily to disk. The write rate is
/// kept in whole bytes per hour (saturating at `u64::MAX`).
#[derive(Debug, Clone)]
pub struct IdleSsdOffender {
    pub pid: u32,
    pub name: String,
    pub idle_secs: u64,
    pub write_bytes: u64,
    pub writes_per_hour: u64,
    pub memory_bytes: u64,
    pub reason: IdleReason,
}

#[derive(Debug, Clone, Copy, PartialEq, Eq, Structural)]
pub enum IdleReason {
    BackgroundFlush,
    SyncService,
    Unknown,
}

impl IdleReason {
    pub fn label(&self) -> (r: &'static str)
        ensures
            r@ == idle_reason_label(*self),
    {
        match self {
            IdleReason::BackgroundFlush => "Background flush",
            IdleReason::SyncService => "Sync service",
            IdleReason::Unknown => "Unknown",
        }
    }
}

pub open spec fn idle_reason_label(r: IdleReason) -> Seq<char> {
    match r {
        IdleReason::BackgroundFlush => "Background flush"@,
        IdleReason::SyncService => "Sync service"@,
        IdleReason::Unknown => "Unknown"@,
    }
}

#[derive(Debug, Clone, Copy, PartialEq, Eq, Structural)]
pub enum GuardAction {
    Nothing,
    RamTrim,
    DiskReserve,
    DiskCleanSafe,
    DiskPurgeBin,
}

pub open spec fn guard_action_label(a: GuardAction) -> Seq<char> {
    match a {
        GuardAction::Nothing => "none"@,
        GuardAction::RamTrim => "ram_trim"@,
        GuardAction::DiskReserve => "disk_reserve"@,
        GuardAction::DiskCleanSafe => "disk_clean_safe"@,
        GuardAction::DiskPurgeBin => "disk_purge_bin"@,
    }
}

impl GuardAction {
    pub fn label(&self) -> (r: &'static str)
        ensures
            r@ == guard_action_label(*self),
    {
        match self {
            GuardAction::Nothing => "none",
            GuardAction::RamTrim => "ram_trim",
            GuardAction::DiskReserve => "disk_reserve",
            GuardAction::DiskCleanSafe => "disk_clean_safe",
            GuardAction::DiskPurgeBin => "disk_purge_bin",
        }
    }
}

#[derive(Debug, Clone, Copy, PartialEq, Eq, Structural)]
pub enum DiskRescuePhase {
    Reserve,
    CleanSafe,
    PurgeBin,
}

/// Timestamped log entry written by the guard daemon.
#[derive(Debug, Clone)]
pub struct GuardLogEntry {
    pub timestamp: String,
    pub level: GuardLogLevel,
    pub message: String,
    pub bytes_freed: Option<u64>,
}

#[derive(Debug, Clone, Copy, PartialEq, Eq, Structural)]
pub enum GuardLogLevel {
    Info,
    Warn,
    Action,
}

pub open spec fn guard_log_level_label(l: GuardLogLevel) -> Seq<char> {
    match l {
        GuardLogLevel::Info => "INFO"@,
        GuardLogLevel::Warn => "WARN"@,
        GuardLogLevel::Action => "ACTION"@,
    }
}

impl GuardLogLevel {
    pub fn label(&self) -> (r: &'static str)
        ensures
            r@ == guard_log_level_label(*self),
    {
        match self {
            GuardLogLevel::Info => "INFO",
            GuardLogLevel::Warn => "WARN",
            GuardLogLevel::Action => "ACTION",
        }
    }
}

/// Result of a deep system scan (WU, DO, WinSxS, driver store).
#[derive(Debug, Clone)]
pub struct DeepScanResult {
    pub wu_download_bytes: u64,
    pub do_cache_bytes: u64,
    pub winsxs_reclaimable_bytes: Option<u64>,
    pub driver_store_bytes: u64,
    pub driver_store_oldest_days: Option<u32>,
}

/// A single category estimate used by the doctor pre-flight report.
#[derive(Debug, Clone)]
pub struct CategoryEstimate {
    /// category id, e.g. `user-temp`
    pub id: String,
    /// estimated reclaimable bytes for this category
    pub size_bytes: u64,
    /// risk level (Safe or System) of the category
    pub risk: RiskLevel,
}

/// Pre-flight safety snapshot produced by `sweep doctor`.
#[derive(Debug, Clone)]
pub struct DoctorReport {
    /// reserve file status
    pub reserve_status: ReserveStatus,
    /// bytes the reserve file currently holds (0 when absent)
    pub reserve_held_bytes: u64,
    /// free bytes on the volume holding the reserve
    pub reserve_free_bytes: u64,
    /// whether sweep is running elevated
    pub elevation: ElevationStatus,
    /// whether toast notifications are available
    pub toast: ToastStatus,
    /// whether guard is installed as a logon task
    pub guard_armed: bool,
    /// per-category estimate of what guard would clean
    pub would_clean: Vec<CategoryEstimate>,
    /// total bytes guard would clean (sum of `would_clean`)
    pub would_clean_total_bytes: u64,
    /// true when the sizing budget expired, making the total a lower bound
    pub would_clean_partial: bool,
    /// current count of detected idle offenders
    pub idle_offender_count: u64,
    /// detected volumes and their media
    pub volumes: Vec<VolumeInfo>,
}

/// Reserve file status reported by `sweep doctor`.
#[derive(Debug, Clone, Copy, PartialEq, Eq, Structural)]
pub enum ReserveStatus {
    /// full-size reserve with room to spare
    Healthy,
    /// no reserve and no data dir: sweep never ran here
    Missing,
    /// no reserve on a machine with a data dir: a previous rescue released it
    Consumed,
    /// present but short of full size: an allocation that ran out of disk
    Partial,
    /// full-size reserve on a volume below the headroom threshold
    HeldBelowHeadroom,
}

/// Elevation status reported by `sweep doctor`.
#[derive(Debug, Clone, Copy, PartialEq, Eq, Structural)]
pub enum ElevationStatus {
    Elevated,
    Not,
}

/// Toast availability status reported by `sweep doctor`.
#[derive(Debug, Clone, Copy, PartialEq, Eq, Structural)]
pub enum ToastStatus {
    Available,
    Unavailable,
}

/// User-supplied exclusions parsed from `sweep.toml`.
#[derive(Debug, Clone, Default)]
pub struct ExclusionConfig {
    /// absolute/relative directory paths to always skip
    pub paths: Vec<String>,
    /// category ids to skip entirely (e.g. `dev-pnpm`)
    pub category_ids: Vec<String>,
    /// glob patterns matched (case-insensitively) against candidate paths
    pub globs: Vec<String>,
}

impl ExclusionConfig {
    /// Returns true when no exclusions are configured.
    pub fn is_empty(&self) -> (r: bool)
        ensures
            r == (self.paths@.len() == 0 && self.category_ids@.len() == 0 && self.globs@.len()
                == 0),
    {
        self.paths.len() == 0 && self.category_ids.len() == 0 && self.globs.len() == 0
    }
}

/// A user-supplied cleaner rule from a TOML `[[category]]` entry.
#[derive(Debug, Clone)]
pub struct RulePackCategory {
    /// unique category id; conflicts with a built-in id are skipped
    pub id: String,
    /// roots to scan for reclaimable bytes
    pub roots: Vec<String>,
    /// risk level controlling visibility (System hidden unless `--deep`)
    pub risk: RiskLevel,
    /// optional shell command to run instead of trashing
    pub cleanup_command: Option<String>,
}

/// Append-only journal of trashed items, enabling `sweep undo`.
#[derive(Debug, Clone, Default)]
pub struct UndoJournal {
    /// one entry per clean session, newest last
    pub sessions: Vec<UndoSession>,
}

/// A single clean session recorded in the undo journal.
#[derive(Debug, Clone)]
pub struct UndoSession {
    /// unique session identifier
    pub session_id: String,
    /// unix timestamp (seconds) when the session was recorded
    pub timestamp: i64,
    /// per-item original -> trash mappings
    pub items: Vec<UndoItem>,
}

/// A single trashed item recorded for later undo.
#[derive(Debug, Clone)]
pub struct UndoItem {
    /// original on-disk location before trashing
    pub original_path: String,
    /// Match key used to locate the item in the Recycle Bin; equals the
    /// original path because the trash index exposes no separate identifier.
    pub trash_path: String,
    /// size of the item when it was trashed (for reporting)
    pub size_bytes: u64,
}

/// A requested process termination, validated against the blocklist + consent.
#[derive(Debug, Clone)]
pub struct KillRequest {
    /// target process id
    pub pid: u32,
    /// target process image name
    pub name: String,
    /// approximate memory/working-set size in bytes (for the consent prompt)
    pub size_bytes: u64,
    /// termination mode: graceful close or forced kill
    pub mode: KillMode,
    /// whether the user has explicitly consented to this request
    pub consent: bool,
}

/// Termination mode for a `KillRequest`.
#[derive(Debug, Clone, Copy, PartialEq, Eq, Structural)]
pub enum KillMode {
    /// graceful close (WM_CLOSE / SIGTERM)
    Close,
    /// forced kill (taskkill /F / SIGKILL)
    Kill,
}

/// Active TUI navigation view.
#[derive(Debug, Clone, Copy, PartialEq, Eq, Structural)]
pub enum TuiView {
    /// background process list (RAM / disk writers)
    Background,
    /// idle-offender table
    Idle,
    /// kill confirmation modal
    KillModal,
}

/// Physical media backing a volume.
///
/// Determines which maintenance action is safe: solid-state drives are trimmed,
/// rotational drives are defragmented, and defragmenting an SSD is never
/// correct.
#[derive(Debug, Clone, Copy, PartialEq, Eq, Structural)]
pub enum MediaType {
    /// solid-state (SATA SSD, NVMe, or any non-rotational device)
    Ssd,
    /// rotational hard disk
    Hdd,
    /// could not be determined — sweep refuses to guess
    Unknown,
}

pub open spec fn media_label(m: MediaType) -> Seq<char> {
    match m {
        MediaType::Ssd => "ssd"@,
        MediaType::Hdd => "hdd"@,
        MediaType::Unknown => "unknown"@,
    }
}

impl MediaType {
    /// The lowercase name shown to the user.
    pub fn label(&self) -> (r: &'static str)
        ensures
            r@ == media_label(*self),
    {
        match self {
            MediaType::Ssd => "ssd",
            MediaType::Hdd => "hdd",
            MediaType::Unknown => "unknown",
        }
    }
}

/// A volume sweep can report on and maintain.
#[derive(Debug, Clone)]
pub struct VolumeInfo {
    /// mount point / drive root, e.g. `C:\` or `/home`
    pub mount: String,
    /// media backing this volume
    pub media: MediaType,
}

/// The maintenance operation appropriate for a volume's media.
#[derive(Debug, Clone, PartialEq, Eq)]
pub enum MaintenanceAction {
    /// re-issue TRIM for unused blocks (solid-state only)
    Trim,
    /// defragment (rotational only)
    Defrag,
    /// no safe action; carries the reason to show the user
    Unsupported(String),
}

pub open spec fn maintenance_label(a: MaintenanceAction) -> Seq<char> {
    match a {
        MaintenanceAction::Trim => "trim"@,
        MaintenanceAction::Defrag => "defrag"@,
        MaintenanceAction::Unsupported(_) => "none"@,
    }
}

impl MaintenanceAction {
    /// The short action name shown to the user.
    pub fn label(&self) -> (r: &'static str)
        ensures
            r@ == maintenance_label(*self),
    {
        match self {
            MaintenanceAction::Trim => "trim",
            MaintenanceAction::Defrag => "defrag",
            MaintenanceAction::Unsupported(_) => "none",
        }
    }
}

/// Result of a `sweep optimize` run for one volume.
#[derive(Debug, Clone)]
pub struct OptimizeOutcome {
    /// the volume that was analyzed or maintained
    pub volume: VolumeInfo,
    /// the action chosen for this volume's media
    pub action: MaintenanceAction,
    /// whether the underlying tool ran without error
    pub succeeded: bool,
    /// whether the disk was actually modified (false for analyze / refusal / failure)
    pub applied: bool,
    /// human-readable detail: tool output summary, or why nothing ran
    pub message: String,
}

} // verus!
