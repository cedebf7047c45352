//! The `sweep doctor` pre-flight report, the Linux probes behind it, and the
//! benchmark recorder.
//!
//! The report is read-only: every probe degrades to a "not / unavailable /
//! zero" answer rather than failing, so doctor always completes. The probes
//! run on the caller's side; the report is assembled here.
use vstd::prelude::*;

use crate::domain::models::{
    CategoryEstimate, CategoryScan, CleanCategory, DeepScanResult, DoctorReport, ElevationStatus,
    ReserveStatus, RiskLevel, ToastStatus, VolumeInfo,
};
use crate::sorting::{lemma_sort_map, sort_desc, sorted_desc, SortKey, SpecKey};
use crate::text::{chars_eq, chars_of, has_prefix, lines, lines_of, owned, starts_with, views, words, words_of};

verus! {

// ---------------------------------------------------------------------------
// Linux probes
// ---------------------------------------------------------------------------

/// Running as root: some `Uid:` line of `/proc/self/status` has effective
/// UID (its second field) `0`.
pub open spec fn elevated_spec(status: Seq<char>) -> bool {
    exists|i: int|
        0 <= i < lines(status).len() && #[trigger] has_prefix(lines(status)[i], "Uid:"@) && words(
            lines(status)[i].skip(4),
        ).len() > 1 && words(lines(status)[i].skip(4))[1] == seq!['0']
}

/// Whether sweep runs as root, from the content of `/proc/self/status`
/// (`None` when it could not be read).
pub fn elevation_status(proc_status: Option<&str>) -> (r: ElevationStatus)
    ensures
        r == (match proc_status {
            Some(s) => if elevated_spec(s@) {
                ElevationStatus::Elevated
            } else {
                ElevationStatus::Not
            },
            None => ElevationStatus::Not,
        }),
{
    let s = match proc_status {
        Some(s) => s,
        None => return ElevationStatus::Not,
    };
    let ls = lines_of(&chars_of(s));
    let prefix = chars_of("Uid:");
    proof {
        reveal_strlit("Uid:");
    }
    let ghost all = views(ls@);
    let mut i: usize = 0;
    while i < ls.len()
        invariant
            i <= ls@.len(),
            proc_status == Some(s),
            all == views(ls@),
            all == lines(s@),
            prefix@ == "Uid:"@,
            prefix@.len() == 4,
            forall|j: int|
                0 <= j < i ==> !(#[trigger] has_prefix(all[j], "Uid:"@) && words(all[j].skip(4)).len() > 1 && words(
                    all[j].skip(4),
                )[1] == seq!['0']),
        decreases ls@.len() - i,
    {
        let line = &ls[i];
        assert(all[i as int] == line@);
        if starts_with(line, &prefix) {
            let rest = crate::text::slice_chars(line, 4, line.len());
            assert(rest@ =~= line@.skip(4));
            let ws = words_of(&rest);
            if ws.len() > 1 && ws[1].len() == 1 && ws[1][0] == '0' {
                assert(views(ws@)[1] =~= seq!['0']);
                assert(has_prefix(lines(s@)[i as int], "Uid:"@) && words(lines(s@)[i as int].skip(4)).len() > 1
                    && words(lines(s@)[i as int].skip(4))[1] == seq!['0']);
                return ElevationStatus::Elevated;
            }
            assert(!(views(ws@).len() > 1 && views(ws@)[1] == seq!['0'])) by {
                if views(ws@).len() > 1 && views(ws@)[1] == seq!['0'] {
                    assert(ws@[1]@.len() == 1);
                }
            }
        }
        i = i + 1;
    }
    ElevationStatus::Not
}

/// Toast notifications are not available on Linux.
pub fn toast_status() -> (r: ToastStatus)
    ensures
        r == ToastStatus::Unavailable,
{
    ToastStatus::Unavailable
}

/// The deep system scan finds nothing on Linux: the Windows Update, Delivery
/// Optimization, WinSxS and driver stores do not exist there.
pub fn deep_scan() -> (r: DeepScanResult)
    ensures
        r.wu_download_bytes == 0,
        r.do_cache_bytes == 0,
        r.winsxs_reclaimable_bytes is None,
        r.driver_store_bytes == 0,
        r.driver_store_oldest_days is None,
{
    DeepScanResult {
        wu_download_bytes: 0,
        do_cache_bytes: 0,
        winsxs_reclaimable_bytes: None,
        driver_store_bytes: 0,
        driver_store_oldest_days: None,
    }
}

// ---------------------------------------------------------------------------
// Would-clean estimate
// ---------------------------------------------------------------------------

impl SpecKey for CategoryEstimate {
    open spec fn key_of(&self) -> u64 {
        self.size_bytes
    }
}

impl SortKey for CategoryEstimate {
    fn sort_key(&self) -> (k: u64) {
        self.size_bytes
    }
}

pub struct EstimateModel {
    pub id: Seq<char>,
    pub size_bytes: u64,
    pub risk: RiskLevel,
}

impl SpecKey for EstimateModel {
    open spec fn key_of(&self) -> u64 {
        self.size_bytes
    }
}

impl DeepView for CategoryEstimate {
    type V = EstimateModel;

    open spec fn deep_view(&self) -> EstimateModel {
        EstimateModel { id: self.id@, size_bytes: self.size_bytes, risk: self.risk }
    }
}

pub open spec fn estimate_models(v: Seq<CategoryEstimate>) -> Seq<EstimateModel> {
    v.map_values(|e: CategoryEstimate| e.deep_view())
}

/// The estimate lines for the first `n` category/scan pairs: those whose scan
/// found something, named by the scan's id with the category's risk.
pub open spec fn lines_upto(cats: Seq<CleanCategory>, scans: Seq<CategoryScan>, n: nat) -> Seq<EstimateModel>
    decreases n,
{
    if n == 0 {
        Seq::empty()
    } else {
        let rest = lines_upto(cats, scans, (n - 1) as nat);
        let s = scans[n - 1];
        if s.total_bytes > 0 {
            rest.push(EstimateModel { id: s.category_id@, size_bytes: s.total_bytes, risk: cats[n - 1].risk })
        } else {
            rest
        }
    }
}

/// The estimate lines: each category paired with its scan, in order.
pub open spec fn estimate_lines(cats: Seq<CleanCategory>, scans: Seq<CategoryScan>) -> Seq<EstimateModel> {
    lines_upto(cats, scans, if cats.len() < scans.len() { cats.len() } else { scans.len() })
}

/// Sum of the estimates' sizes.
pub open spec fn estimate_total(v: Seq<EstimateModel>) -> int
    decreases v.len(),
{
    if v.len() == 0 {
        0
    } else {
        estimate_total(v.drop_last()) + v.last().size_bytes
    }
}

/// The would-clean estimate from the discovered categories and their scans
/// (paired in order): the non-empty ones, largest first (ties in category
/// order).
pub fn would_clean_estimate(categories: &Vec<CleanCategory>, scans: &Vec<CategoryScan>) -> (r: Vec<
    CategoryEstimate,
>)
    requires
        categories@.len() == scans@.len(),
    ensures
        estimate_models(r@) == sorted_desc(estimate_lines(categories@, scans@)),
{
    let mut out: Vec<CategoryEstimate> = Vec::new();
    let mut i: usize = 0;
    while i < scans.len()
        invariant
            i <= scans@.len(),
            categories@.len() == scans@.len(),
            estimate_models(out@) == lines_upto(categories@, scans@, i as nat),
        decreases scans@.len() - i,
    {
        let s = &scans[i];
        if s.total_bytes > 0 {
            let ghost prev = estimate_models(out@);
            out.push(CategoryEstimate { id: s.category_id.clone(), size_bytes: s.total_bytes, risk: categories[i].risk });
            assert(estimate_models(out@) =~= prev.push(
                EstimateModel { id: s.category_id@, size_bytes: s.total_bytes, risk: categories@[i as int].risk },
            ));
        }
        i = i + 1;
    }
    let ghost unsorted = out@;
    let sorted = sort_desc(out);
    proof {
        lemma_sort_map(unsorted, |e: CategoryEstimate| e.deep_view());
    }
    sorted
}

/// The total of the estimate lines, or `None` when it does not fit in 64 bits.
pub fn estimate_sum(v: &Vec<CategoryEstimate>) -> (r: Option<u64>)
    ensures
        match r {
            Some(t) => t == estimate_total(estimate_models(v@)),
            None => estimate_total(estimate_models(v@)) > u64::MAX,
        },
{
    let ghost m = estimate_models(v@);
    let mut total: u64 = 0;
    let mut i: usize = 0;
    while i < v.len()
        invariant
            i <= v@.len(),
            m == estimate_models(v@),
            total == estimate_total(m.take(i as int)),
        decreases v@.len() - i,
    {
        assert(m.take(i + 1).drop_last() =~= m.take(i as int));
        if total > u64::MAX - v[i].size_bytes {
            proof {
                lemma_total_prefix(m, i + 1);
            }
            return None;
        }
        total = total + v[i].size_bytes;
        i = i + 1;
    }
    assert(m.take(v@.len() as int) =~= m);
    Some(total)
}

proof fn lemma_total_prefix(m: Seq<EstimateModel>, k: int)
    requires
        0 <= k <= m.len(),
    ensures
        estimate_total(m.take(k)) <= estimate_total(m),
    decreases m.len() - k,
{
    if k < m.len() {
        lemma_total_prefix(m, k + 1);
        assert(m.take(k + 1).drop_last() =~= m.take(k));
    } else {
        assert(m.take(k) =~= m);
    }
}

// ---------------------------------------------------------------------------
// The report
// ---------------------------------------------------------------------------

/// What the doctor probes found, gathered by the caller.
pub struct DoctorProbes {
    pub reserve: (ReserveStatus, u64, u64),
    pub elevation: ElevationStatus,
    pub toast: ToastStatus,
    pub guard_armed: bool,
    pub idle_offender_count: u64,
    pub volumes: Vec<VolumeInfo>,
}

/// Service that builds the `sweep doctor` pre-flight report.
pub struct DoctorService;

impl DoctorService {
    /// Create a doctor service. It holds no state; every probe runs per report.
    pub fn new() -> (r: DoctorService) {
        DoctorService
    }

    /// Assemble the report from the probes and the would-clean estimate (the
    /// sized categories, `partial` when the sizing budget ran out). The total
    /// is the sum of the estimate lines.
    pub fn report(&self, probes: DoctorProbes, would_clean: Vec<CategoryEstimate>, partial: bool) -> (r: DoctorReport)
        requires
            estimate_total(estimate_models(would_clean@)) <= u64::MAX,
        ensures
            r.reserve_status == probes.reserve.0,
            r.reserve_held_bytes == probes.reserve.1,
            r.reserve_free_bytes == probes.reserve.2,
            r.elevation == probes.elevation,
            r.toast == probes.toast,
            r.guard_armed == probes.guard_armed,
            r.idle_offender_count == probes.idle_offender_count,
            r.would_clean == would_clean,
            r.would_clean_total_bytes == estimate_total(estimate_models(would_clean@)),
            r.would_clean_partial == partial,
            r.volumes == probes.volumes,
    {
        let total = match estimate_sum(&would_clean) {
            Some(t) => t,
            None => 0,
        };
        DoctorReport {
            reserve_status: probes.reserve.0,
            reserve_held_bytes: probes.reserve.1,
            reserve_free_bytes: probes.reserve.2,
            elevation: probes.elevation,
            toast: probes.toast,
            guard_armed: probes.guard_armed,
            would_clean,
            would_clean_total_bytes: total,
            would_clean_partial: partial,
            idle_offender_count: probes.idle_offender_count,
            volumes: probes.volumes,
        }
    }
}

/// The idle detection doctor counts offenders with: processes idle for five
/// minutes that wrote at least 10 MiB.
pub fn doctor_idle_config() -> (c: crate::idle::IdleConfig)
    ensures
        c.top == usize::MAX,
        c.idle_mins == 5,
        c.min_write_mb == 10,
        !c.clean_cache,
{
    crate::idle::IdleConfig { top: usize::MAX, idle_mins: 5, min_write_mb: 10, clean_cache: false }
}

// ---------------------------------------------------------------------------
// Benchmark
// ---------------------------------------------------------------------------

/// Records what a clean freed, category by category, against the free space
/// measured before it.
pub struct BenchmarkRecorder {
    pub before_free_bytes: u64,
    pub category_bytes: Vec<(String, u64)>,
}

impl BenchmarkRecorder {
    /// Start recording with the free space measured before the clean.
    pub fn start(before_free_bytes: u64) -> (r: BenchmarkRecorder)
        ensures
            r.before_free_bytes == before_free_bytes,
            r.category_bytes@.len() == 0,
    {
        BenchmarkRecorder { before_free_bytes, category_bytes: Vec::new() }
    }

    /// Record that category `id` freed `bytes`.
    pub fn record_category(&mut self, id: &str, bytes: u64)
        ensures
            final(self).before_free_bytes == old(self).before_free_bytes,
            final(self).category_bytes@.len() == old(self).category_bytes@.len() + 1,
            forall|k: int| 0 <= k < old(self).category_bytes@.len() ==> #[trigger] final(self).category_bytes@[k]
                == old(self).category_bytes@[k],
            final(self).category_bytes@.last().0@ == id@,
            final(self).category_bytes@.last().1 == bytes,
    {
        self.category_bytes.push((owned(id), bytes));
    }
}

/// Some category with id `id` has risk `risk`.
pub open spec fn has_risk(categories: Seq<CleanCategory>, id: Seq<char>, risk: RiskLevel) -> bool {
    exists|i: int| 0 <= i < categories.len() && (#[trigger] categories[i]).id@ == id && categories[i].risk == risk
}

/// The bytes recorded for categories of risk `risk`.
pub open spec fn bytes_with_risk(recorded: Seq<(String, u64)>, categories: Seq<CleanCategory>, risk: RiskLevel) -> int
    decreases recorded.len(),
{
    if recorded.len() == 0 {
        0
    } else {
        bytes_with_risk(recorded.drop_last(), categories, risk) + if has_risk(categories, recorded.last().0@, risk) {
            recorded.last().1 as int
        } else {
            0
        }
    }
}

/// All the bytes recorded.
pub open spec fn bytes_recorded(recorded: Seq<(String, u64)>) -> int
    decreases recorded.len(),
{
    if recorded.len() == 0 {
        0
    } else {
        bytes_recorded(recorded.drop_last()) + recorded.last().1
    }
}

proof fn lemma_bytes_with_risk_prefix(recorded: Seq<(String, u64)>, categories: Seq<CleanCategory>, risk: RiskLevel, n: int)
    requires
        0 <= n <= recorded.len(),
    ensures
        0 <= bytes_with_risk(recorded.take(n), categories, risk) <= bytes_with_risk(recorded, categories, risk),
    decreases recorded.len() - n,
{
    if n < recorded.len() {
        lemma_bytes_with_risk_prefix(recorded, categories, risk, n + 1);
        assert(recorded.take(n + 1).drop_last() =~= recorded.take(n));
    } else {
        assert(recorded.take(n) =~= recorded);
    }
    lemma_bytes_with_risk_nonneg(recorded.take(n), categories, risk);
}

proof fn lemma_bytes_with_risk_nonneg(recorded: Seq<(String, u64)>, categories: Seq<CleanCategory>, risk: RiskLevel)
    ensures
        bytes_with_risk(recorded, categories, risk) >= 0,
    decreases recorded.len(),
{
    if recorded.len() > 0 {
        lemma_bytes_with_risk_nonneg(recorded.drop_last(), categories, risk);
    }
}

/// The bytes a clean freed in categories of risk `risk` (the sum must fit a
/// `u64`).
pub fn freed_with_risk(category_bytes: &Vec<(String, u64)>, categories: &[CleanCategory], risk: RiskLevel) -> (r: u64)
    requires
        bytes_with_risk(category_bytes@, categories@, risk) <= u64::MAX,
    ensures
        r == bytes_with_risk(category_bytes@, categories@, risk),
{
    let mut total: u64 = 0;
    let mut i: usize = 0;
    while i < category_bytes.len()
        invariant
            i <= category_bytes@.len(),
            total == bytes_with_risk(category_bytes@.take(i as int), categories@, risk),
            bytes_with_risk(category_bytes@, categories@, risk) <= u64::MAX,
        decreases category_bytes@.len() - i,
    {
        let (id, bytes) = (&category_bytes[i].0, category_bytes[i].1);
        let mut hit = false;
        let mut k: usize = 0;
        while k < categories.len()
            invariant
                k <= categories@.len(),
                hit == exists|j: int| 0 <= j < k && (#[trigger] categories@[j]).id@ == id@ && categories@[j].risk == risk,
            decreases categories@.len() - k,
        {
            if categories[k].risk == risk && chars_eq(chars_of(categories[k].id.as_str()).as_slice(), chars_of(id.as_str()).as_slice()) {
                hit = true;
            }
            k = k + 1;
        }
        assert(category_bytes@.take(i + 1).drop_last() =~= category_bytes@.take(i as int));
        proof {
            lemma_bytes_with_risk_prefix(category_bytes@, categories@, risk, i + 1);
        }
        if hit {
            total = total + bytes;
        }
        i = i + 1;
    }
    assert(category_bytes@.take(i as int) =~= category_bytes@);
    total
}

/// The bytes a clean freed in Safe categories.
pub fn safe_freed(category_bytes: &Vec<(String, u64)>, categories: &[CleanCategory]) -> (r: u64)
    requires
        bytes_with_risk(category_bytes@, categories@, RiskLevel::Safe) <= u64::MAX,
    ensures
        r == bytes_with_risk(category_bytes@, categories@, RiskLevel::Safe),
{
    freed_with_risk(category_bytes, categories, RiskLevel::Safe)
}

/// The bytes a clean freed in System categories.
pub fn system_freed(category_bytes: &Vec<(String, u64)>, categories: &[CleanCategory]) -> (r: u64)
    requires
        bytes_with_risk(category_bytes@, categories@, RiskLevel::System) <= u64::MAX,
    ensures
        r == bytes_with_risk(category_bytes@, categories@, RiskLevel::System),
{
    freed_with_risk(category_bytes, categories, RiskLevel::System)
}

/// With category ids distinct, what Safe and System categories freed
/// together is at most what was recorded.
pub proof fn lemma_safe_and_system_within_recorded(recorded: Seq<(String, u64)>, categories: Seq<CleanCategory>)
    requires
        forall|i: int, j: int| 0 <= i < j < categories.len() ==> (#[trigger] categories[i]).id@ != (#[trigger] categories[j]).id@,
    ensures
        bytes_with_risk(recorded, categories, RiskLevel::Safe) + bytes_with_risk(recorded, categories, RiskLevel::System)
            <= bytes_recorded(recorded),
    decreases recorded.len(),
{
    if recorded.len() > 0 {
        lemma_safe_and_system_within_recorded(recorded.drop_last(), categories);
        let id = recorded.last().0@;
        if has_risk(categories, id, RiskLevel::Safe) && has_risk(categories, id, RiskLevel::System) {
            let a = choose|a: int| 0 <= a < categories.len() && (#[trigger] categories[a]).id@ == id && categories[a].risk == RiskLevel::Safe;
            let b = choose|b: int| 0 <= b < categories.len() && (#[trigger] categories[b]).id@ == id && categories[b].risk == RiskLevel::System;
            if a < b {
                assert(categories[a].id@ != categories[b].id@);
            } else if b < a {
                assert(categories[b].id@ != categories[a].id@);
            }
        }
    }
}

} // verus!
