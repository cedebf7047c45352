//! The `sweep diagnose` report and the `sweep doctor` would-clean estimate.
use vstd::prelude::*;

use crate::domain::models::{
    CategoryEstimate, CategoryScan, CleanCategory, DiagnoseReport, DiagnoseRow, DiagnoseRowModel,
    ExclusionConfig, RiskLevel, opt_view,
};
use crate::sorting::{SortKey, SpecKey, lemma_sort_map, sort_desc, sorted_desc};

verus! {

impl SpecKey for DiagnoseRow {
    open spec fn key_of(&self) -> u64 {
        self.size_bytes
    }
}

impl SortKey for DiagnoseRow {
    fn sort_key(&self) -> (k: u64) {
        self.size_bytes
    }
}

impl SpecKey for DiagnoseRowModel {
    open spec fn key_of(&self) -> u64 {
        self.size_bytes
    }
}

pub open spec fn row_models(v: Seq<DiagnoseRow>) -> Seq<DiagnoseRowModel> {
    v.map_values(|r: DiagnoseRow| r.deep_view())
}

/// The row a scan contributes: safe and reclaimable, with no hint.
pub open spec fn row_of(s: CategoryScan) -> DiagnoseRowModel {
    DiagnoseRowModel {
        category_id: s.category_id@,
        title: s.title@,
        size_bytes: s.total_bytes,
        risk: RiskLevel::Safe,
        reclaimable: true,
        hint: None,
    }
}

/// Sum of the scans' sizes.
pub open spec fn scan_total(s: Seq<CategoryScan>) -> int
    decreases s.len(),
{
    if s.len() == 0 {
        0
    } else {
        scan_total(s.drop_last()) + s.last().total_bytes
    }
}

/// The rows kept when the ids in `ids` are excluded.
pub open spec fn row_kept(ids: Seq<Seq<char>>) -> spec_fn(DiagnoseRowModel) -> bool {
    |m: DiagnoseRowModel| !ids.contains(m.category_id)
}

/// Drop rows whose category id is excluded, returning the survivors and the
/// excluded count.
///
/// Matching is by category id; path/glob exclusions are applied earlier,
/// during discovery, so nothing excluded is ever sized.
pub fn filter_excluded_rows(rows: Vec<DiagnoseRow>, excl: &ExclusionConfig) -> (r: (Vec<DiagnoseRow>, usize))
    ensures
        row_models(r.0@) == row_models(rows@).filter(row_kept(excl.category_ids.deep_view())),
        r.1 + r.0@.len() == rows@.len(),
{
    let ghost all = row_models(rows@);
    let ghost pred = row_kept(excl.category_ids.deep_view());
    let n = rows.len();
    let mut input = rows;
    let mut kept: Vec<DiagnoseRow> = Vec::new();
    let mut i: usize = 0;
    while i < n
        invariant
            n == all.len(),
            i <= n,
            input@.len() == n - i,
            row_models(input@) == all.skip(i as int),
            pred == row_kept(excl.category_ids.deep_view()),
            row_models(kept@) == all.take(i as int).filter(pred),
            kept@.len() <= i,
        decreases n - i,
    {
        let ghost before = input@;
        let row = input.remove(0);
        assert(row_models(input@) =~= all.skip(i + 1)) by {
            assert(input@ =~= before.drop_first());
            assert(row_models(before) == all.skip(i as int));
            assert(row_models(before).drop_first() =~= all.skip(i + 1));
            assert(row_models(input@) =~= row_models(before).drop_first());
        }
        assert(all[i as int] == row.deep_view()) by {
            assert(row_models(before)[0] == row.deep_view());
        }
        assert(all.take(i + 1).drop_last() =~= all.take(i as int));
        reveal_with_fuel(Seq::filter, 1);
        let excluded_id = crate::exclusion::contains_string(&excl.category_ids, row.category_id.as_str());
        assert(all[i as int].category_id == row.category_id@);
        assert(pred(all[i as int]) == !excluded_id);
        assert(all.take(i + 1).last() == all[i as int]);
        if !excluded_id {
            let ghost prev = row_models(kept@);
            kept.push(row);
            assert(row_models(kept@) =~= prev.push(all[i as int]));
        }
        i = i + 1;
    }
    assert(all.take(n as int) =~= all);
    let excluded = n - kept.len();
    (kept, excluded)
}

/// Rows, largest first, with their totals.
pub struct DiagnoseService;

impl DiagnoseService {
    /// Build the report: one safe, reclaimable row per scan, sorted by size
    /// (largest first, ties in scan order), with the total of all rows.
    pub fn build_report(scans: &[CategoryScan]) -> (r: DiagnoseReport)
        requires
            scan_total(scans@) <= u64::MAX,
        ensures
            row_models(r.rows@) == sorted_desc(scans@.map_values(|s: CategoryScan| row_of(s))),
            r.total_reclaimable == scan_total(scans@),
            r.safe_reclaimable == r.total_reclaimable,
            r.system_reclaimable == 0,
            r.idle is None,
    {
        let mut rows: Vec<DiagnoseRow> = Vec::new();
        let mut total: u64 = 0;
        let mut i: usize = 0;
        while i < scans.len()
            invariant
                i <= scans@.len(),
                scan_total(scans@) <= u64::MAX,
                row_models(rows@) == scans@.take(i as int).map_values(|s: CategoryScan| row_of(s)),
                total == scan_total(scans@.take(i as int)),
            decreases scans@.len() - i,
        {
            let s = &scans[i];
            let row = DiagnoseRow {
                category_id: s.category_id.clone(),
                title: s.title.clone(),
                size_bytes: s.total_bytes,
                risk: RiskLevel::Safe,
                reclaimable: true,
                hint: None,
            };
            proof {
                assert(scans@.take(i + 1).drop_last() =~= scans@.take(i as int));
                lemma_scan_total_prefix(scans@, i + 1);
            }
            total = total + s.total_bytes;
            let ghost prev = row_models(rows@);
            rows.push(row);
            assert(row_models(rows@) =~= prev.push(row_of(scans@[i as int])));
            i = i + 1;
            assert(scans@.take(i as int).map_values(|s: CategoryScan| row_of(s)) =~= prev.push(
                row_of(scans@[i - 1]),
            ));
        }
        assert(scans@.take(scans@.len() as int) =~= scans@);
        let ghost unsorted = rows@;
        let sorted = sort_desc(rows);
        proof {
            lemma_sort_map(unsorted, |r: DiagnoseRow| r.deep_view());
        }
        DiagnoseReport {
            rows: sorted,
            total_reclaimable: total,
            safe_reclaimable: total,
            system_reclaimable: 0,
            idle: None,
        }
    }
}

proof fn lemma_scan_total_prefix(s: Seq<CategoryScan>, k: int)
    requires
        0 <= k <= s.len(),
    ensures
        scan_total(s.take(k)) <= scan_total(s),
        k > 0 ==> scan_total(s.take(k)) == scan_total(s.take(k - 1)) + s[k - 1].total_bytes,
    decreases s.len(),
{
    if k > 0 {
        assert(s.take(k).drop_last() =~= s.take(k - 1));
    }
    if k < s.len() {
        assert(s.drop_last().take(k) =~= s.take(k));
        lemma_scan_total_prefix(s.drop_last(), k);
    } else {
        assert(s.take(k) =~= s);
    }
}

} // verus!
