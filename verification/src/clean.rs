//! Discovering, measuring and cleaning the categories.
//!
//! Listing a root's children, measuring an item and running a cleanup
//! command are the caller's (through the closures handed in); which items are
//! candidates, what is excluded, which categories a run touches and what is
//! recorded for `sweep undo` are decided here.
use vstd::prelude::*;

use crate::domain::models::{CategoryScan, CleanCategory, CleanCategoryModel, CleanOutcome, ExclusionConfig, RulePackCategory, UndoItem};
use crate::domain::traits::PathRemover;
use crate::exclusion::{apply_exclusions, is_path_excluded, models_of, path_excluded, rule_packs_to_categories, surviving};
use crate::text::str_eq;

verus! {

/// The cleanable categories for this run, plus how many were excluded.
pub struct DiscoveredCategories {
    /// categories that survived exclusion filtering
    pub categories: Vec<CleanCategory>,
    /// how many categories `sweep.toml` excluded
    pub excluded: usize,
    /// the exclusion config, for pruning individual items during scan
    pub exclusions: ExclusionConfig,
}

/// Merge the built-in categories with the user's rule packs, then drop
/// everything excluded. This is the single discovery step shared by clean,
/// doctor and the guard's disk rescue, so exclusions and rule packs apply
/// everywhere alike.
pub fn discover_with_policy(builtin: Vec<CleanCategory>, exclusions: ExclusionConfig, packs: Vec<RulePackCategory>, deep: bool) -> (r:
    DiscoveredCategories)
    ensures
        ({
            let all = models_of(builtin@) + crate::exclusion::packs_to_categories(
                crate::exclusion::ids_of(models_of(builtin@)),
                crate::exclusion::pack_models(packs@),
                deep,
            );
            &&& models_of(r.categories@) == surviving(all, exclusions)
            &&& r.excluded + r.categories@.len() == all.len()
        }),
        r.exclusions == exclusions,
{
    let extra = rule_packs_to_categories(packs.as_slice(), builtin.as_slice(), deep);
    let ghost b = models_of(builtin@);
    let ghost e = models_of(extra@);
    let mut all = builtin;
    let mut rest = extra;
    let n = rest.len();
    let mut i: usize = 0;
    while rest.len() > 0
        invariant
            i + rest@.len() == n,
            n == e.len(),
            models_of(rest@) == e.skip(i as int),
            models_of(all@) == b + e.take(i as int),
        decreases rest@.len(),
    {
        let ghost before = rest@;
        let c = rest.remove(0);
        assert(models_of(rest@) =~= models_of(before).drop_first());
        assert(models_of(before)[0] == c.deep_view());
        let ghost prev = models_of(all@);
        all.push(c);
        assert(models_of(all@) =~= prev.push(c.deep_view()));
        i = i + 1;
        assert(e.take(i as int) =~= e.take(i - 1).push(e[i - 1]));
        assert(models_of(rest@) =~= e.skip(i as int));
    }
    assert(e.take(n as int) =~= e);
    let (categories, excluded) = apply_exclusions(all.as_slice(), &exclusions);
    DiscoveredCategories { categories, excluded, exclusions }
}

/// `path` is covered by one of the configured excluded paths or globs.
pub open spec fn excluded_by(path: Seq<char>, excl: ExclusionConfig) -> bool {
    path_excluded(path, excl.paths.deep_view(), excl.globs.deep_view())
}

/// Whether a run restricted to `only` touches category `id`: no restriction
/// (or an empty one) means every category.
pub open spec fn selected(only: Option<Seq<Seq<char>>>, id: Seq<char>) -> bool {
    match only {
        None => true,
        Some(ids) => ids.len() == 0 || ids.contains(id),
    }
}

#[verifier::loop_isolation(false)]
fn is_selected(only: Option<&[String]>, id: &str) -> (r: bool)
    ensures
        r == selected(
            match only {
                Some(v) => Some(v@.map_values(|s: String| s@)),
                None => None,
            },
            id@,
        ),
{
    match only {
        None => true,
        Some(ids) => {
            if ids.len() == 0 {
                return true;
            }
            let ghost vs = ids@.map_values(|s: String| s@);
            let mut i: usize = 0;
            while i < ids.len()
                invariant
                    i <= ids@.len(),
                    vs == ids@.map_values(|s: String| s@),
                    forall|j: int| 0 <= j < i ==> vs[j] != id@,
                decreases ids@.len() - i,
            {
                if str_eq(ids[i].as_str(), id) {
                    assert(vs[i as int] == id@);
                    return true;
                }
                i = i + 1;
            }
            assert(!vs.contains(id@));
            false
        },
    }
}

/// Sum that stops at `u64::MAX` instead of wrapping.
pub open spec fn sat_add(a: u64, b: u64) -> u64 {
    if a + b > u64::MAX {
        u64::MAX
    } else {
        (a + b) as u64
    }
}

pub(crate) fn saturating(a: u64, b: u64) -> (r: u64)
    ensures
        r == sat_add(a, b),
{
    if a > u64::MAX - b {
        u64::MAX
    } else {
        a + b
    }
}

/// The paths of `s` that `excl` does not cover, in order.
pub open spec fn unexcluded(s: Seq<Seq<char>>, excl: ExclusionConfig) -> Seq<Seq<char>>
    decreases s.len(),
{
    if s.len() == 0 {
        Seq::empty()
    } else {
        let prev = unexcluded(s.drop_last(), excl);
        if excluded_by(s.last(), excl) {
            prev
        } else {
            prev.push(s.last())
        }
    }
}

/// The unexcluded paths of each listing, one listing after another.
pub open spec fn kept(lists: Seq<Seq<Seq<char>>>, excl: ExclusionConfig) -> Seq<Seq<char>>
    decreases lists.len(),
{
    if lists.len() == 0 {
        Seq::empty()
    } else {
        kept(lists.drop_last(), excl) + unexcluded(lists.last(), excl)
    }
}

/// `out` is what `list_root` can give for the path `root`.
pub open spec fn listed_by<L: Fn(&str) -> Vec<String>>(list_root: L, root: Seq<char>, out: Seq<Seq<char>>) -> bool {
    exists|p: &str, v: Vec<String>| #[trigger] call_ensures(list_root, (p,), v) && p@ == root && v.deep_view() == out
}

/// `lists` holds, for each root in turn, what `list_root` gave for it.
pub open spec fn listings_fit<L: Fn(&str) -> Vec<String>>(list_root: L, roots: Seq<Seq<char>>, lists: Seq<Seq<Seq<char>>>) -> bool {
    &&& lists.len() == roots.len()
    &&& forall|r: int| 0 <= r < roots.len() ==> #[trigger] listed_by(list_root, roots[r], lists[r])
}

/// `items` are the unexcluded entries of what `list_root` gave for each of
/// `roots`, in order.
pub open spec fn gathered<L: Fn(&str) -> Vec<String>>(list_root: L, roots: Seq<Seq<char>>, excl: ExclusionConfig, items: Seq<Seq<char>>) -> bool {
    exists|lists: Seq<Seq<Seq<char>>>| #[trigger] listings_fit(list_root, roots, lists) && items == kept(lists, excl)
}

/// `size` is what `measure` can give for the path `item`.
pub open spec fn sized_by<M: Fn(&str) -> (u64, u64)>(measure: M, item: Seq<char>, size: (u64, u64)) -> bool {
    exists|p: &str| #[trigger] call_ensures(measure, (p,), size) && p@ == item
}

pub open spec fn sum_bytes(sizes: Seq<(u64, u64)>) -> nat
    decreases sizes.len(),
{
    if sizes.len() == 0 {
        0
    } else {
        sum_bytes(sizes.drop_last()) + (sizes.last().0 as nat)
    }
}

pub open spec fn sum_files(sizes: Seq<(u64, u64)>) -> nat
    decreases sizes.len(),
{
    if sizes.len() == 0 {
        0
    } else {
        sum_files(sizes.drop_last()) + (sizes.last().1 as nat)
    }
}

/// `sizes` holds, for each item in turn, what `measure` gave for it.
pub open spec fn sizes_fit<M: Fn(&str) -> (u64, u64)>(measure: M, items: Seq<Seq<char>>, sizes: Seq<(u64, u64)>) -> bool {
    &&& sizes.len() == items.len()
    &&& forall|k: int| 0 <= k < items.len() ==> #[trigger] sized_by(measure, items[k], sizes[k])
}

/// `bytes` and `files` are the sums (stopping at `u64::MAX`) of what
/// `measure` gave for each item.
pub open spec fn measured<M: Fn(&str) -> (u64, u64)>(measure: M, items: Seq<Seq<char>>, bytes: u64, files: u64) -> bool {
    exists|sizes: Seq<(u64, u64)>|
        #[trigger] sizes_fit(measure, items, sizes) && bytes == sat_nat(sum_bytes(sizes)) && files == sat_nat(sum_files(sizes))
}

/// `x`, or `u64::MAX` when it is larger.
pub open spec fn sat_nat(x: nat) -> u64 {
    if x > u64::MAX {
        u64::MAX
    } else {
        x as u64
    }
}

pub(crate) proof fn lemma_sat_step(x: nat, y: u64)
    ensures
        sat_add(sat_nat(x), y) == sat_nat(x + (y as nat)),
{
}

/// The items whose outcome in `ok` is `want`, in order.
pub open spec fn picked(items: Seq<Seq<char>>, ok: Seq<bool>, want: bool) -> Seq<Seq<char>>
    decreases ok.len(),
{
    if ok.len() == 0 || items.len() == 0 {
        Seq::empty()
    } else {
        let prev = picked(items.drop_last(), ok.drop_last(), want);
        if ok.last() == want {
            prev.push(items.last())
        } else {
            prev
        }
    }
}

/// Picking keeps no more items than there are.
pub(crate) proof fn lemma_picked_len(items: Seq<Seq<char>>, ok: Seq<bool>, want: bool)
    ensures
        picked(items, ok, want).len() <= items.len(),
    decreases ok.len(),
{
    if ok.len() > 0 && items.len() > 0 {
        lemma_picked_len(items.drop_last(), ok.drop_last(), want);
    }
}

/// How many outcomes in `ok` are `want`.
pub open spec fn count_of(ok: Seq<bool>, want: bool) -> nat
    decreases ok.len(),
{
    if ok.len() == 0 {
        0
    } else {
        count_of(ok.drop_last(), want) + if ok.last() == want {
            1nat
        } else {
            0nat
        }
    }
}

/// What a run did: the items trashed and the items that failed, in order,
/// and the number of removals and failures.
pub struct RunEffect {
    pub trashed: Seq<Seq<char>>,
    pub failed: Seq<Seq<char>>,
    pub removed: nat,
    pub failed_count: nat,
    pub bytes: nat,
    pub trashed_sizes: Seq<u64>,
}

pub open spec fn no_effect() -> RunEffect {
    RunEffect { trashed: Seq::empty(), failed: Seq::empty(), removed: 0, failed_count: 0, bytes: 0, trashed_sizes: Seq::empty() }
}

/// The sizes of the items whose outcome in `ok` is a success, in order.
pub open spec fn ok_sizes(sz: Seq<u64>, ok: Seq<bool>) -> Seq<u64>
    decreases ok.len(),
{
    if ok.len() == 0 || sz.len() == 0 {
        Seq::empty()
    } else {
        let prev = ok_sizes(sz.drop_last(), ok.drop_last());
        if ok.last() {
            prev.push(sz.last())
        } else {
            prev
        }
    }
}

/// The bytes of the items whose outcome in `ok` is a success.
pub open spec fn ok_bytes(sz: Seq<u64>, ok: Seq<bool>) -> nat
    decreases ok.len(),
{
    if ok.len() == 0 || sz.len() == 0 {
        0
    } else {
        ok_bytes(sz.drop_last(), ok.drop_last()) + if ok.last() {
            sz.last() as nat
        } else {
            0nat
        }
    }
}

/// `bytes` is the byte figure `measure` can give for the path `item`.
pub open spec fn bytes_by<M: Fn(&str) -> (u64, u64)>(measure: M, item: Seq<char>, bytes: u64) -> bool {
    exists|p: &str, files: u64| #[trigger] call_ensures(measure, (p,), (bytes, files)) && p@ == item
}

/// How many item sizes a scan's cleaning measures: one per item when its
/// items are removed one by one, none otherwise.
pub open spec fn sizes_needed(scan: CategoryScan, only: Option<Seq<Seq<char>>>) -> nat {
    if selected(only, scan.category_id@) && scan.cleanup_command is None {
        scan.items@.len()
    } else {
        0
    }
}

/// `sz` holds what `measure` gave for each of the first items of `scan`.
pub open spec fn sizes_of_items<M: Fn(&str) -> (u64, u64)>(measure: M, scan: CategoryScan, sz: Seq<u64>) -> bool {
    forall|k: int| 0 <= k < sz.len() ==> #[trigger] bytes_by(measure, scan.items@[k]@, sz[k])
}

pub open spec fn then(a: RunEffect, b: RunEffect) -> RunEffect {
    RunEffect {
        trashed: a.trashed + b.trashed,
        failed: a.failed + b.failed,
        removed: a.removed + b.removed,
        failed_count: a.failed_count + b.failed_count,
        bytes: a.bytes + b.bytes,
        trashed_sizes: a.trashed_sizes + b.trashed_sizes,
    }
}

/// How many outcomes a scan's cleaning takes: none when the run skips it,
/// one for a cleanup command, one per item otherwise.
pub open spec fn outcomes_needed(scan: CategoryScan, only: Option<Seq<Seq<char>>>) -> nat {
    if !selected(only, scan.category_id@) {
        0
    } else if scan.cleanup_command is Some {
        1
    } else {
        scan.items@.len()
    }
}

/// What cleaning one scan does given its outcomes `ok` and its items'
/// measured bytes `sz`: a skipped scan nothing; a cleanup command counts once
/// with the scan's bytes when it succeeds and fails every item when it does
/// not; otherwise each item is trashed (with its bytes) or fails, as its
/// outcome says.
pub open spec fn scan_effect(scan: CategoryScan, only: Option<Seq<Seq<char>>>, ok: Seq<bool>, sz: Seq<u64>) -> RunEffect {
    if !selected(only, scan.category_id@) {
        no_effect()
    } else if scan.cleanup_command is Some {
        if ok[0] {
            RunEffect {
                trashed: Seq::empty(),
                failed: Seq::empty(),
                removed: 1,
                failed_count: 0,
                bytes: scan.total_bytes as nat,
                trashed_sizes: Seq::empty(),
            }
        } else {
            RunEffect {
                trashed: Seq::empty(),
                failed: scan.items.deep_view(),
                removed: 0,
                failed_count: scan.items@.len(),
                bytes: 0,
                trashed_sizes: Seq::empty(),
            }
        }
    } else {
        RunEffect {
            trashed: picked(scan.items.deep_view(), ok, true),
            failed: picked(scan.items.deep_view(), ok, false),
            removed: count_of(ok, true),
            failed_count: count_of(ok, false),
            bytes: ok_bytes(sz, ok),
            trashed_sizes: ok_sizes(sz, ok),
        }
    }
}

/// What cleaning the scans in order does, given each scan's outcomes and
/// measured sizes.
pub open spec fn run_effect(
    scans: Seq<CategoryScan>,
    only: Option<Seq<Seq<char>>>,
    oks: Seq<Seq<bool>>,
    szs: Seq<Seq<u64>>,
) -> RunEffect
    decreases scans.len(),
{
    if scans.len() == 0 || oks.len() == 0 || szs.len() == 0 {
        no_effect()
    } else {
        then(
            run_effect(scans.drop_last(), only, oks.drop_last(), szs.drop_last()),
            scan_effect(scans.last(), only, oks.last(), szs.last()),
        )
    }
}

/// `oks` holds as many outcomes for each scan as its cleaning takes, and
/// `szs` what `measure` gave for each item that was removed one by one.
pub open spec fn outcomes_fit<M: Fn(&str) -> (u64, u64)>(
    scans: Seq<CategoryScan>,
    only: Option<Seq<Seq<char>>>,
    oks: Seq<Seq<bool>>,
    szs: Seq<Seq<u64>>,
    measure: M,
) -> bool {
    &&& oks.len() == scans.len()
    &&& szs.len() == scans.len()
    &&& forall|i: int| 0 <= i < scans.len() ==> (#[trigger] oks[i]).len() == outcomes_needed(scans[i], only)
    &&& forall|i: int|
        0 <= i < scans.len() ==> (#[trigger] szs[i]).len() == sizes_needed(scans[i], only) && sizes_of_items(
            measure,
            scans[i],
            szs[i],
        )
}

/// The outcome is what cleaning the scans does for some outcome of each
/// removal and cleanup command and some size of each removed item: the
/// trashed items (recorded for undo, each under its own path, with its
/// size) and the failed ones in order, with the counts and the bytes freed
/// (stopping at `u64::MAX`).
pub open spec fn run_matches<M: Fn(&str) -> (u64, u64)>(
    o: CleanOutcome,
    scans: Seq<CategoryScan>,
    only: Option<Seq<Seq<char>>>,
    measure: M,
) -> bool {
    exists|oks: Seq<Seq<bool>>, szs: Seq<Seq<u64>>|
        #![trigger run_effect(scans, only, oks, szs)]
        outcomes_fit(scans, only, oks, szs, measure) && matches_effect(o, run_effect(scans, only, oks, szs))
}

/// `run_command` answered `ok` for the command `cmd`.
pub open spec fn command_answered<C: Fn(&str) -> bool>(run_command: C, cmd: Seq<char>, ok: bool) -> bool {
    exists|s: &str| s@ == cmd && #[trigger] call_ensures(run_command, (s,), ok)
}

/// `remover` answered for the path `p`, with success exactly when `ok`.
pub open spec fn removal_answered<R: PathRemover>(remover: R, p: Seq<char>, ok: bool) -> bool {
    exists|s: &str, r: Result<(), String>| s@ == p && #[trigger] call_ensures(R::remove_path, (&remover, s), r) && (r is Ok)
        == ok
}

/// Each outcome of cleaning `scan` is what was answered for it: the cleanup
/// command's by `run_command`, each item's by `remover` for that item.
pub open spec fn answers_of<R: PathRemover, C: Fn(&str) -> bool>(
    remover: R,
    run_command: C,
    scan: CategoryScan,
    only: Option<Seq<Seq<char>>>,
    ok: Seq<bool>,
) -> bool {
    if !selected(only, scan.category_id@) {
        true
    } else {
        match scan.cleanup_command {
            Some(cmd) => command_answered(run_command, cmd@, ok[0]),
            None => forall|k: int| 0 <= k < scan.items@.len() ==> removal_answered(remover, #[trigger] scan.items@[k]@, ok[k]),
        }
    }
}

/// The outcome is what cleaning the scans does when every removal and
/// cleanup command has the outcome `remover` and `run_command` answered for
/// it, and every removed item the size `measure` gave (see [`run_matches`]).
pub open spec fn run_answered<R: PathRemover, C: Fn(&str) -> bool, M: Fn(&str) -> (u64, u64)>(
    o: CleanOutcome,
    scans: Seq<CategoryScan>,
    only: Option<Seq<Seq<char>>>,
    remover: R,
    run_command: C,
    measure: M,
) -> bool {
    exists|oks: Seq<Seq<bool>>, szs: Seq<Seq<u64>>|
        #![trigger run_effect(scans, only, oks, szs)]
        outcomes_fit(scans, only, oks, szs, measure) && (forall|i: int|
            0 <= i < scans.len() ==> answers_of(remover, run_command, #[trigger] scans[i], only, oks[i])) && matches_effect(
            o,
            run_effect(scans, only, oks, szs),
        )
}

/// The outcome's trashed items (with their measured sizes), failed items,
/// counts and freed bytes are those of `e`.
pub open spec fn matches_effect(o: CleanOutcome, e: RunEffect) -> bool {
    &&& o.undo_items@.map_values(|u: UndoItem| u.original_path@) == e.trashed
    &&& o.failed_paths.deep_view() == e.failed
    &&& o.removed_items == sat_nat(e.removed)
    &&& o.failed_items == sat_nat(e.failed_count)
    &&& o.removed_bytes == sat_nat(e.bytes)
    &&& o.undo_items@.map_values(|u: UndoItem| u.size_bytes) == e.trashed_sizes
}

/// Every undo record finds its item in the trash under its original path.
pub open spec fn undo_paths_kept(o: CleanOutcome) -> bool {
    forall|k: int| 0 <= k < o.undo_items@.len() ==> #[trigger] o.undo_items@[k].trash_path@ == o.undo_items@[k].original_path@
}

/// The candidates of one category: for each root what `list_root` gives,
/// without the paths `excl` covers.
fn gather<L: Fn(&str) -> Vec<String>>(roots: &Vec<String>, excl: &ExclusionConfig, list_root: &L) -> (items: Vec<String>)
    requires
        forall|p: &str| #[trigger] list_root.requires((p,)),
    ensures
        gathered(*list_root, roots.deep_view(), *excl, items.deep_view()),
        forall|k: int| 0 <= k < items@.len() ==> !excluded_by(#[trigger] items@[k]@, *excl),
{
    let ghost mut lists: Seq<Seq<Seq<char>>> = Seq::empty();
    let ghost rs = roots.deep_view();
    let mut items: Vec<String> = Vec::new();
    let mut r: usize = 0;
    while r < roots.len()
        invariant
            r <= roots@.len(),
            rs == roots.deep_view(),
            forall|p: &str| #[trigger] list_root.requires((p,)),
            lists.len() == r,
            forall|q: int| 0 <= q < r ==> #[trigger] listed_by(*list_root, rs[q], lists[q]),
            items.deep_view() == kept(lists, *excl),
            forall|k: int| 0 <= k < items@.len() ==> !excluded_by(#[trigger] items@[k]@, *excl),
        decreases roots@.len() - r,
    {
        let p = roots[r].as_str();
        let listed = list_root(p);
        let ghost ls = listed.deep_view();
        let ghost before = items.deep_view();
        assert(ls.take(0) =~= Seq::<Seq<char>>::empty());
        assert(before + Seq::<Seq<char>>::empty() =~= before);
        let mut x: usize = 0;
        while x < listed.len()
            invariant
                x <= listed@.len(),
                ls == listed.deep_view(),
                items.deep_view() == before + unexcluded(ls.take(x as int), *excl),
                forall|k: int| 0 <= k < items@.len() ==> !excluded_by(#[trigger] items@[k]@, *excl),
            decreases listed@.len() - x,
        {
            let ghost prev = items.deep_view();
            let ghost t = ls.take(x + 1);
            assert(t.drop_last() =~= ls.take(x as int));
            assert(t.last() == listed@[x as int]@);
            if !is_path_excluded(listed[x].as_str(), excl) {
                items.push(listed[x].clone());
                assert(items.deep_view() =~= prev.push(listed@[x as int]@));
                assert(before + unexcluded(t, *excl) =~= (before + unexcluded(ls.take(x as int), *excl)).push(
                    listed@[x as int]@,
                ));
            }
            x = x + 1;
        }
        proof {
            assert(ls.take(x as int) =~= ls);
            assert(call_ensures(*list_root, (p,), listed));
            assert(listed_by(*list_root, rs[r as int], ls));
            let nl = lists.push(ls);
            assert(nl.drop_last() =~= lists);
            assert forall|q: int| 0 <= q < r + 1 implies #[trigger] listed_by(*list_root, rs[q], nl[q]) by {
                if q < r {
                    assert(nl[q] == lists[q]);
                }
            }
            lists = nl;
        }
        r = r + 1;
    }
    assert(listings_fit(*list_root, rs, lists));
    items
}

/// Size every item with `measure`: the sums of the bytes and of the files.
fn measure_items<M: Fn(&str) -> (u64, u64)>(items: &Vec<String>, measure: &M) -> (r: (u64, u64))
    requires
        forall|p: &str| #[trigger] measure.requires((p,)),
    ensures
        measured(*measure, items.deep_view(), r.0, r.1),
{
    let ghost its = items.deep_view();
    let ghost mut sizes: Seq<(u64, u64)> = Seq::empty();
    let mut bytes: u64 = 0;
    let mut files: u64 = 0;
    let mut k: usize = 0;
    while k < items.len()
        invariant
            k <= items@.len(),
            its == items.deep_view(),
            forall|p: &str| #[trigger] measure.requires((p,)),
            sizes.len() == k,
            forall|q: int| 0 <= q < k ==> #[trigger] sized_by(*measure, its[q], sizes[q]),
            bytes == sat_nat(sum_bytes(sizes)),
            files == sat_nat(sum_files(sizes)),
        decreases items@.len() - k,
    {
        let p = items[k].as_str();
        let (b, f) = measure(p);
        proof {
            assert(call_ensures(*measure, (p,), (b, f)));
            assert(sized_by(*measure, its[k as int], (b, f)));
            lemma_sat_step(sum_bytes(sizes), b);
            lemma_sat_step(sum_files(sizes), f);
            let ns = sizes.push((b, f));
            assert(ns.drop_last() =~= sizes);
            assert forall|q: int| 0 <= q < k + 1 implies #[trigger] sized_by(*measure, its[q], ns[q]) by {
                if q < k {
                    assert(ns[q] == sizes[q]);
                }
            }
            sizes = ns;
        }
        bytes = saturating(bytes, b);
        files = saturating(files, f);
        k = k + 1;
    }
    assert(sizes_fit(*measure, its, sizes));
    (bytes, files)
}

/// A configuration that excludes nothing.
pub open spec fn no_exclusions(e: ExclusionConfig) -> bool {
    &&& e.paths@.len() == 0
    &&& e.category_ids@.len() == 0
    &&& e.globs@.len() == 0
}

/// `scan` is the scan of `cat`: its id, title and cleanup command, the
/// candidates gathered from its roots without what `excl` covers (so no
/// excluded path is ever counted or cleaned), and their measured sizes.
pub open spec fn scanned_from<L: Fn(&str) -> Vec<String>, M: Fn(&str) -> (u64, u64)>(
    scan: CategoryScan,
    cat: CleanCategory,
    excl: ExclusionConfig,
    list_root: L,
    measure: M,
) -> bool {
    &&& scan.category_id@ == cat.id@
    &&& scan.title@ == cat.title@
    &&& crate::domain::models::opt_view(scan.cleanup_command) == crate::domain::models::opt_view(cat.cleanup_command)
    &&& gathered(list_root, cat.roots.deep_view(), excl, scan.items.deep_view())
    &&& forall|k: int| 0 <= k < scan.items@.len() ==> !excluded_by(#[trigger] scan.items@[k]@, excl)
    &&& measured(measure, scan.items.deep_view(), scan.total_bytes, scan.files)
}

/// `size` is what `measure_within` can give for the path `item`.
pub open spec fn sized_within_by<M: Fn(&str) -> (u64, u64, bool)>(measure_within: M, item: Seq<char>, size: (u64, u64, bool)) -> bool {
    exists|p: &str| #[trigger] call_ensures(measure_within, (p,), size) && p@ == item
}

/// The bytes and files of each bounded measurement.
pub open spec fn figures(sizes: Seq<(u64, u64, bool)>) -> Seq<(u64, u64)> {
    sizes.map_values(|t: (u64, u64, bool)| (t.0, t.1))
}

/// `bytes` and `files` are the sums (stopping at `u64::MAX`) of what
/// `measure_within` gave for each item, and `partial` says whether it gave
/// up on any of them.
pub open spec fn measured_within<M: Fn(&str) -> (u64, u64, bool)>(
    measure_within: M,
    items: Seq<Seq<char>>,
    bytes: u64,
    files: u64,
    partial: bool,
) -> bool {
    exists|sizes: Seq<(u64, u64, bool)>|
        #![trigger figures(sizes)]
        sizes.len() == items.len()
        && (forall|k: int| 0 <= k < items.len() ==> #[trigger] sized_within_by(measure_within, items[k], sizes[k]))
        && bytes == sat_nat(sum_bytes(figures(sizes)))
        && files == sat_nat(sum_files(figures(sizes)))
        && (partial <==> exists|k: int| 0 <= k < sizes.len() && !(#[trigger] sizes[k]).2)
}

/// Like [`scanned_from`], with bounded measurements; `partial` says whether
/// any of them gave up.
pub open spec fn scanned_within<L: Fn(&str) -> Vec<String>, M: Fn(&str) -> (u64, u64, bool)>(
    scan: CategoryScan,
    cat: CleanCategory,
    excl: ExclusionConfig,
    list_root: L,
    measure_within: M,
    partial: bool,
) -> bool {
    &&& scan.category_id@ == cat.id@
    &&& scan.title@ == cat.title@
    &&& crate::domain::models::opt_view(scan.cleanup_command) == crate::domain::models::opt_view(cat.cleanup_command)
    &&& gathered(list_root, cat.roots.deep_view(), excl, scan.items.deep_view())
    &&& forall|k: int| 0 <= k < scan.items@.len() ==> !excluded_by(#[trigger] scan.items@[k]@, excl)
    &&& measured_within(measure_within, scan.items.deep_view(), scan.total_bytes, scan.files, partial)
}

/// Size every item with `measure_within`: the sums of the bytes and of the
/// files, and whether any measurement gave up.
fn measure_items_within<M: Fn(&str) -> (u64, u64, bool)>(items: &Vec<String>, measure_within: &M) -> (r: (u64, u64, bool))
    requires
        forall|p: &str| #[trigger] measure_within.requires((p,)),
    ensures
        measured_within(*measure_within, items.deep_view(), r.0, r.1, r.2),
{
    let ghost its = items.deep_view();
    let ghost mut sizes: Seq<(u64, u64, bool)> = Seq::empty();
    let mut bytes: u64 = 0;
    let mut files: u64 = 0;
    let mut partial = false;
    let mut k: usize = 0;
    assert(figures(sizes) =~= Seq::<(u64, u64)>::empty());
    while k < items.len()
        invariant
            k <= items@.len(),
            its == items.deep_view(),
            forall|p: &str| #[trigger] measure_within.requires((p,)),
            sizes.len() == k,
            forall|q: int| 0 <= q < k ==> #[trigger] sized_within_by(*measure_within, its[q], sizes[q]),
            bytes == sat_nat(sum_bytes(figures(sizes))),
            files == sat_nat(sum_files(figures(sizes))),
            partial <==> exists|q: int| 0 <= q < sizes.len() && !(#[trigger] sizes[q]).2,
        decreases items@.len() - k,
    {
        let p = items[k].as_str();
        let (b, f, done) = measure_within(p);
        proof {
            assert(call_ensures(*measure_within, (p,), (b, f, done)));
            assert(sized_within_by(*measure_within, its[k as int], (b, f, done)));
            lemma_sat_step(sum_bytes(figures(sizes)), b);
            lemma_sat_step(sum_files(figures(sizes)), f);
            let ns = sizes.push((b, f, done));
            assert(ns.drop_last() =~= sizes);
            assert(figures(ns).drop_last() =~= figures(sizes));
            assert(figures(ns).last() == (b, f));
            assert forall|q: int| 0 <= q < k + 1 implies #[trigger] sized_within_by(*measure_within, its[q], ns[q]) by {
                if q < k {
                    assert(ns[q] == sizes[q]);
                }
            }
            if !done {
                assert(!ns[k as int].2);
            }
            assert((partial || !done) <==> exists|q: int| 0 <= q < ns.len() && !(#[trigger] ns[q]).2) by {
                if exists|q: int| 0 <= q < ns.len() && !(#[trigger] ns[q]).2 {
                    let q = choose|q: int| 0 <= q < ns.len() && !(#[trigger] ns[q]).2;
                    if q < k {
                        assert(ns[q] == sizes[q]);
                    }
                }
                if partial {
                    let q = choose|q: int| 0 <= q < sizes.len() && !(#[trigger] sizes[q]).2;
                    assert(ns[q] == sizes[q]);
                }
            }
            sizes = ns;
        }
        bytes = saturating(bytes, b);
        files = saturating(files, f);
        if !done {
            partial = true;
        }
        k = k + 1;
    }
    (bytes, files, partial)
}

pub struct CleanService<R: PathRemover> {
    pub remover: R,
}

impl<R: PathRemover> CleanService<R> {
    pub fn new(remover: R) -> (r: Self)
        ensures
            r.remover == remover,
    {
        CleanService { remover }
    }

    /// Measure every category without exclusions (see [`Self::scan_excluding`]).
    pub fn scan<L: Fn(&str) -> Vec<String>, M: Fn(&str) -> (u64, u64)>(&self, categories: &[CleanCategory], list_root: L, measure: M) -> (r:
        Vec<CategoryScan>)
        requires
            forall|p: &str| #[trigger] list_root.requires((p,)),
            forall|p: &str| #[trigger] measure.requires((p,)),
        ensures
            r@.len() == categories@.len(),
            exists|none: ExclusionConfig|
                #[trigger] no_exclusions(none) && forall|i: int| #![trigger r@[i]] 0 <= i < r@.len() ==> scanned_from(r@[i], categories@[i], none, list_root, measure),
    {
        let none = ExclusionConfig { paths: Vec::new(), category_ids: Vec::new(), globs: Vec::new() };
        let r = self.scan_excluding(categories, &none, list_root, measure);
        assert(no_exclusions(none));
        r
    }

    /// Measure every category: the candidates are what `list_root` gives for
    /// each root (the root itself for a plain file, its children for a
    /// directory, nothing when absent), without the items `excl` matches, so
    /// excluded space is never counted and never cleaned; `measure` sizes
    /// each candidate as (bytes, files).
    #[verifier::loop_isolation(false)]
    pub fn scan_excluding<L: Fn(&str) -> Vec<String>, M: Fn(&str) -> (u64, u64)>(
        &self,
        categories: &[CleanCategory],
        excl: &ExclusionConfig,
        list_root: L,
        measure: M,
    ) -> (r: Vec<CategoryScan>)
        requires
            forall|p: &str| #[trigger] list_root.requires((p,)),
            forall|p: &str| #[trigger] measure.requires((p,)),
        ensures
            r@.len() == categories@.len(),
            forall|i: int| #![trigger r@[i]] 0 <= i < r@.len() ==> scanned_from(r@[i], categories@[i], *excl, list_root, measure),
    {
        let mut out: Vec<CategoryScan> = Vec::new();
        let mut c: usize = 0;
        while c < categories.len()
            invariant
                c <= categories@.len(),
                out@.len() == c,
                forall|p: &str| #[trigger] list_root.requires((p,)),
                forall|p: &str| #[trigger] measure.requires((p,)),
                forall|i: int| #![trigger out@[i]] 0 <= i < out@.len() ==> scanned_from(out@[i], categories@[i], *excl, list_root, measure),
            decreases categories@.len() - c,
        {
            let cat = &categories[c];
            let items = gather(&cat.roots, excl, &list_root);
            let (total_bytes, files) = measure_items(&items, &measure);
            let scan = CategoryScan {
                category_id: cat.id.clone(),
                title: cat.title.clone(),
                items,
                total_bytes,
                files,
                cleanup_command: crate::domain::models::copy_opt_string(&cat.cleanup_command),
            };
            out.push(scan);
            c = c + 1;
        }
        out
    }

    /// Like [`Self::scan_excluding`], but `measure_within` may give up on an
    /// item (third value false) once the sizing budget is spent; the flag
    /// says some figure is then a lower bound.
    pub fn scan_within<L: Fn(&str) -> Vec<String>, M: Fn(&str) -> (u64, u64, bool)>(
        &self,
        categories: &[CleanCategory],
        excl: &ExclusionConfig,
        list_root: L,
        measure_within: M,
    ) -> (r: (Vec<CategoryScan>, bool))
        requires
            forall|p: &str| #[trigger] list_root.requires((p,)),
            forall|p: &str| #[trigger] measure_within.requires((p,)),
        ensures
            r.0@.len() == categories@.len(),
            exists|parts: Seq<bool>|
                #![trigger parts.len()]
                parts.len() == categories@.len()
                && (forall|i: int| #![trigger r.0@[i]] 0 <= i < r.0@.len() ==> scanned_within(r.0@[i], categories@[i], *excl, list_root, measure_within, parts[i]))
                && (r.1 <==> exists|i: int| 0 <= i < parts.len() && #[trigger] parts[i]),
    {
        let mut out: Vec<CategoryScan> = Vec::new();
        let mut truncated = false;
        let ghost mut parts: Seq<bool> = Seq::empty();
        let mut c: usize = 0;
        while c < categories.len()
            invariant
                c <= categories@.len(),
                out@.len() == c,
                parts.len() == c,
                forall|p: &str| #[trigger] list_root.requires((p,)),
                forall|p: &str| #[trigger] measure_within.requires((p,)),
                forall|i: int| #![trigger out@[i]] 0 <= i < out@.len() ==> scanned_within(out@[i], categories@[i], *excl, list_root, measure_within, parts[i]),
                truncated <==> exists|i: int| 0 <= i < parts.len() && #[trigger] parts[i],
            decreases categories@.len() - c,
        {
            let cat = &categories[c];
            let items = gather(&cat.roots, excl, &list_root);
            let (total_bytes, files, partial) = measure_items_within(&items, &measure_within);
            let ghost prev_out = out@;
            out.push(
                CategoryScan {
                    category_id: cat.id.clone(),
                    title: cat.title.clone(),
                    items,
                    total_bytes,
                    files,
                    cleanup_command: crate::domain::models::copy_opt_string(&cat.cleanup_command),
                },
            );
            proof {
                let np = parts.push(partial);
                assert forall|i: int| #![trigger out@[i]] 0 <= i < out@.len() implies scanned_within(out@[i], categories@[i], *excl, list_root, measure_within, np[i]) by {
                    if i < c {
                        assert(out@[i] == prev_out[i]);
                        assert(np[i] == parts[i]);
                    }
                }
                assert((truncated || partial) <==> exists|i: int| 0 <= i < np.len() && #[trigger] np[i]) by {
                    if exists|i: int| 0 <= i < np.len() && #[trigger] np[i] {
                        let i = choose|i: int| 0 <= i < np.len() && #[trigger] np[i];
                        if i < c {
                            assert(np[i] == parts[i]);
                        }
                    }
                    if truncated {
                        let i = choose|i: int| 0 <= i < parts.len() && #[trigger] parts[i];
                        assert(np[i] == parts[i]);
                    }
                    if partial {
                        assert(np[c as int]);
                    }
                }
                parts = np;
            }
            if partial {
                truncated = true;
            }
            c = c + 1;
        }
        (out, truncated)
    }

    /// Clean one scan into `outcome` (see [`scan_effect`]); the outcome of
    /// each removal or command is handed back.
    #[verifier::loop_isolation(false)]
    fn clean_scan<C: Fn(&str) -> bool, M: Fn(&str) -> (u64, u64)>(
        &self,
        scan: &CategoryScan,
        is_sel: bool,
        outcome: &mut CleanOutcome,
        run_command: &C,
        measure: &M,
        Ghost(sel): Ghost<Option<Seq<Seq<char>>>>,
        Ghost(base): Ghost<RunEffect>,
    ) -> (res: Ghost<(Seq<bool>, Seq<u64>)>)
        requires
            forall|p: &str| #[trigger] run_command.requires((p,)),
            forall|p: &str| #[trigger] measure.requires((p,)),
            is_sel == selected(sel, scan.category_id@),
            matches_effect(*old(outcome), base),
            undo_paths_kept(*old(outcome)),
        ensures
            res@.0.len() == outcomes_needed(*scan, sel),
            res@.1.len() == sizes_needed(*scan, sel),
            sizes_of_items(*measure, *scan, res@.1),
            matches_effect(*final(outcome), then(base, scan_effect(*scan, sel, res@.0, res@.1))),
            undo_paths_kept(*final(outcome)),
            answers_of(self.remover, *run_command, *scan, sel, res@.0),
    {
        let ghost items = scan.items.deep_view();
        let ghost mut cur: Seq<bool> = Seq::empty();
        let ghost mut cur_sz: Seq<u64> = Seq::empty();
        assert(base.trashed_sizes + Seq::<u64>::empty() =~= base.trashed_sizes);
        if !is_sel {
            assert(base.trashed + Seq::<Seq<char>>::empty() =~= base.trashed);
            assert(base.failed + Seq::<Seq<char>>::empty() =~= base.failed);
            return Ghost((cur, cur_sz));
        }
        match &scan.cleanup_command {
            Some(cmd) => {
                let c = cmd.as_str();
                let ok = run_command(c);
                proof {
                    cur = seq![ok];
                    assert(call_ensures(*run_command, (c,), ok));
                    assert(command_answered(*run_command, cmd@, cur[0]));
                }
                assert(base.trashed + Seq::<Seq<char>>::empty() =~= base.trashed);
                if ok {
                    proof {
                        lemma_sat_step(base.removed, 1);
                    }
                    proof {
                        lemma_sat_step(base.bytes, scan.total_bytes);
                    }
                    outcome.removed_items = saturating(outcome.removed_items, 1);
                    outcome.removed_bytes = saturating(outcome.removed_bytes, scan.total_bytes);
                    assert(base.failed + Seq::<Seq<char>>::empty() =~= base.failed);
                } else {
                    let n: u64 = scan.items.len() as u64;
                    proof {
                        lemma_sat_step(base.failed_count, n);
                    }
                    outcome.failed_items = saturating(outcome.failed_items, n);
                    let mut j: usize = 0;
                    while j < scan.items.len()
                        invariant
                            j <= scan.items@.len(),
                            items == scan.items.deep_view(),
                            outcome.failed_paths.deep_view() == base.failed + items.take(j as int),
                            outcome.undo_items@.map_values(|u: UndoItem| u.original_path@) == base.trashed,
                            outcome.undo_items@.map_values(|u: UndoItem| u.size_bytes) == base.trashed_sizes,
                            outcome.removed_items == sat_nat(base.removed),
                            outcome.removed_bytes == sat_nat(base.bytes),
                            outcome.failed_items == sat_nat(base.failed_count + scan.items@.len()),
                            undo_paths_kept(*outcome),
                        decreases scan.items@.len() - j,
                    {
                        let ghost prev = outcome.failed_paths.deep_view();
                        outcome.failed_paths.push(scan.items[j].clone());
                        assert(outcome.failed_paths.deep_view() =~= prev.push(items[j as int]));
                        assert(items.take(j + 1) =~= items.take(j as int).push(items[j as int]));
                        j = j + 1;
                    }
                    assert(items.take(j as int) =~= items);
                }
            },
            None => {
                let mut j: usize = 0;
                assert(items.take(0) =~= Seq::<Seq<char>>::empty());
                assert(base.trashed + Seq::<Seq<char>>::empty() =~= base.trashed);
                assert(base.failed + Seq::<Seq<char>>::empty() =~= base.failed);
                while j < scan.items.len()
                    invariant
                        j <= scan.items@.len(),
                        items == scan.items.deep_view(),
                        cur.len() == j,
                        cur_sz.len() == j,
                        sizes_of_items(*measure, *scan, cur_sz),
                        outcome.removed_bytes == sat_nat(base.bytes + ok_bytes(cur_sz, cur)),
                        outcome.undo_items@.map_values(|u: UndoItem| u.size_bytes) == base.trashed_sizes + ok_sizes(cur_sz, cur),
                        forall|p: &str| #[trigger] measure.requires((p,)),
                        outcome.undo_items@.map_values(|u: UndoItem| u.original_path@) == base.trashed + picked(
                            items.take(j as int),
                            cur,
                            true,
                        ),
                        outcome.failed_paths.deep_view() == base.failed + picked(items.take(j as int), cur, false),
                        outcome.removed_items == sat_nat(base.removed + count_of(cur, true)),
                        outcome.failed_items == sat_nat(base.failed_count + count_of(cur, false)),
                        undo_paths_kept(*outcome),
                        forall|k: int| 0 <= k < j ==> removal_answered(self.remover, #[trigger] scan.items@[k]@, cur[k]),
                    decreases scan.items@.len() - j,
                {
                    let item = &scan.items[j];
                    let p = item.as_str();
                    let (bytes, _files) = measure(p);
                    proof {
                        assert(call_ensures(*measure, (p,), (bytes, _files)));
                        assert(bytes_by(*measure, scan.items@[j as int]@, bytes));
                        let nsz = cur_sz.push(bytes);
                        assert forall|k: int| 0 <= k < nsz.len() implies #[trigger] bytes_by(*measure, scan.items@[k]@, nsz[k]) by {
                            if k < j {
                                assert(nsz[k] == cur_sz[k]);
                            }
                        }
                        assert(nsz.drop_last() =~= cur_sz);
                    }
                    let ghost next = items.take(j + 1);
                    assert(next.drop_last() =~= items.take(j as int));
                    assert(next.last() == item@);
                    let answer = self.remover.remove_path(p);
                    proof {
                        assert(call_ensures(R::remove_path, (&self.remover, p), answer));
                        assert(removal_answered(self.remover, scan.items@[j as int]@, answer is Ok));
                    }
                    match answer {
                        Ok(()) => {
                            proof {
                                lemma_sat_step(base.removed + count_of(cur, true), 1);
                                lemma_sat_step(base.bytes + ok_bytes(cur_sz, cur), bytes);
                            }
                            outcome.removed_items = saturating(outcome.removed_items, 1);
                            outcome.removed_bytes = saturating(outcome.removed_bytes, bytes);
                            let ghost prev = outcome.undo_items@.map_values(|u: UndoItem| u.original_path@);
                            let ghost prev_sizes = outcome.undo_items@.map_values(|u: UndoItem| u.size_bytes);
                            let ghost prev_items = outcome.undo_items@;
                            outcome.undo_items.push(UndoItem { original_path: item.clone(), trash_path: item.clone(), size_bytes: bytes });
                            proof {
                                let now = outcome.undo_items@.map_values(|u: UndoItem| u.original_path@);
                                assert(now =~= prev.push(item@));
                                assert(outcome.undo_items@.map_values(|u: UndoItem| u.size_bytes) =~= prev_sizes.push(bytes));
                                assert forall|k: int| 0 <= k < outcome.undo_items@.len() implies #[trigger] outcome.undo_items@[k].trash_path@
                                    == outcome.undo_items@[k].original_path@ by {
                                    if k < prev_items.len() {
                                        assert(outcome.undo_items@[k] == prev_items[k]);
                                    }
                                }
                                assert(cur.push(true).drop_last() =~= cur);
                                let nc = cur.push(true);
                                assert(ok_bytes(cur_sz.push(bytes), nc) == ok_bytes(cur_sz, cur) + bytes);
                                assert(ok_sizes(cur_sz.push(bytes), nc) == ok_sizes(cur_sz, cur).push(bytes));
                                assert(base.trashed_sizes + ok_sizes(cur_sz.push(bytes), nc) =~= (base.trashed_sizes + ok_sizes(cur_sz, cur)).push(bytes));
                                assert(picked(next, nc, true) == picked(items.take(j as int), cur, true).push(item@));
                                assert(picked(next, nc, false) == picked(items.take(j as int), cur, false));
                                assert(base.trashed + picked(next, nc, true) =~= (base.trashed + picked(items.take(j as int), cur, true)).push(
                                    item@,
                                ));
                                assert forall|k: int| 0 <= k < j + 1 implies removal_answered(self.remover, #[trigger] scan.items@[k]@, nc[k]) by {
                                    if k < j {
                                        assert(nc[k] == cur[k]);
                                    }
                                }
                                cur = nc;
                                cur_sz = cur_sz.push(bytes);
                            }
                        },
                        Err(_) => {
                            proof {
                                lemma_sat_step(base.failed_count + count_of(cur, false), 1);
                            }
                            outcome.failed_items = saturating(outcome.failed_items, 1);
                            let ghost prev = outcome.failed_paths.deep_view();
                            outcome.failed_paths.push(item.clone());
                            proof {
                                assert(outcome.failed_paths.deep_view() =~= prev.push(item@));
                                assert(cur.push(false).drop_last() =~= cur);
                                let nc = cur.push(false);
                                assert(ok_bytes(cur_sz.push(bytes), nc) == ok_bytes(cur_sz, cur));
                                assert(ok_sizes(cur_sz.push(bytes), nc) == ok_sizes(cur_sz, cur));
                                assert(picked(next, nc, false) == picked(items.take(j as int), cur, false).push(item@));
                                assert(picked(next, nc, true) == picked(items.take(j as int), cur, true));
                                assert(base.failed + picked(next, nc, false) =~= (base.failed + picked(items.take(j as int), cur, false)).push(
                                    item@,
                                ));
                                assert forall|k: int| 0 <= k < j + 1 implies removal_answered(self.remover, #[trigger] scan.items@[k]@, nc[k]) by {
                                    if k < j {
                                        assert(nc[k] == cur[k]);
                                    }
                                }
                                cur = nc;
                                cur_sz = cur_sz.push(bytes);
                            }
                        },
                    }
                    j = j + 1;
                }
                assert(items.take(j as int) =~= items);
            },
        }
        Ghost((cur, cur_sz))
    }

    /// Clean the scanned categories (only those in `only`, when given and
    /// non-empty). A category with a cleanup command is cleaned by running it
    /// (`run_command` says whether it succeeded); otherwise each item is
    /// measured and handed to the remover. Successes are counted and
    /// recorded for `sweep undo`; failures are kept for a retry.
    pub fn run<C: Fn(&str) -> bool, M: Fn(&str) -> (u64, u64)>(
        &self,
        scans: &[CategoryScan],
        only: Option<&[String]>,
        run_command: C,
        measure: M,
    ) -> (r: Result<CleanOutcome, String>)
        requires
            forall|p: &str| #[trigger] run_command.requires((p,)),
            forall|p: &str| #[trigger] measure.requires((p,)),
        ensures
            r matches Ok(o) && ({
                let sel = match only {
                    Some(v) => Some(v@.map_values(|s: String| s@)),
                    None => None,
                };
                &&& run_matches(o, scans@, sel, measure)
                &&& run_answered(o, scans@, sel, self.remover, run_command, measure)
                &&& undo_paths_kept(o)
            }),
    {
        let ghost sel = match only {
            Some(v) => Some(v@.map_values(|s: String| s@)),
            None => None::<Seq<Seq<char>>>,
        };
        let ghost mut oks: Seq<Seq<bool>> = Seq::empty();
        let ghost mut szs: Seq<Seq<u64>> = Seq::empty();
        let mut outcome = CleanOutcome {
            removed_bytes: 0,
            removed_items: 0,
            failed_items: 0,
            failed_paths: Vec::new(),
            undo_items: Vec::new(),
        };
        assert(outcome.undo_items@.map_values(|u: UndoItem| u.original_path@) =~= Seq::<Seq<char>>::empty());
        assert(outcome.failed_paths.deep_view() =~= Seq::<Seq<char>>::empty());
        assert(outcome.undo_items@.map_values(|u: UndoItem| u.size_bytes) =~= Seq::<u64>::empty());
        let mut s: usize = 0;
        while s < scans.len()
            invariant
                s <= scans@.len(),
                sel == match only {
                    Some(v) => Some(v@.map_values(|s: String| s@)),
                    None => None,
                },
                forall|p: &str| #[trigger] run_command.requires((p,)),
                forall|p: &str| #[trigger] measure.requires((p,)),
                outcomes_fit(scans@.take(s as int), sel, oks, szs, measure),
                forall|i: int| 0 <= i < s ==> answers_of(self.remover, run_command, #[trigger] scans@[i], sel, oks[i]),
                matches_effect(outcome, run_effect(scans@.take(s as int), sel, oks, szs)),
                undo_paths_kept(outcome),
            decreases scans@.len() - s,
        {
            let scan = &scans[s];
            let ghost base = run_effect(scans@.take(s as int), sel, oks, szs);
            let is_sel = is_selected(only, scan.category_id.as_str());
            let Ghost(res) = self.clean_scan(scan, is_sel, &mut outcome, &run_command, &measure, Ghost(sel), Ghost(base));
            proof {
                let ns = scans@.take(s + 1);
                let no = oks.push(res.0);
                let nz = szs.push(res.1);
                assert(ns.drop_last() =~= scans@.take(s as int));
                assert(ns.last() == scans@[s as int]);
                assert(no.drop_last() =~= oks);
                assert(nz.drop_last() =~= szs);
                assert(run_effect(ns, sel, no, nz) == then(base, scan_effect(scans@[s as int], sel, res.0, res.1)));
                assert(outcomes_fit(ns, sel, no, nz, measure)) by {
                    assert forall|i: int| 0 <= i < ns.len() implies (#[trigger] no[i]).len() == outcomes_needed(ns[i], sel) by {
                        if i < s {
                            assert(no[i] == oks[i]);
                            assert(ns[i] == scans@.take(s as int)[i]);
                        }
                    }
                    assert forall|i: int| 0 <= i < ns.len() implies (#[trigger] nz[i]).len() == sizes_needed(ns[i], sel)
                        && sizes_of_items(measure, ns[i], nz[i]) by {
                        if i < s {
                            assert(nz[i] == szs[i]);
                            assert(ns[i] == scans@.take(s as int)[i]);
                        }
                    }
                }
                assert forall|i: int| 0 <= i < s + 1 implies answers_of(self.remover, run_command, #[trigger] scans@[i], sel, no[i]) by {
                    if i < s {
                        assert(no[i] == oks[i]);
                    }
                }
                oks = no;
                szs = nz;
            }
            s = s + 1;
        }
        assert(scans@.take(s as int) =~= scans@);
        assert(run_effect(scans@, sel, oks, szs) == run_effect(scans@.take(s as int), sel, oks, szs));
        assert(run_answered(outcome, scans@, sel, self.remover, run_command, measure));
        Ok(outcome)
    }
}

/// `p` is an item of one of the scans whose category the run selects.
pub open spec fn scanned_item(p: Seq<char>, scans: Seq<CategoryScan>, only: Option<Seq<Seq<char>>>) -> bool {
    exists|s: int, j: int|
        0 <= s < scans.len() && selected(only, scans[s].category_id@) && 0 <= j < scans[s].items@.len()
            && #[trigger] scans[s].items@[j]@ == p
}

proof fn lemma_picked_members(items: Seq<Seq<char>>, ok: Seq<bool>, want: bool)
    ensures
        forall|k: int| 0 <= k < picked(items, ok, want).len() ==> items.contains(#[trigger] picked(items, ok, want)[k]),
    decreases ok.len(),
{
    if ok.len() > 0 && items.len() > 0 {
        lemma_picked_members(items.drop_last(), ok.drop_last(), want);
        let prev = picked(items.drop_last(), ok.drop_last(), want);
        assert forall|k: int| 0 <= k < picked(items, ok, want).len() implies items.contains(#[trigger] picked(items, ok, want)[k]) by {
            if k < prev.len() {
                assert(picked(items, ok, want)[k] == prev[k]);
                let j = choose|j: int| 0 <= j < items.drop_last().len() && items.drop_last()[j] == prev[k];
                assert(items[j] == prev[k]);
            } else {
                assert(picked(items, ok, want)[k] == items.last());
                assert(items[items.len() - 1] == items.last());
            }
        }
    }
}

proof fn lemma_trashed_scanned(scans: Seq<CategoryScan>, only: Option<Seq<Seq<char>>>, oks: Seq<Seq<bool>>, szs: Seq<Seq<u64>>)
    ensures
        forall|k: int|
            0 <= k < run_effect(scans, only, oks, szs).trashed.len() ==> scanned_item(
                #[trigger] run_effect(scans, only, oks, szs).trashed[k],
                scans,
                only,
            ),
    decreases scans.len(),
{
    if scans.len() > 0 && oks.len() > 0 && szs.len() > 0 {
        let pre = scans.drop_last();
        lemma_trashed_scanned(pre, only, oks.drop_last(), szs.drop_last());
        let prev = run_effect(pre, only, oks.drop_last(), szs.drop_last());
        let last = scans.last();
        let se = scan_effect(last, only, oks.last(), szs.last());
        let all = run_effect(scans, only, oks, szs);
        assert(all.trashed == prev.trashed + se.trashed);
        lemma_picked_members(last.items.deep_view(), oks.last(), true);
        assert forall|k: int| 0 <= k < all.trashed.len() implies scanned_item(#[trigger] all.trashed[k], scans, only) by {
            if k < prev.trashed.len() {
                assert(all.trashed[k] == prev.trashed[k]);
                assert(scanned_item(prev.trashed[k], pre, only));
                let (s, j) = choose|s: int, j: int|
                    0 <= s < pre.len() && selected(only, pre[s].category_id@) && 0 <= j < pre[s].items@.len()
                        && #[trigger] pre[s].items@[j]@ == prev.trashed[k];
                assert(scans[s] == pre[s]);
                assert(scans[s].items@[j]@ == all.trashed[k]);
            } else {
                let t = all.trashed[k];
                assert(t == se.trashed[k - prev.trashed.len()]);
                assert(selected(only, last.category_id@) && last.cleanup_command is None);
                assert(last.items.deep_view().contains(t));
                let j = choose|j: int| 0 <= j < last.items.deep_view().len() && last.items.deep_view()[j] == t;
                assert(scans[scans.len() - 1] == last);
                assert(scans[scans.len() - 1].items@[j]@ == t);
            }
        }
    }
}

/// A run trashes only items of the scans it was handed, and only of the
/// categories it selected.
pub proof fn lemma_run_trashes_only_scanned_items<M: Fn(&str) -> (u64, u64)>(
    o: CleanOutcome,
    scans: Seq<CategoryScan>,
    only: Option<Seq<Seq<char>>>,
    measure: M,
)
    requires
        run_matches(o, scans, only, measure),
    ensures
        forall|k: int| 0 <= k < o.undo_items@.len() ==> scanned_item(#[trigger] o.undo_items@[k].original_path@, scans, only),
{
    let (oks, szs) = choose|oks: Seq<Seq<bool>>, szs: Seq<Seq<u64>>|
        #![trigger run_effect(scans, only, oks, szs)]
        outcomes_fit(scans, only, oks, szs, measure) && matches_effect(o, run_effect(scans, only, oks, szs));
    lemma_trashed_scanned(scans, only, oks, szs);
    let e = run_effect(scans, only, oks, szs);
    assert forall|k: int| 0 <= k < o.undo_items@.len() implies scanned_item(#[trigger] o.undo_items@[k].original_path@, scans, only) by {
        assert(o.undo_items@.map_values(|u: UndoItem| u.original_path@)[k] == e.trashed[k]);
    }
}

/// Excluded space is never cleaned: when no scanned item is covered by
/// `excl`, no trashed item is either.
pub proof fn lemma_excluded_never_trashed<M: Fn(&str) -> (u64, u64)>(
    o: CleanOutcome,
    scans: Seq<CategoryScan>,
    only: Option<Seq<Seq<char>>>,
    measure: M,
    excl: ExclusionConfig,
)
    requires
        run_matches(o, scans, only, measure),
        forall|s: int, j: int| 0 <= s < scans.len() && 0 <= j < scans[s].items@.len() ==> !excluded_by(#[trigger] scans[s].items@[j]@, excl),
    ensures
        forall|k: int| 0 <= k < o.undo_items@.len() ==> !excluded_by(#[trigger] o.undo_items@[k].original_path@, excl),
{
    lemma_run_trashes_only_scanned_items(o, scans, only, measure);
    assert forall|k: int| 0 <= k < o.undo_items@.len() implies !excluded_by(#[trigger] o.undo_items@[k].original_path@, excl) by {
        let p = o.undo_items@[k].original_path@;
        assert(scanned_item(p, scans, only));
        let (s, j) = choose|s: int, j: int|
            0 <= s < scans.len() && selected(only, scans[s].category_id@) && 0 <= j < scans[s].items@.len()
                && #[trigger] scans[s].items@[j]@ == p;
        assert(!excluded_by(scans[s].items@[j]@, excl));
    }
}

/// A run given an empty id list selects exactly what a run given no list
/// does: every category.
pub proof fn lemma_empty_only_selects_all(id: Seq<char>)
    ensures
        selected(Some(Seq::<Seq<char>>::empty()), id) == selected(None, id),
        selected(None, id),
{
}

/// A run given a non-empty id list selects exactly the categories listed.
pub proof fn lemma_listed_only_selects_listed(ids: Seq<Seq<char>>, id: Seq<char>)
    requires
        ids.len() > 0,
    ensures
        selected(Some(ids), id) == ids.contains(id),
{
}

} // verus!
