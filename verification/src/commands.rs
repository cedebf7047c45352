//! The decisions the command line makes around the services: which categories
//! and scans a `--only` filter selects, how a `clean --kill` retry merges with
//! the first pass, which processes a kill list terminates, which scheduled
//! task a flag set asks for, and which processes `idle` and `bg` offer to
//! close or kill.
use vstd::prelude::*;

use crate::domain::models::{
    CategoryScan, CleanCategory, CleanOutcome, IdleSsdOffender, KillMode, KillRequest, LockedProcess, ProcessMemInfo,
    UndoItem, VolumeInfo,
};
use crate::exclusion::contains_string;
use crate::kill::{blocked_spec, KillService};
use crate::storage::{normalize_mount, normalize_mount_spec};
use crate::text::str_eq;

verus! {

/// An id a `--only` list selects: every id when the list is empty.
pub open spec fn wanted(only: Seq<Seq<char>>, id: Seq<char>) -> bool {
    only.len() == 0 || only.contains(id)
}

/// The `--only` selection as a predicate on categories.
pub open spec fn category_wanted(only: Seq<Seq<char>>) -> spec_fn(CleanCategory) -> bool {
    |c: CleanCategory| wanted(only, c.id@)
}

/// The `--only` selection as a predicate on scans.
pub open spec fn scan_wanted(only: Seq<Seq<char>>) -> spec_fn(CategoryScan) -> bool {
    |s: CategoryScan| wanted(only, s.category_id@)
}

/// The categories a `--only` list selects, in order.
pub fn filter_by_ids(categories: Vec<CleanCategory>, only: &Vec<String>) -> (r: Vec<CleanCategory>)
    ensures
        r@ == categories@.filter(category_wanted(only.deep_view())),
{
    let ghost all = categories@;
    let ghost keep = category_wanted(only.deep_view());
    let n = categories.len();
    let mut rest = categories;
    let mut out: Vec<CleanCategory> = Vec::new();
    let mut i: usize = 0;
    while i < n
        invariant
            n == all.len(),
            i <= n,
            rest@ == all.skip(i as int),
            keep == category_wanted(only.deep_view()),
            out@ == all.take(i as int).filter(keep),
        decreases n - i,
    {
        let ghost before = rest@;
        let c = rest.remove(0);
        assert(all[i as int] == c);
        assert(all.take(i + 1).drop_last() =~= all.take(i as int));
        assert(all.take(i + 1).last() == all[i as int]);
        reveal_with_fuel(Seq::filter, 1);
        if only.len() == 0 || contains_string(only, c.id.as_str()) {
            out.push(c);
        }
        i = i + 1;
        assert(rest@ =~= all.skip(i as int));
    }
    assert(all.take(n as int) =~= all);
    out
}

/// The scans a `--only` list selects, in order.
pub fn select_scans(scans: Vec<CategoryScan>, only: &Vec<String>) -> (r: Vec<CategoryScan>)
    ensures
        r@ == scans@.filter(scan_wanted(only.deep_view())),
{
    let ghost all = scans@;
    let ghost keep = scan_wanted(only.deep_view());
    let n = scans.len();
    let mut rest = scans;
    let mut out: Vec<CategoryScan> = Vec::new();
    let mut i: usize = 0;
    while i < n
        invariant
            n == all.len(),
            i <= n,
            rest@ == all.skip(i as int),
            keep == scan_wanted(only.deep_view()),
            out@ == all.take(i as int).filter(keep),
        decreases n - i,
    {
        let s = rest.remove(0);
        assert(all[i as int] == s);
        assert(all.take(i + 1).drop_last() =~= all.take(i as int));
        assert(all.take(i + 1).last() == all[i as int]);
        reveal_with_fuel(Seq::filter, 1);
        if only.len() == 0 || contains_string(only, s.category_id.as_str()) {
            out.push(s);
        }
        i = i + 1;
        assert(rest@ =~= all.skip(i as int));
    }
    assert(all.take(n as int) =~= all);
    out
}

/// The bytes of `scans` together.
pub open spec fn scan_bytes(scans: Seq<CategoryScan>) -> int
    decreases scans.len(),
{
    if scans.len() == 0 {
        0
    } else {
        scan_bytes(scans.drop_last()) + scans.last().total_bytes
    }
}

/// The bytes the scans would free together (the sum must fit a `u64`).
pub fn scans_total(scans: &Vec<CategoryScan>) -> (r: u64)
    requires
        scan_bytes(scans@) <= u64::MAX,
    ensures
        r == scan_bytes(scans@),
{
    let mut total: u64 = 0;
    let mut i: usize = 0;
    while i < scans.len()
        invariant
            i <= scans@.len(),
            total == scan_bytes(scans@.take(i as int)),
            scan_bytes(scans@) <= u64::MAX,
        decreases scans@.len() - i,
    {
        assert(scans@.take(i + 1).drop_last() =~= scans@.take(i as int));
        proof {
            lemma_scan_bytes_prefix(scans@, i + 1);
        }
        total = total + scans[i].total_bytes;
        i = i + 1;
    }
    assert(scans@.take(i as int) =~= scans@);
    total
}

/// A prefix's bytes are at most the whole's.
proof fn lemma_scan_bytes_prefix(scans: Seq<CategoryScan>, n: int)
    requires
        0 <= n <= scans.len(),
    ensures
        scan_bytes(scans.take(n)) <= scan_bytes(scans),
    decreases scans.len() - n,
{
    if n < scans.len() {
        lemma_scan_bytes_prefix(scans, n + 1);
        assert(scans.take(n + 1).drop_last() =~= scans.take(n));
    } else {
        assert(scans.take(n) =~= scans);
    }
}

/// Membership in `items`, as a predicate.
pub open spec fn among(items: Seq<Seq<char>>) -> spec_fn(Seq<char>) -> bool {
    |p: Seq<char>| items.contains(p)
}

/// The failed paths that belong to a category's scanned items, in order.
pub fn failed_in_category(failed: &Vec<String>, items: &Vec<String>) -> (r: Vec<String>)
    ensures
        r.deep_view() == failed.deep_view().filter(among(items.deep_view())),
{
    let ghost pred = among(items.deep_view());
    let mut out: Vec<String> = Vec::new();
    let mut i: usize = 0;
    while i < failed.len()
        invariant
            i <= failed@.len(),
            pred == among(items.deep_view()),
            out.deep_view() == failed.deep_view().take(i as int).filter(pred),
        decreases failed@.len() - i,
    {
        reveal_with_fuel(Seq::filter, 1);
        assert(failed.deep_view().take(i + 1).drop_last() =~= failed.deep_view().take(i as int));
        assert(failed.deep_view().take(i + 1).last() == failed.deep_view()[i as int]);
        if contains_string(items, failed[i].as_str()) {
            let p = failed[i].clone();
            let ghost before = out.deep_view();
            out.push(p);
            assert(out.deep_view() =~= before.push(failed.deep_view()[i as int]));
        }
        i = i + 1;
    }
    assert(failed.deep_view().take(i as int) =~= failed.deep_view());
    out
}

/// A `clean --kill` retry's outcome, keeping the first pass's trashed items
/// after the retry's so the undo journal records both.
pub fn merge_retry(retry: CleanOutcome, first: CleanOutcome) -> (r: CleanOutcome)
    ensures
        r.removed_bytes == retry.removed_bytes,
        r.removed_items == retry.removed_items,
        r.failed_items == retry.failed_items,
        r.failed_paths@ == retry.failed_paths@,
        r.undo_items@ == retry.undo_items@ + first.undo_items@,
{
    let mut merged = retry;
    let mut first_items = first.undo_items;
    merged.undo_items.append(&mut first_items);
    merged
}

/// The process ids a kill list terminates: each once, in order, never our own.
pub open spec fn kill_pids_spec(apps: Seq<LockedProcess>, own_pid: u32) -> Seq<u32>
    decreases apps.len(),
{
    if apps.len() == 0 {
        Seq::empty()
    } else {
        let prev = kill_pids_spec(apps.drop_last(), own_pid);
        let pid = apps.last().pid;
        if pid == own_pid || prev.contains(pid) {
            prev
        } else {
            prev.push(pid)
        }
    }
}

/// The process ids to terminate for a list of lock holders.
pub fn kill_pids(apps: &Vec<LockedProcess>, own_pid: u32) -> (r: Vec<u32>)
    ensures
        r@ == kill_pids_spec(apps@, own_pid),
{
    let mut pids: Vec<u32> = Vec::new();
    let mut i: usize = 0;
    while i < apps.len()
        invariant
            i <= apps@.len(),
            pids@ == kill_pids_spec(apps@.take(i as int), own_pid),
        decreases apps@.len() - i,
    {
        assert(apps@.take(i + 1).drop_last() =~= apps@.take(i as int));
        let pid = apps[i].pid;
        let mut seen = false;
        let mut k: usize = 0;
        while k < pids.len()
            invariant
                k <= pids@.len(),
                seen == exists|j: int| 0 <= j < k && pids@[j] == pid,
            decreases pids@.len() - k,
        {
            if pids[k] == pid {
                seen = true;
            }
            k = k + 1;
        }
        if pid != own_pid && !seen {
            pids.push(pid);
        }
        i = i + 1;
    }
    assert(apps@.take(i as int) =~= apps@);
    pids
}

/// The pids a kill list terminates are distinct, and never our own.
pub proof fn lemma_kill_pids_distinct_and_not_own(apps: Seq<LockedProcess>, own_pid: u32)
    ensures
        !kill_pids_spec(apps, own_pid).contains(own_pid),
        forall|a: int, b: int|
            0 <= a < b < kill_pids_spec(apps, own_pid).len() ==> #[trigger] kill_pids_spec(apps, own_pid)[a]
                != #[trigger] kill_pids_spec(apps, own_pid)[b],
    decreases apps.len(),
{
    if apps.len() > 0 {
        lemma_kill_pids_distinct_and_not_own(apps.drop_last(), own_pid);
        let prev = kill_pids_spec(apps.drop_last(), own_pid);
        let v = kill_pids_spec(apps, own_pid);
        if !(apps.last().pid == own_pid || prev.contains(apps.last().pid)) {
            assert forall|a: int, b: int| 0 <= a < b < v.len() implies #[trigger] v[a] != #[trigger] v[b] by {
                if b == v.len() - 1 {
                    assert(v[a] == prev[a]);
                    assert(prev.contains(v[a]));
                }
            }
            assert(!v.contains(own_pid)) by {
                if v.contains(own_pid) {
                    let j = choose|j: int| 0 <= j < v.len() && v[j] == own_pid;
                    if j < prev.len() {
                        assert(prev[j] == v[j]);
                    }
                }
            }
        }
    }
}

/// The volume `target` names: the first whose mount point matches it once
/// both are normalized (see [`normalize_mount`]).
pub fn find_volume(volumes: &Vec<VolumeInfo>, target: &str) -> (r: Option<usize>)
    ensures
        match r {
            Some(i) => i < volumes@.len() && normalize_mount_spec(volumes@[i as int].mount@) == normalize_mount_spec(target@)
                && forall|j: int| 0 <= j < i ==> normalize_mount_spec(#[trigger] volumes@[j].mount@) != normalize_mount_spec(target@),
            None => forall|j: int| 0 <= j < volumes@.len() ==> normalize_mount_spec(#[trigger] volumes@[j].mount@) != normalize_mount_spec(target@),
        },
{
    let want = normalize_mount(target);
    let mut i: usize = 0;
    while i < volumes.len()
        invariant
            want@ == normalize_mount_spec(target@),
            i <= volumes@.len(),
            forall|j: int| 0 <= j < i ==> normalize_mount_spec(#[trigger] volumes@[j].mount@) != normalize_mount_spec(target@),
        decreases volumes@.len() - i,
    {
        let m = normalize_mount(volumes[i].mount.as_str());
        if str_eq(m.as_str(), want.as_str()) {
            return Some(i);
        }
        i = i + 1;
    }
    None
}

/// What `sweep schedule` was asked to do.
#[derive(Debug, Clone, Copy, PartialEq, Eq, Structural)]
pub enum ScheduleAction {
    GuardStatus,
    GuardInstall,
    GuardRemove,
    Status,
    Install,
    Remove,
}

/// The `sweep schedule` action its flags ask for, the guard's flags first and
/// then status, install, remove; none when no flag is given.
pub fn schedule_action(install: bool, remove: bool, status: bool, guard_install: bool, guard_remove: bool, guard_status: bool) -> (r:
    Option<ScheduleAction>)
    ensures
        r == (if guard_status {
            Some(ScheduleAction::GuardStatus)
        } else if guard_install {
            Some(ScheduleAction::GuardInstall)
        } else if guard_remove {
            Some(ScheduleAction::GuardRemove)
        } else if status {
            Some(ScheduleAction::Status)
        } else if install {
            Some(ScheduleAction::Install)
        } else if remove {
            Some(ScheduleAction::Remove)
        } else {
            None
        }),
{
    if guard_status {
        Some(ScheduleAction::GuardStatus)
    } else if guard_install {
        Some(ScheduleAction::GuardInstall)
    } else if guard_remove {
        Some(ScheduleAction::GuardRemove)
    } else if status {
        Some(ScheduleAction::Status)
    } else if install {
        Some(ScheduleAction::Install)
    } else if remove {
        Some(ScheduleAction::Remove)
    } else {
        None
    }
}

/// `--kill` is refused without `--force`.
pub fn check_kill_flags(kill: bool, force: bool) -> (r: Result<(), String>)
    ensures
        r is Err <==> (kill && !force),
{
    if kill && !force {
        Err(crate::text::owned("`--kill` requires `--force` (and still confirms each process)"))
    } else {
        Ok(())
    }
}

/// A pid a `--only` list selects: every pid when the list is empty.
pub open spec fn pid_wanted(only: Seq<u32>, pid: u32) -> bool {
    only.len() == 0 || only.contains(pid)
}

fn pid_in(only: &Vec<u32>, pid: u32) -> (r: bool)
    ensures
        r == pid_wanted(only@, pid),
{
    if only.len() == 0 {
        return true;
    }
    let mut k: usize = 0;
    while k < only.len()
        invariant
            k <= only@.len(),
            only@.len() > 0,
            forall|j: int| 0 <= j < k ==> only@[j] != pid,
        decreases only@.len() - k,
    {
        if only[k] == pid {
            return true;
        }
        k = k + 1;
    }
    false
}

/// `req` asks to terminate process `pid` named `name` (of `size` bytes) in
/// `mode`, without consent yet.
pub open spec fn request_for(req: KillRequest, pid: u32, name: Seq<char>, size: u64, mode: KillMode) -> bool {
    &&& req.pid == pid
    &&& req.name@ == name
    &&& req.size_bytes == size
    &&& req.mode == mode
    &&& !req.consent
}

/// The `--only` selection as a predicate on offenders.
pub open spec fn offender_wanted(only: Seq<u32>) -> spec_fn(IdleSsdOffender) -> bool {
    |o: IdleSsdOffender| pid_wanted(only, o.pid)
}

/// The `--only` selection as a predicate on listed processes.
pub open spec fn process_wanted(only: Seq<u32>) -> spec_fn(ProcessMemInfo) -> bool {
    |p: ProcessMemInfo| pid_wanted(only, p.pid)
}

/// The termination requests `sweep idle --close/--kill` makes: one per
/// offender that `only` selects, in order, closing or (with `kill`) killing.
pub fn offender_targets(offenders: &Vec<IdleSsdOffender>, only: &Vec<u32>, kill: bool) -> (r: Vec<KillRequest>)
    ensures
        r@.len() == offenders@.filter(offender_wanted(only@)).len(),
        forall|k: int|
            0 <= k < r@.len() ==> request_for(
                #[trigger] r@[k],
                offenders@.filter(offender_wanted(only@))[k].pid,
                offenders@.filter(offender_wanted(only@))[k].name@,
                offenders@.filter(offender_wanted(only@))[k].memory_bytes,
                if kill { KillMode::Kill } else { KillMode::Close },
            ),
{
    let ghost pred = offender_wanted(only@);
    let ghost mode = if kill { KillMode::Kill } else { KillMode::Close };
    let mut out: Vec<KillRequest> = Vec::new();
    let mut i: usize = 0;
    while i < offenders.len()
        invariant
            i <= offenders@.len(),
            pred == offender_wanted(only@),
            mode == (if kill { KillMode::Kill } else { KillMode::Close }),
            out@.len() == offenders@.take(i as int).filter(pred).len(),
            forall|k: int|
                0 <= k < out@.len() ==> request_for(
                    #[trigger] out@[k],
                    offenders@.take(i as int).filter(pred)[k].pid,
                    offenders@.take(i as int).filter(pred)[k].name@,
                    offenders@.take(i as int).filter(pred)[k].memory_bytes,
                    mode,
                ),
        decreases offenders@.len() - i,
    {
        reveal_with_fuel(Seq::filter, 1);
        let ghost prev = offenders@.take(i as int).filter(pred);
        assert(offenders@.take(i + 1).drop_last() =~= offenders@.take(i as int));
        assert(offenders@.take(i + 1).last() == offenders@[i as int]);
        let o = &offenders[i];
        if pid_in(only, o.pid) {
            let req = KillRequest {
                pid: o.pid,
                name: o.name.clone(),
                size_bytes: o.memory_bytes,
                mode: if kill { KillMode::Kill } else { KillMode::Close },
                consent: false,
            };
            let ghost before = out@;
            out.push(req);
            assert(offenders@.take(i + 1).filter(pred) == prev.push(offenders@[i as int]));
            assert forall|k: int| 0 <= k < out@.len() implies request_for(
                #[trigger] out@[k],
                offenders@.take(i + 1).filter(pred)[k].pid,
                offenders@.take(i + 1).filter(pred)[k].name@,
                offenders@.take(i + 1).filter(pred)[k].memory_bytes,
                mode,
            ) by {
                if k < before.len() {
                    assert(out@[k] == before[k]);
                }
            }
        } else {
            assert(offenders@.take(i + 1).filter(pred) == prev);
        }
        i = i + 1;
    }
    assert(offenders@.take(i as int) =~= offenders@);
    out
}

/// The termination requests `sweep bg --kill` makes: a forced kill of each
/// listed process that `only` selects, in order.
pub fn process_targets(processes: &Vec<ProcessMemInfo>, only: &Vec<u32>) -> (r: Vec<KillRequest>)
    ensures
        r@.len() == processes@.filter(process_wanted(only@)).len(),
        forall|k: int|
            0 <= k < r@.len() ==> request_for(
                #[trigger] r@[k],
                processes@.filter(process_wanted(only@))[k].pid,
                processes@.filter(process_wanted(only@))[k].name@,
                processes@.filter(process_wanted(only@))[k].memory_bytes,
                KillMode::Kill,
            ),
{
    let ghost pred = process_wanted(only@);
    let mut out: Vec<KillRequest> = Vec::new();
    let mut i: usize = 0;
    while i < processes.len()
        invariant
            i <= processes@.len(),
            pred == process_wanted(only@),
            out@.len() == processes@.take(i as int).filter(pred).len(),
            forall|k: int|
                0 <= k < out@.len() ==> request_for(
                    #[trigger] out@[k],
                    processes@.take(i as int).filter(pred)[k].pid,
                    processes@.take(i as int).filter(pred)[k].name@,
                    processes@.take(i as int).filter(pred)[k].memory_bytes,
                    KillMode::Kill,
                ),
        decreases processes@.len() - i,
    {
        reveal_with_fuel(Seq::filter, 1);
        let ghost prev = processes@.take(i as int).filter(pred);
        assert(processes@.take(i + 1).drop_last() =~= processes@.take(i as int));
        assert(processes@.take(i + 1).last() == processes@[i as int]);
        let p = &processes[i];
        if pid_in(only, p.pid) {
            let req = KillRequest { pid: p.pid, name: p.name.clone(), size_bytes: p.memory_bytes, mode: KillMode::Kill, consent: false };
            let ghost before = out@;
            out.push(req);
            assert(processes@.take(i + 1).filter(pred) == prev.push(processes@[i as int]));
            assert forall|k: int| 0 <= k < out@.len() implies request_for(
                #[trigger] out@[k],
                processes@.take(i + 1).filter(pred)[k].pid,
                processes@.take(i + 1).filter(pred)[k].name@,
                processes@.take(i + 1).filter(pred)[k].memory_bytes,
                KillMode::Kill,
            ) by {
                if k < before.len() {
                    assert(out@[k] == before[k]);
                }
            }
        } else {
            assert(processes@.take(i + 1).filter(pred) == prev);
        }
        i = i + 1;
    }
    assert(processes@.take(i as int) =~= processes@);
    out
}

/// What to do next with one termination request.
#[derive(Debug, Clone, Copy, PartialEq, Eq, Structural)]
pub enum TerminationStep {
    /// a protected process: skip it
    SkipProtected,
    /// a forced kill: ask the user first
    AskConsent,
    /// a graceful close: go ahead
    Proceed,
}

/// The first gate a termination request meets: protected processes are
/// skipped, forced kills need the user's consent, graceful closes proceed.
pub fn termination_step(req: &KillRequest, self_pid: u32) -> (r: TerminationStep)
    ensures
        r == (if blocked_spec(req.pid, req.name@, self_pid) {
            TerminationStep::SkipProtected
        } else if req.mode == KillMode::Kill {
            TerminationStep::AskConsent
        } else {
            TerminationStep::Proceed
        }),
{
    if KillService::is_blocked(req, self_pid) {
        TerminationStep::SkipProtected
    } else {
        match req.mode {
            KillMode::Kill => TerminationStep::AskConsent,
            KillMode::Close => TerminationStep::Proceed,
        }
    }
}

} // verus!
