//! What the system monitor makes of the machine's raw readings: a label for
//! each disk, the disk rows of a status snapshot, and the processes it lists
//! (largest memory first, ties by pid, at most a fixed number).
use vstd::prelude::*;

use crate::domain::models::{DiskStats, ProcessMemInfo};
use crate::sorting::{sort_desc, sorted_desc, SortKey, SpecKey};
use crate::text::{chars_of, owned, trim, trim_chars};

verus! {

/// How many processes a status snapshot lists.
pub const TOP_PROCESSES: usize = 10;

/// A disk's label: its name, or its mount point when the name is blank.
pub open spec fn disk_label_spec(name: Seq<char>, mount_point: Seq<char>) -> Seq<char> {
    if trim(name).len() == 0 {
        mount_point
    } else {
        name
    }
}

/// A disk's label: its name, or its mount point when the name is blank.
pub fn disk_label(name: &str, mount_point: &str) -> (r: String)
    ensures
        r@ == disk_label_spec(name@, mount_point@),
{
    if trim_chars(chars_of(name).as_slice()).len() == 0 {
        owned(mount_point)
    } else {
        owned(name)
    }
}

/// One disk as the machine reports it.
pub struct RawDisk {
    pub name: String,
    pub mount_point: String,
    pub total_bytes: u64,
    pub available_bytes: u64,
}

/// `d` is the status row of the raw disk `raw`: labelled, with the used
/// space the part of the total that is not available (none when more is
/// available than the total).
pub open spec fn disk_row(d: DiskStats, raw: RawDisk) -> bool {
    &&& d.name@ == disk_label_spec(raw.name@, raw.mount_point@)
    &&& d.mount_point@ == raw.mount_point@
    &&& d.total_bytes == raw.total_bytes
    &&& d.available_bytes == raw.available_bytes
    &&& d.used_bytes == (if raw.total_bytes >= raw.available_bytes {
        (raw.total_bytes - raw.available_bytes) as u64
    } else {
        0u64
    })
}

/// A disk with some capacity, which a snapshot lists.
pub open spec fn has_capacity() -> spec_fn(RawDisk) -> bool {
    |d: RawDisk| d.total_bytes > 0
}

/// The disk rows of a snapshot: one per raw disk with some capacity, in order.
pub fn disk_rows(raw: &Vec<RawDisk>) -> (r: Vec<DiskStats>)
    ensures
        r@.len() == raw@.filter(has_capacity()).len(),
        forall|k: int| 0 <= k < r@.len() ==> disk_row(#[trigger] r@[k], raw@.filter(has_capacity())[k]),
{
    let ghost keep = has_capacity();
    let mut out: Vec<DiskStats> = Vec::new();
    let mut i: usize = 0;
    while i < raw.len()
        invariant
            i <= raw@.len(),
            keep == has_capacity(),
            out@.len() == raw@.take(i as int).filter(keep).len(),
            forall|k: int| 0 <= k < out@.len() ==> disk_row(#[trigger] out@[k], raw@.take(i as int).filter(keep)[k]),
        decreases raw@.len() - i,
    {
        reveal_with_fuel(Seq::filter, 1);
        let ghost prev = raw@.take(i as int).filter(keep);
        assert(raw@.take(i + 1).drop_last() =~= raw@.take(i as int));
        assert(raw@.take(i + 1).last() == raw@[i as int]);
        let d = &raw[i];
        if d.total_bytes > 0 {
            let row = DiskStats {
                name: disk_label(d.name.as_str(), d.mount_point.as_str()),
                mount_point: owned(d.mount_point.as_str()),
                total_bytes: d.total_bytes,
                used_bytes: d.total_bytes.saturating_sub(d.available_bytes),
                available_bytes: d.available_bytes,
            };
            let ghost before = out@;
            out.push(row);
            assert(raw@.take(i + 1).filter(keep) == prev.push(raw@[i as int]));
            assert forall|k: int| 0 <= k < out@.len() implies disk_row(#[trigger] out@[k], raw@.take(i + 1).filter(keep)[k]) by {
                if k < before.len() {
                    assert(out@[k] == before[k]);
                }
            }
        } else {
            assert(raw@.take(i + 1).filter(keep) == prev);
        }
        i = i + 1;
    }
    assert(raw@.take(i as int) =~= raw@);
    out
}

/// A process ordered by pid, lowest first (as a descending key).
pub struct ByPid {
    pub process: ProcessMemInfo,
}

impl SpecKey for ByPid {
    open spec fn key_of(&self) -> u64 {
        (0xffff_ffffu32 - self.process.pid) as u64
    }
}

impl SortKey for ByPid {
    fn sort_key(&self) -> (k: u64) {
        (0xffff_ffffu32 - self.process.pid) as u64
    }
}

/// A process ordered by memory, largest first.
pub struct ByMemory {
    pub process: ProcessMemInfo,
}

impl SpecKey for ByMemory {
    open spec fn key_of(&self) -> u64 {
        self.process.memory_bytes
    }
}

impl SortKey for ByMemory {
    fn sort_key(&self) -> (k: u64) {
        self.process.memory_bytes
    }
}

/// The processes in listing order: by memory, largest first, and among equal
/// memory by pid, lowest first (a stable sort by memory of the list sorted by
/// pid).
pub open spec fn ranked(procs: Seq<ProcessMemInfo>) -> Seq<ProcessMemInfo> {
    let by_pid = sorted_desc(procs.map_values(|p: ProcessMemInfo| ByPid { process: p }));
    let by_mem = sorted_desc(by_pid.map_values(|w: ByPid| ByMemory { process: w.process }));
    by_mem.map_values(|w: ByMemory| w.process)
}

fn wrap_pid(v: Vec<ProcessMemInfo>) -> (r: Vec<ByPid>)
    ensures
        r@ == v@.map_values(|p: ProcessMemInfo| ByPid { process: p }),
{
    let ghost all = v@;
    let n = v.len();
    let mut rest = v;
    let mut out: Vec<ByPid> = Vec::new();
    let mut i: usize = 0;
    while i < n
        invariant
            n == all.len(),
            i <= n,
            rest@ == all.skip(i as int),
            out@ == all.take(i as int).map_values(|p: ProcessMemInfo| ByPid { process: p }),
        decreases n - i,
    {
        let p = rest.remove(0);
        assert(all[i as int] == p);
        out.push(ByPid { process: p });
        assert(all.take(i + 1).map_values(|p: ProcessMemInfo| ByPid { process: p }) =~= all.take(i as int).map_values(
            |p: ProcessMemInfo| ByPid { process: p },
        ).push(ByPid { process: all[i as int] }));
        i = i + 1;
        assert(rest@ =~= all.skip(i as int));
    }
    assert(all.take(n as int) =~= all);
    out
}

fn rewrap_memory(v: Vec<ByPid>) -> (r: Vec<ByMemory>)
    ensures
        r@ == v@.map_values(|w: ByPid| ByMemory { process: w.process }),
{
    let ghost all = v@;
    let n = v.len();
    let mut rest = v;
    let mut out: Vec<ByMemory> = Vec::new();
    let mut i: usize = 0;
    while i < n
        invariant
            n == all.len(),
            i <= n,
            rest@ == all.skip(i as int),
            out@ == all.take(i as int).map_values(|w: ByPid| ByMemory { process: w.process }),
        decreases n - i,
    {
        let w = rest.remove(0);
        assert(all[i as int] == w);
        out.push(ByMemory { process: w.process });
        assert(all.take(i + 1).map_values(|w: ByPid| ByMemory { process: w.process }) =~= all.take(i as int).map_values(
            |w: ByPid| ByMemory { process: w.process },
        ).push(ByMemory { process: all[i as int].process }));
        i = i + 1;
        assert(rest@ =~= all.skip(i as int));
    }
    assert(all.take(n as int) =~= all);
    out
}

/// The processes a snapshot lists: the first `limit` in listing order
/// (see [`ranked`]).
pub fn rank_processes(procs: Vec<ProcessMemInfo>, limit: usize) -> (r: Vec<ProcessMemInfo>)
    ensures
        r@ == ranked(procs@).take(if limit < procs@.len() { limit as int } else { procs@.len() as int }),
{
    let ghost orig = procs@;
    let by_pid = sort_desc(wrap_pid(procs));
    let by_mem = sort_desc(rewrap_memory(by_pid));
    let ghost all = by_mem@;
    let n = by_mem.len();
    let mut rest = by_mem;
    let mut out: Vec<ProcessMemInfo> = Vec::new();
    let mut i: usize = 0;
    proof {
        crate::sorting::lemma_sorted_desc_is_ordered_permutation(orig.map_values(|p: ProcessMemInfo| ByPid { process: p }));
        crate::sorting::lemma_sorted_desc_is_ordered_permutation(
            sorted_desc(orig.map_values(|p: ProcessMemInfo| ByPid { process: p })).map_values(
                |w: ByPid| ByMemory { process: w.process },
            ),
        );
    }
    proof {
        broadcast use vstd::seq_lib::group_to_multiset_ensures;
        let a = orig.map_values(|p: ProcessMemInfo| ByPid { process: p });
        let b = sorted_desc(a).map_values(|w: ByPid| ByMemory { process: w.process });
        assert(sorted_desc(a).len() == a.to_multiset().len());
        assert(sorted_desc(b).len() == b.to_multiset().len());
    }
    assert(all.map_values(|w: ByMemory| w.process) == ranked(orig));
    assert(n == orig.len());
    while i < n && i < limit
        invariant
            n == all.len(),
            i <= n,
            i <= limit,
            rest@ == all.skip(i as int),
            out@ == all.take(i as int).map_values(|w: ByMemory| w.process),
        decreases n - i,
    {
        let w = rest.remove(0);
        assert(all[i as int] == w);
        out.push(w.process);
        assert(all.take(i + 1).map_values(|w: ByMemory| w.process) =~= all.take(i as int).map_values(|w: ByMemory| w.process).push(
            all[i as int].process,
        ));
        i = i + 1;
        assert(rest@ =~= all.skip(i as int));
    }
    assert(all.take(i as int).map_values(|w: ByMemory| w.process) =~= all.map_values(|w: ByMemory| w.process).take(i as int));
    out
}

/// The listing order keeps every process exactly once in number, lists the
/// largest memory first, among equal memory the lower pid first, and lists
/// only processes it was given.
pub proof fn lemma_ranked_by_memory(procs: Seq<ProcessMemInfo>)
    ensures
        ranked(procs).len() == procs.len(),
        forall|i: int, j: int|
            0 <= i < j < ranked(procs).len() ==> #[trigger] ranked(procs)[i].memory_bytes >= #[trigger] ranked(procs)[j].memory_bytes,
        forall|i: int, j: int|
            0 <= i < j < ranked(procs).len() && #[trigger] ranked(procs)[i].memory_bytes == #[trigger] ranked(procs)[j].memory_bytes
                ==> ranked(procs)[i].pid <= ranked(procs)[j].pid,
        forall|i: int| 0 <= i < ranked(procs).len() ==> procs.contains(#[trigger] ranked(procs)[i]),
{
    broadcast use vstd::seq_lib::group_to_multiset_ensures;
    let a = procs.map_values(|p: ProcessMemInfo| ByPid { process: p });
    let sa = sorted_desc(a);
    let b = sa.map_values(|w: ByPid| ByMemory { process: w.process });
    let sb = sorted_desc(b);
    crate::sorting::lemma_sorted_desc_is_ordered_permutation(a);
    crate::sorting::lemma_sorted_desc_is_ordered_permutation(b);
    assert(sa.len() == a.to_multiset().len());
    assert(sb.len() == b.to_multiset().len());
    let r = ranked(procs);
    assert(r == sb.map_values(|w: ByMemory| w.process));
    assert forall|i: int, j: int| 0 <= i < j < r.len() implies #[trigger] r[i].memory_bytes >= #[trigger] r[j].memory_bytes by {
        assert(sb[i].key_of() >= sb[j].key_of());
    }
    let rank = |w: ByMemory| w.process.pid as int;
    assert(crate::sorting::ranked_asc(b, rank)) by {
        assert forall|i: int, j: int| 0 <= i < j < b.len() implies rank(#[trigger] b[i]) <= rank(#[trigger] b[j]) by {
            assert(sa[i].key_of() >= sa[j].key_of());
        }
    }
    crate::sorting::lemma_sorted_desc_stable(b, rank);
    assert forall|i: int, j: int| 0 <= i < j < r.len() && #[trigger] r[i].memory_bytes == #[trigger] r[j].memory_bytes implies r[i].pid
        <= r[j].pid by {
        assert(sb[i].key_of() == sb[j].key_of());
        assert(rank(sb[i]) <= rank(sb[j]));
    }
    assert forall|i: int| 0 <= i < r.len() implies procs.contains(#[trigger] r[i]) by {
        assert(sb.contains(sb[i]));
        assert(sb.to_multiset().count(sb[i]) > 0);
        assert(b.contains(sb[i]));
        let k = choose|k: int| 0 <= k < b.len() && b[k] == sb[i];
        assert(sa.contains(sa[k]));
        assert(sa.to_multiset().count(sa[k]) > 0);
        assert(a.contains(sa[k]));
        let j = choose|j: int| 0 <= j < a.len() && a[j] == sa[k];
        assert(procs[j] == r[i]);
    }
}

} // verus!
