//! Which processes hold the files a clean could not remove (Windows).
//!
//! The system handle table is walked by the caller; every open disk-file
//! handle it resolves to a path is offered here. A path matches a target when
//! both are equal after [`normalize_target`] (verbatim prefixes dropped, case
//! folded). The scan can stop as soon as every target has been seen once, and
//! what it found is reported once per (process, path) pair.
use vstd::prelude::*;

use crate::domain::models::LockedProcess;
use crate::text::{chars_of, has_prefix, slice_chars, starts_with, str_eq, string_of, to_lowercase, unicode_lower};

verus! {

/// `s` with every leading copy of `p` removed.
pub open spec fn strip_all(s: Seq<char>, p: Seq<char>) -> Seq<char>
    decreases s.len(),
{
    if p.len() > 0 && p.len() <= s.len() && has_prefix(s, p) {
        strip_all(s.skip(p.len() as int), p)
    } else {
        s
    }
}

/// The `\\?\` verbatim prefix.
pub open spec fn verbatim_prefix() -> Seq<char> {
    seq!['\\', '\\', '?', '\\']
}

/// The `\??\` NT object prefix.
pub open spec fn nt_prefix() -> Seq<char> {
    seq!['\\', '?', '?', '\\']
}

/// A path as compared against the targets: verbatim and NT prefixes
/// dropped, then lower-cased.
pub open spec fn normalized(s: Seq<char>) -> Seq<char> {
    unicode_lower(strip_all(strip_all(s, verbatim_prefix()), nt_prefix()))
}

fn strip_leading(v: Vec<char>, p: &Vec<char>) -> (r: Vec<char>)
    requires
        p@.len() > 0,
    ensures
        r@ == strip_all(v@, p@),
{
    let mut cur = v;
    while cur.len() >= p.len() && starts_with(cur.as_slice(), p.as_slice())
        invariant
            p@.len() > 0,
            strip_all(cur@, p@) == strip_all(v@, p@),
        decreases cur@.len(),
    {
        cur = slice_chars(cur.as_slice(), p.len(), cur.len());
    }
    cur
}

/// A path as compared against the targets: `\\?\` and `\??\` prefixes
/// removed, then lower-cased.
pub fn normalize_target(s: &str) -> (r: String)
    ensures
        r@ == normalized(s@),
{
    let verbatim: Vec<char> = vec!['\\', '\\', '?', '\\'];
    let nt: Vec<char> = vec!['\\', '?', '?', '\\'];
    assert(verbatim@ == verbatim_prefix());
    assert(nt@ == nt_prefix());
    let a = strip_leading(chars_of(s), &verbatim);
    let b = strip_leading(a, &nt);
    let stripped = string_of(b.as_slice());
    to_lowercase(stripped.as_str())
}

/// Two paths name the same file for the scan.
pub fn paths_equal(resolved: &str, target: &str) -> (r: bool)
    ensures
        r == (normalized(resolved@) == normalized(target@)),
{
    let a = normalize_target(resolved);
    let b = normalize_target(target);
    str_eq(a.as_str(), b.as_str())
}

/// Rows `a` and `b` report the same process holding the same path.
pub open spec fn same_row(a: LockedProcess, b: LockedProcess) -> bool {
    a.pid == b.pid && a.path@ == b.path@
}

/// The rows with each (process, path) pair kept at its first occurrence.
pub open spec fn dedup_spec(rows: Seq<LockedProcess>) -> Seq<LockedProcess>
    decreases rows.len(),
{
    if rows.len() == 0 {
        Seq::empty()
    } else {
        let prev = dedup_spec(rows.drop_last());
        if exists|j: int| 0 <= j < rows.len() - 1 && same_row(#[trigger] rows[j], rows.last()) {
            prev
        } else {
            prev.push(rows.last())
        }
    }
}

/// Keep the first row of each (process, path) pair, in order.
pub fn dedup(rows: Vec<LockedProcess>) -> (r: Vec<LockedProcess>)
    ensures
        r@ == dedup_spec(rows@),
{
    let ghost all = rows@;
    let n = rows.len();
    let mut rest = rows;
    let mut out: Vec<LockedProcess> = Vec::new();
    let mut keys: Vec<(u32, String)> = Vec::new();
    let mut i: usize = 0;
    while i < n
        invariant
            n == all.len(),
            i <= n,
            rest@ == all.skip(i as int),
            out@ == dedup_spec(all.take(i as int)),
            keys@.len() == i,
            forall|k: int| #![trigger keys@[k]] 0 <= k < i ==> keys@[k].0 == all[k].pid && keys@[k].1@ == all[k].path@,
        decreases n - i,
    {
        let row = rest.remove(0);
        assert(all[i as int] == row);
        let ghost pre = all.take(i + 1);
        assert(pre.drop_last() =~= all.take(i as int));
        assert(pre.last() == row);
        let mut dup = false;
        let mut k: usize = 0;
        while k < keys.len()
            invariant
                k <= keys@.len(),
                keys@.len() == i,
                i < all.len(),
                row == all[i as int],
                forall|x: int| #![trigger keys@[x]] 0 <= x < i ==> keys@[x].0 == all[x].pid && keys@[x].1@ == all[x].path@,
                dup == exists|j: int| 0 <= j < k && same_row(#[trigger] all[j], row),
            decreases keys@.len() - k,
        {
            if keys[k].0 == row.pid && str_eq(keys[k].1.as_str(), row.path.as_str()) {
                assert(same_row(all[k as int], row));
                dup = true;
            }
            k = k + 1;
        }
        assert(dup == exists|j: int| 0 <= j < pre.len() - 1 && same_row(#[trigger] pre[j], pre.last())) by {
            if dup {
                let j = choose|j: int| 0 <= j < i && same_row(#[trigger] all[j], row);
                assert(pre[j] == all[j]);
            }
            if exists|j: int| 0 <= j < pre.len() - 1 && same_row(#[trigger] pre[j], pre.last()) {
                let j = choose|j: int| 0 <= j < pre.len() - 1 && same_row(#[trigger] pre[j], pre.last());
                assert(pre[j] == all[j]);
            }
        }
        keys.push((row.pid, row.path.clone()));
        if !dup {
            out.push(row);
        }
        i = i + 1;
        assert(rest@ =~= all.skip(i as int));
    }
    assert(all.take(n as int) =~= all);
    out
}

/// Deduplicated rows hold no (process, path) pair twice, and each is a row
/// of the input.
pub proof fn lemma_dedup_distinct(rows: Seq<LockedProcess>)
    ensures
        forall|a: int, b: int|
            0 <= a < b < dedup_spec(rows).len() ==> !same_row(#[trigger] dedup_spec(rows)[a], #[trigger] dedup_spec(rows)[b]),
        forall|a: int| 0 <= a < dedup_spec(rows).len() ==> rows.contains(#[trigger] dedup_spec(rows)[a]),
    decreases rows.len(),
{
    if rows.len() > 0 {
        let prev_rows = rows.drop_last();
        lemma_dedup_distinct(prev_rows);
        let prev = dedup_spec(prev_rows);
        let v = dedup_spec(rows);
        assert forall|a: int| 0 <= a < v.len() implies rows.contains(#[trigger] v[a]) by {
            if a < prev.len() {
                assert(v[a] == prev[a]);
                let j = choose|j: int| 0 <= j < prev_rows.len() && prev_rows[j] == prev[a];
                assert(rows[j] == prev_rows[j]);
            } else {
                assert(rows[rows.len() - 1] == v[a]);
            }
        }
        if !(exists|j: int| 0 <= j < rows.len() - 1 && same_row(#[trigger] rows[j], rows.last())) {
            assert forall|a: int, b: int| 0 <= a < b < v.len() implies !same_row(#[trigger] v[a], #[trigger] v[b]) by {
                if b == v.len() - 1 {
                    assert(v[a] == prev[a]);
                    let j = choose|j: int| 0 <= j < prev_rows.len() && prev_rows[j] == prev[a];
                    assert(rows[j] == prev_rows[j]);
                } else {
                    assert(v[a] == prev[a]);
                    assert(v[b] == prev[b]);
                }
            }
        }
    }
}

/// The matcher a handle-table walk feeds: the target paths, what was found
/// for them, and which (normalized) targets have been seen.
pub struct LockScan {
    targets: Vec<String>,
    keys: Vec<String>,
    found: Vec<LockedProcess>,
    seen: Vec<String>,
}

impl LockScan {
    #[verifier::type_invariant]
    spec fn keys_match(&self) -> bool {
        &&& self.keys@.len() == self.targets@.len()
        &&& forall|i: int| 0 <= i < self.keys@.len() ==> (#[trigger] self.keys@[i])@ == normalized(self.targets@[i]@)
    }

    /// The target paths.
    pub closed spec fn target_paths(&self) -> Seq<String> {
        self.targets@
    }

    /// The rows recorded so far.
    pub closed spec fn rows(&self) -> Seq<LockedProcess> {
        self.found@
    }

    /// The normalized targets seen so far.
    pub closed spec fn seen_keys(&self) -> Seq<Seq<char>> {
        self.seen.deep_view()
    }

    /// A scan for `targets`, with nothing found yet.
    pub fn new(targets: Vec<String>) -> (r: LockScan)
        ensures
            r.target_paths() == targets@,
            r.rows().len() == 0,
            r.seen_keys().len() == 0,
    {
        let mut keys: Vec<String> = Vec::new();
        let mut i: usize = 0;
        while i < targets.len()
            invariant
                i <= targets@.len(),
                keys@.len() == i,
                forall|k: int| 0 <= k < i ==> (#[trigger] keys@[k])@ == normalized(targets@[k]@),
            decreases targets@.len() - i,
        {
            keys.push(normalize_target(targets[i].as_str()));
            i = i + 1;
        }
        LockScan { targets, keys, found: Vec::new(), seen: Vec::new() }
    }

    /// The first target that `resolved` names, if any.
    pub fn target_for(&self, resolved: &str) -> (r: Option<usize>)
        ensures
            match r {
                Some(i) => i < self.target_paths().len() && normalized(self.target_paths()[i as int]@) == normalized(resolved@)
                    && forall|j: int| 0 <= j < i ==> normalized(#[trigger] self.target_paths()[j]@) != normalized(resolved@),
                None => forall|j: int|
                    0 <= j < self.target_paths().len() ==> normalized(#[trigger] self.target_paths()[j]@) != normalized(resolved@),
            },
    {
        proof {
            use_type_invariant(self);
        }
        let key = normalize_target(resolved);
        let mut i: usize = 0;
        while i < self.keys.len()
            invariant
                i <= self.keys@.len(),
                self.keys@.len() == self.targets@.len(),
                forall|x: int| 0 <= x < self.keys@.len() ==> (#[trigger] self.keys@[x])@ == normalized(self.targets@[x]@),
                key@ == normalized(resolved@),
                forall|j: int| 0 <= j < i ==> normalized(#[trigger] self.targets@[j]@) != key@,
            decreases self.keys@.len() - i,
        {
            if str_eq(self.keys[i].as_str(), key.as_str()) {
                assert(normalized(self.targets@[i as int]@) == key@);
                return Some(i);
            }
            i = i + 1;
        }
        None
    }

    /// Record that process `pid` (named `name`) holds target `target`.
    pub fn record(&mut self, pid: u32, name: String, target: usize)
        requires
            target < old(self).target_paths().len(),
        ensures
            final(self).target_paths() == old(self).target_paths(),
            final(self).rows() == old(self).rows().push(
                LockedProcess { pid, name, path: old(self).target_paths()[target as int] },
            ),
            final(self).seen_keys() == (if old(self).seen_keys().contains(normalized(old(self).target_paths()[target as int]@)) {
                old(self).seen_keys()
            } else {
                old(self).seen_keys().push(normalized(old(self).target_paths()[target as int]@))
            }),
    {
        proof {
            use_type_invariant(&*self);
        }
        let path = self.targets[target].clone();
        let key = self.keys[target].clone();
        let mut already = false;
        let mut k: usize = 0;
        while k < self.seen.len()
            invariant
                k <= self.seen@.len(),
                already == exists|j: int| 0 <= j < k && (#[trigger] self.seen.deep_view()[j]) == key@,
            decreases self.seen@.len() - k,
        {
            if str_eq(self.seen[k].as_str(), key.as_str()) {
                assert(self.seen.deep_view()[k as int] == key@);
                already = true;
            }
            k = k + 1;
        }
        let mut found: Vec<LockedProcess> = Vec::new();
        std::mem::swap(&mut found, &mut self.found);
        found.push(LockedProcess { pid, name, path });
        self.found = found;
        if !already {
            let mut seen: Vec<String> = Vec::new();
            std::mem::swap(&mut seen, &mut self.seen);
            let ghost before = seen.deep_view();
            seen.push(key);
            assert(seen.deep_view() =~= before.push(key@));
            self.seen = seen;
        }
    }

    /// Every target has been seen (and there is at least one): the walk can
    /// stop.
    pub fn all_found(&self) -> (r: bool)
        ensures
            r == (self.target_paths().len() > 0 && forall|i: int|
                0 <= i < self.target_paths().len() ==> self.seen_keys().contains(normalized(#[trigger] self.target_paths()[i]@))),
    {
        proof {
            use_type_invariant(self);
        }
        if self.keys.len() == 0 {
            return false;
        }
        let mut i: usize = 0;
        while i < self.keys.len()
            invariant
                i <= self.keys@.len(),
                self.keys@.len() == self.targets@.len(),
                forall|x: int| 0 <= x < self.keys@.len() ==> (#[trigger] self.keys@[x])@ == normalized(self.targets@[x]@),
                forall|j: int| 0 <= j < i ==> self.seen.deep_view().contains(normalized(#[trigger] self.targets@[j]@)),
            decreases self.keys@.len() - i,
        {
            let mut hit = false;
            let mut k: usize = 0;
            while k < self.seen.len()
                invariant
                    k <= self.seen@.len(),
                    i < self.keys@.len(),
                    hit == exists|j: int| 0 <= j < k && (#[trigger] self.seen.deep_view()[j]) == self.keys@[i as int]@,
                decreases self.seen@.len() - k,
            {
                if str_eq(self.seen[k].as_str(), self.keys[i].as_str()) {
                    assert(self.seen.deep_view()[k as int] == self.keys@[i as int]@);
                    hit = true;
                }
                k = k + 1;
            }
            if !hit {
                assert(!self.seen.deep_view().contains(normalized(self.targets@[i as int]@)));
                return false;
            }
            i = i + 1;
        }
        true
    }

    /// What the scan found, each (process, path) pair once.
    pub fn into_locked(self) -> (r: Vec<LockedProcess>)
        ensures
            r@ == dedup_spec(self.rows()),
    {
        dedup(self.found)
    }
}

} // verus!
