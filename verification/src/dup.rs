//! Duplicate files among the indexed ones: files are bucketed by size (only
//! same-size files can be duplicates), same-size files are hashed, and every
//! set of two or more with one hash is a group. Groups are reported by the
//! bytes they waste, largest first.
use vstd::prelude::*;

use crate::domain::traits::IndexStore;
use crate::sorting::{is_asc, sort_by_text, sort_desc, sorted_asc, SortKey, SpecKey, SpecTextKey, TextKey};
use crate::text::chars_of;

verus! {

#[derive(Debug, Clone)]
pub struct DuplicateGroup {
    pub size_bytes: u64,
    /// sorted ascending; the first one is treated as the "keeper"
    pub paths: Vec<String>,
    pub wasted_bytes: u64,
}

/// Hashes file contents. Hash values only need to be comparable within one run.
pub trait FileHasher {
    fn hash_file(&self, path: &str) -> Result<u64, String>;
}

impl SpecKey for DuplicateGroup {
    open spec fn key_of(&self) -> u64 {
        self.wasted_bytes
    }
}

impl SortKey for DuplicateGroup {
    fn sort_key(&self) -> (k: u64) {
        self.wasted_bytes
    }
}

impl SpecTextKey for String {
    open spec fn text_key(&self) -> Seq<char> {
        self@
    }
}

impl TextKey for String {
    fn text_key_of(&self) -> (k: Vec<char>) {
        chars_of(self.as_str())
    }
}

/// The paths of the entries whose number is `n`, in order.
pub open spec fn paths_with(entries: Seq<(String, u64)>, n: u64) -> Seq<Seq<char>> {
    entries.filter(numbered(n)).map_values(path_view())
}

/// Whether an entry's number is `n`.
pub open spec fn numbered(n: u64) -> spec_fn((String, u64)) -> bool {
    |e: (String, u64)| e.1 == n
}

/// An entry's path.
pub open spec fn path_view() -> spec_fn((String, u64)) -> Seq<char> {
    |e: (String, u64)| e.0@
}

/// `buckets` splits `entries` by their number: one bucket per number that
/// occurs, none twice, each holding that number's paths in order.
pub open spec fn partitions(buckets: Seq<(u64, Vec<String>)>, entries: Seq<(String, u64)>) -> bool {
    &&& forall|i: int, j: int| 0 <= i < j < buckets.len() ==> buckets[i].0 != buckets[j].0
    &&& forall|i: int| 0 <= i < buckets.len() ==> #[trigger] buckets[i].1.deep_view() == paths_with(entries, buckets[i].0)
    &&& forall|k: int| #![trigger entries[k]] 0 <= k < entries.len() ==> exists|i: int| 0 <= i < buckets.len() && #[trigger] buckets[i].0 == entries[k].1
}

proof fn lemma_paths_with_push(entries: Seq<(String, u64)>, e: (String, u64), n: u64)
    ensures
        paths_with(entries.push(e), n) == if e.1 == n {
            paths_with(entries, n).push(e.0@)
        } else {
            paths_with(entries, n)
        },
{
    reveal_with_fuel(Seq::filter, 1);
    assert(entries.push(e).drop_last() =~= entries);
    if e.1 == n {
        assert(entries.push(e).filter(|x: (String, u64)| x.1 == n) == entries.filter(|x: (String, u64)| x.1 == n).push(e));
        assert(paths_with(entries.push(e), n) =~= paths_with(entries, n).push(e.0@));
    } else {
        assert(entries.push(e).filter(|x: (String, u64)| x.1 == n) == entries.filter(|x: (String, u64)| x.1 == n));
    }
}

proof fn lemma_no_match(entries: Seq<(String, u64)>, n: u64)
    requires
        forall|k: int| 0 <= k < entries.len() ==> entries[k].1 != n,
    ensures
        paths_with(entries, n).len() == 0,
    decreases entries.len(),
{
    if entries.len() > 0 {
        let pre = entries.drop_last();
        assert forall|k: int| 0 <= k < pre.len() implies pre[k].1 != n by {
            assert(pre[k] == entries[k]);
        }
        lemma_no_match(pre, n);
        lemma_paths_with_push(pre, entries.last(), n);
        assert(pre.push(entries.last()) =~= entries);
    }
}

/// Add one entry to its bucket (appending a new bucket for a new number),
/// or, with `by_size_desc`, keep the buckets in descending order of number.
#[verifier::loop_isolation(false)]
fn add_to_bucket(buckets: &mut Vec<(u64, Vec<String>)>, entry: (String, u64), by_size_desc: bool, Ghost(seen): Ghost<Seq<(String, u64)>>)
    requires
        partitions(old(buckets)@, seen),
        by_size_desc ==> forall|i: int, j: int| 0 <= i < j < old(buckets)@.len() ==> old(buckets)@[i].0 > old(buckets)@[j].0,
    ensures
        partitions(final(buckets)@, seen.push(entry)),
        by_size_desc ==> forall|i: int, j: int| 0 <= i < j < final(buckets)@.len() ==> final(buckets)@[i].0 > final(buckets)@[j].0,
{
    let n = entry.1;
    let ghost after = seen.push(entry);
    let ghost old_b = buckets@;
    proof {
        assert forall|m: u64| #[trigger] paths_with(after, m) == if entry.1 == m {
            paths_with(seen, m).push(entry.0@)
        } else {
            paths_with(seen, m)
        } by {
            lemma_paths_with_push(seen, entry, m);
        }
        assert forall|k: int| 0 <= k < seen.len() implies after[k] == seen[k] by {}
    }
    let mut j: usize = 0;
    while j < buckets.len()
        invariant
            j <= buckets@.len(),
            buckets@ == old_b,
            forall|x: int| 0 <= x < j ==> buckets@[x].0 != n,
        decreases buckets@.len() - j,
    {
        if buckets[j].0 == n {
            let mut b: Vec<(u64, Vec<String>)> = Vec::new();
            std::mem::swap(&mut b, buckets);
            let mut slot = b.remove(j);
            let ghost prev_paths = slot.1.deep_view();
            slot.1.push(entry.0);
            assert(slot.1.deep_view() =~= prev_paths.push(after.last().0@));
            b.insert(j, slot);
            std::mem::swap(&mut b, buckets);
            proof {
                assert forall|i: int| 0 <= i < buckets@.len() implies #[trigger] buckets@[i].1.deep_view() == paths_with(after, buckets@[i].0) by {
                    if i != j {
                        assert(buckets@[i] == old_b[i]);
                    }
                }
                assert forall|k: int| #![trigger after[k]] 0 <= k < after.len() implies exists|i: int| 0 <= i < buckets@.len() && #[trigger] buckets@[i].0 == after[k].1 by {
                    if k < seen.len() {
                        let i = choose|i: int| 0 <= i < old_b.len() && #[trigger] old_b[i].0 == seen[k].1;
                        assert(buckets@[i].0 == old_b[i].0);
                    } else {
                        assert(buckets@[j as int].0 == n);
                    }
                }
                assert forall|x: int, y: int| 0 <= x < y < buckets@.len() implies buckets@[x].0 != buckets@[y].0 by {
                    assert(buckets@[x].0 == old_b[x].0 && buckets@[y].0 == old_b[y].0);
                }
            }
            return;
        }
        j = j + 1;
    }
    // A new number: find its place.
    let mut p: usize = buckets.len();
    if by_size_desc {
        p = 0;
        while p < buckets.len() && buckets[p].0 > n
            invariant
                p <= buckets@.len(),
                buckets@ == old_b,
                forall|x: int| 0 <= x < p ==> buckets@[x].0 > n,
            decreases buckets@.len() - p,
        {
            p = p + 1;
        }
    }
    let mut paths: Vec<String> = Vec::new();
    paths.push(entry.0);
    assert(paths.deep_view() =~= seq![after.last().0@]);
    proof {
        assert forall|k: int| 0 <= k < seen.len() implies seen[k].1 != n by {
            let i = choose|i: int| 0 <= i < old_b.len() && #[trigger] old_b[i].0 == seen[k].1;
        }
        lemma_no_match(seen, n);
        assert(paths_with(seen, n) =~= Seq::<Seq<char>>::empty());
        assert(paths_with(after, n) =~= seq![entry.0@]);
    }
    buckets.insert(p, (n, paths));
    proof {
        let nb = buckets@;
        assert forall|i: int| 0 <= i < nb.len() implies #[trigger] nb[i].1.deep_view() == paths_with(after, nb[i].0) by {
            if i < p {
                assert(nb[i] == old_b[i]);
            } else if i > p {
                assert(nb[i] == old_b[i - 1]);
            }
        }
        assert forall|k: int| #![trigger after[k]] 0 <= k < after.len() implies exists|i: int| 0 <= i < nb.len() && #[trigger] nb[i].0 == after[k].1 by {
            if k < seen.len() {
                let i = choose|i: int| 0 <= i < old_b.len() && #[trigger] old_b[i].0 == seen[k].1;
                if i < p {
                    assert(nb[i] == old_b[i]);
                } else {
                    assert(nb[i + 1] == old_b[i]);
                }
            } else {
                assert(nb[p as int].0 == n);
            }
        }
        assert forall|x: int, y: int| 0 <= x < y < nb.len() implies nb[x].0 != nb[y].0 by {
            let ox = if x < p { x } else { x - 1 };
            let oy = if y < p { y } else { y - 1 };
            if x != p && y != p {
                assert(nb[x] == old_b[ox] && nb[y] == old_b[oy]);
            } else if x == p {
                assert(nb[y] == old_b[oy]);
            } else {
                assert(nb[x] == old_b[ox]);
            }
        }
        if by_size_desc {
            assert forall|x: int, y: int| 0 <= x < y < nb.len() implies nb[x].0 > nb[y].0 by {
                let ox = if x < p { x } else { x - 1 };
                let oy = if y < p { y } else { y - 1 };
                if x != p && y != p {
                    assert(nb[x] == old_b[ox] && nb[y] == old_b[oy]);
                } else if x == p {
                    assert(nb[y] == old_b[oy]);
                    if p < old_b.len() {
                        assert(!(old_b[p as int].0 > n));
                        assert(old_b[p as int].0 != n);
                        if oy > p {
                            assert(old_b[p as int].0 > old_b[oy].0);
                        }
                    }
                } else {
                    assert(nb[x] == old_b[ox]);
                }
            }
        }
    }
}

/// Bucket entries by number: with `by_size_desc` the buckets come in
/// descending order of number, otherwise in order of first appearance.
pub fn bucket(entries: Vec<(String, u64)>, by_size_desc: bool) -> (r: Vec<(u64, Vec<String>)>)
    ensures
        partitions(r@, entries@),
        by_size_desc ==> forall|i: int, j: int| 0 <= i < j < r@.len() ==> r@[i].0 > r@[j].0,
{
    let ghost all = entries@;
    let mut rest = entries;
    let mut out: Vec<(u64, Vec<String>)> = Vec::new();
    let mut done: usize = 0;
    let n = rest.len();
    proof {
        assert(all.skip(0) =~= all);
        assert(all.take(0) =~= Seq::<(String, u64)>::empty());
    }
    while rest.len() > 0
        invariant
            n == all.len(),
            done + rest@.len() == n,
            rest@ == all.skip(done as int),
            partitions(out@, all.take(done as int)),
            by_size_desc ==> forall|i: int, j: int| 0 <= i < j < out@.len() ==> out@[i].0 > out@[j].0,
        decreases rest@.len(),
    {
        let ghost before = rest@;
        let e = rest.remove(0);
        assert(e == all[done as int]);
        add_to_bucket(&mut out, e, by_size_desc, Ghost(all.take(done as int)));
        assert(all.take(done as int).push(e) =~= all.take(done + 1));
        done = done + 1;
        assert(rest@ =~= all.skip(done as int));
    }
    assert(all.take(n as int) =~= all);
    out
}

/// The bytes a group of `count` copies of a `size`-byte file wastes (every
/// copy but one), saturating.
pub open spec fn wasted_spec(size: u64, count: nat) -> u64 {
    if size * (count - 1) > u64::MAX {
        u64::MAX
    } else {
        (size * (count - 1)) as u64
    }
}

fn wasted(size: u64, count: usize) -> (r: u64)
    requires
        count >= 1,
    ensures
        r == wasted_spec(size, count as nat),
{
    let copies = (count - 1) as u64;
    assert((size as u128) * (copies as u128) <= 0xffff_ffff_ffff_ffffu128 * 0xffff_ffff_ffff_ffffu128) by (nonlinear_arith)
        requires
            size <= 0xffff_ffff_ffff_ffffu64,
            copies <= 0xffff_ffff_ffff_ffffu64,
    ;
    let wide = (size as u128) * (copies as u128);
    assert(wide == size * copies) by (nonlinear_arith)
        requires
            wide == (size as u128) * (copies as u128),
    ;
    if wide > u64::MAX as u128 {
        u64::MAX
    } else {
        wide as u64
    }
}

/// A reported group: two or more paths, sorted, with their size and waste.
pub open spec fn well_formed_group(g: DuplicateGroup) -> bool {
    &&& g.paths@.len() >= 2
    &&& g.wasted_bytes == wasted_spec(g.size_bytes, g.paths@.len())
    &&& g.size_bytes > 0
}

/// `p` is the path of one of `files` whose size is `n`.
pub open spec fn indexed_as(p: Seq<char>, files: Seq<(String, u64)>, n: u64) -> bool {
    exists|k: int| 0 <= k < files.len() && files[k].1 == n && #[trigger] files[k].0@ == p
}

/// A well-formed group whose every path is one of `files` with the group's
/// size.
pub open spec fn group_of(g: DuplicateGroup, files: Seq<(String, u64)>) -> bool {
    &&& well_formed_group(g)
    &&& forall|j: int| 0 <= j < g.paths@.len() ==> indexed_as(#[trigger] g.paths@[j]@, files, g.size_bytes)
}

proof fn lemma_paths_with_member(entries: Seq<(String, u64)>, n: u64, i: int)
    requires
        0 <= i < paths_with(entries, n).len(),
    ensures
        exists|k: int| 0 <= k < entries.len() && entries[k].1 == n && entries[k].0@ == paths_with(entries, n)[i],
{
    let pred = numbered(n);
    let f = entries.filter(pred);
    entries.lemma_filter_pred(pred, i);
    assert(f.contains(f[i]));
    entries.lemma_filter_contains_rev(pred, f[i]);
    let k = choose|k: int| 0 <= k < entries.len() && entries[k] == f[i];
    assert(entries[k].0@ == paths_with(entries, n)[i]);
}

/// Finds duplicate groups among the indexed files.
pub struct DupFinder<S: IndexStore, H: FileHasher> {
    pub store: S,
    pub hasher: H,
}

impl<S: IndexStore, H: FileHasher> DupFinder<S, H> {
    pub fn new(store: S, hasher: H) -> (r: Self)
        ensures
            r.store == store,
            r.hasher == hasher,
    {
        DupFinder { store, hasher }
    }

    /// Duplicate groups among the indexed files of at least `min_size` bytes
    /// (see [`duplicate_groups`]): the files are those the store lists for
    /// `min_size`, hashed with this finder's hasher; the store's error when it
    /// cannot list them.
    pub fn find(&self, min_size: u64, max_groups: usize) -> (r: Result<Vec<DuplicateGroup>, String>)
        ensures
            r matches Err(e) ==> call_ensures(S::files_by_size, (&self.store, min_size), Err::<Vec<(String, u64)>, String>(e)),
            r matches Ok(gs) ==> exists|files: Seq<(String, u64)>|
                listed_for(self.store, min_size, files) && #[trigger] found_among(self.hasher, files, max_groups, gs@),
    {
        let listing = self.store.files_by_size(min_size);
        assert(call_ensures(S::files_by_size, (&self.store, min_size), listing));
        match listing {
            Ok(files) => {
                let ghost listed = files;
                assert(listed_for(self.store, min_size, listed@));
                let gs = self.groups_among(files, max_groups);
                assert(found_among(self.hasher, listed@, max_groups, gs@));
                assert(exists|files: Seq<(String, u64)>|
                    listed_for(self.store, min_size, files) && #[trigger] found_among(self.hasher, files, max_groups, gs@));
                let res: Result<Vec<DuplicateGroup>, String> = Ok(gs);
                assert(res->Ok_0 == gs);
                assert(res->Ok_0@ == gs@);
                res
            },
            Err(e) => Err(e),
        }
    }

    /// [`duplicate_groups`] of `files`, hashing with this finder's hasher.
    pub fn groups_among(&self, files: Vec<(String, u64)>, max_groups: usize) -> (gs: Vec<DuplicateGroup>)
        ensures
            found_among(self.hasher, files@, max_groups, gs@),
    {
        let ghost fs = files@;
        let hash = |p: &str| -> (r: Result<u64, String>)
            ensures
                call_ensures(H::hash_file, (&self.hasher, p), r),
            { self.hasher.hash_file(p) };
        let gs = duplicate_groups(files, &hash, max_groups);
        proof {
            assert forall|i: int| 0 <= i < gs@.len() implies hashed_alike(self.hasher, #[trigger] gs@[i]) by {
                let g = gs@[i];
                assert(one_hash(hash, g));
                let h = choose|h: u64| #[trigger] shares_hash(hash, g, h);
                assert forall|j: int| 0 <= j < g.paths@.len() implies hasher_gave(self.hasher, #[trigger] g.paths@[j]@, Ok::<u64, String>(h)) by {
                    assert(hash_answer(hash, g.paths@[j]@, h));
                    let t = choose|t: &str| t@ == g.paths@[j]@ && #[trigger] call_ensures(hash, (t,), Ok::<u64, String>(h));
                    assert(call_ensures(H::hash_file, (&self.hasher, t), Ok::<u64, String>(h)));
                }
                assert(hasher_shares(self.hasher, g, h));
            }
            if gs@.len() < max_groups {
                assert forall|a: int, b: int, h: u64|
                    #[trigger] same_by_hasher(self.hasher, fs, a, b, h) implies exists|i: int|
                        0 <= i < gs@.len() && lists(gs@[i], fs[a].0@) && lists(gs@[i], fs[b].0@) by {
                    assert forall|t: &str, r: Result<u64, String>| t@ == fs[a].0@ && #[trigger] call_ensures(hash, (t,), r) implies r
                        == Ok::<u64, String>(h) by {
                        assert(call_ensures(H::hash_file, (&self.hasher, t), r));
                    }
                    assert forall|t: &str, r: Result<u64, String>| t@ == fs[b].0@ && #[trigger] call_ensures(hash, (t,), r) implies r
                        == Ok::<u64, String>(h) by {
                        assert(call_ensures(H::hash_file, (&self.hasher, t), r));
                    }
                    assert(same_content(hash, fs, a, b, h));
                }
            }
        }
        gs
    }
}

/// `store` answered `files` (as a vector) when asked for the files of at
/// least `min_size` bytes.
pub open spec fn listed_for<S: IndexStore>(store: S, min_size: u64, files: Seq<(String, u64)>) -> bool {
    exists|v: Vec<(String, u64)>|
        v@ == files && #[trigger] call_ensures(S::files_by_size, (&store, min_size), Ok::<Vec<(String, u64)>, String>(v))
}

/// `hasher` answered `r` for the path `p`.
pub open spec fn hasher_gave<H: FileHasher>(hasher: H, p: Seq<char>, r: Result<u64, String>) -> bool {
    exists|s: &str| s@ == p && #[trigger] call_ensures(H::hash_file, (&hasher, s), r)
}

/// `hasher` answered `Ok(h)` for every path of `g`.
pub open spec fn hasher_shares<H: FileHasher>(hasher: H, g: DuplicateGroup, h: u64) -> bool {
    forall|j: int| 0 <= j < g.paths@.len() ==> hasher_gave(hasher, #[trigger] g.paths@[j]@, Ok::<u64, String>(h))
}

/// `hasher` answered one and the same `Ok` hash for every path of `g`; so a
/// file whose hash fails on every call is in no group.
pub open spec fn hashed_alike<H: FileHasher>(hasher: H, g: DuplicateGroup) -> bool {
    exists|h: u64| #[trigger] hasher_shares(hasher, g, h)
}

/// Every answer of `hasher` for the path `p` is `Ok(h)`.
pub open spec fn hasher_always<H: FileHasher>(hasher: H, p: Seq<char>, h: u64) -> bool {
    forall|s: &str, r: Result<u64, String>| s@ == p && #[trigger] call_ensures(H::hash_file, (&hasher, s), r) ==> r == Ok::<
        u64,
        String,
    >(h)
}

/// Files `a` and `b` of `files` are two paths of one nonzero size that
/// `hasher` always gives one and the same hash `h`.
pub open spec fn same_by_hasher<H: FileHasher>(hasher: H, files: Seq<(String, u64)>, a: int, b: int, h: u64) -> bool {
    &&& 0 <= a < files.len()
    &&& 0 <= b < files.len()
    &&& files[a].0@ != files[b].0@
    &&& files[a].1 == files[b].1
    &&& files[a].1 > 0
    &&& hasher_always(hasher, files[a].0@, h)
    &&& hasher_always(hasher, files[b].0@, h)
}

/// `gs` are duplicate groups among `files` as hashed by `hasher`: at most
/// `max_groups`, largest waste first; each a well-formed group of listed
/// files of its size, its paths ascending, all with one hash; and, when
/// fewer than `max_groups` came back, any two paths of one nonzero size that
/// `hasher` always gives one hash are listed in one group.
pub open spec fn found_among<H: FileHasher>(hasher: H, files: Seq<(String, u64)>, max_groups: usize, gs: Seq<DuplicateGroup>) -> bool {
    &&& gs.len() <= max_groups
    &&& forall|i: int|
        0 <= i < gs.len() ==> group_of(#[trigger] gs[i], files) && is_asc(gs[i].paths@) && hashed_alike(hasher, gs[i])
    &&& forall|i: int, j: int| 0 <= i < j < gs.len() ==> gs[i].wasted_bytes >= gs[j].wasted_bytes
    &&& gs.len() < max_groups ==> forall|a: int, b: int, h: u64|
        #[trigger] same_by_hasher(hasher, files, a, b, h) ==> exists|i: int|
            0 <= i < gs.len() && lists(gs[i], files[a].0@) && lists(gs[i], files[b].0@)
}

/// `hash` answered `Ok(h)` for the path `p`.
pub open spec fn hash_answer<F: Fn(&str) -> Result<u64, String>>(hash: F, p: Seq<char>, h: u64) -> bool {
    exists|s: &str| s@ == p && #[trigger] call_ensures(hash, (s,), Ok::<u64, String>(h))
}

/// `hash` answered `Ok(h)` for every path of `g`.
pub open spec fn shares_hash<F: Fn(&str) -> Result<u64, String>>(hash: F, g: DuplicateGroup, h: u64) -> bool {
    forall|j: int| 0 <= j < g.paths@.len() ==> hash_answer(hash, #[trigger] g.paths@[j]@, h)
}

/// `hash` answered one and the same `Ok` hash for every path of `g`.
pub open spec fn one_hash<F: Fn(&str) -> Result<u64, String>>(hash: F, g: DuplicateGroup) -> bool {
    exists|h: u64| #[trigger] shares_hash(hash, g, h)
}

/// `g` holds, sorted, the paths that `hashed` gives the hash `h`.
pub open spec fn hash_group(g: DuplicateGroup, hashed: Seq<(String, u64)>, h: u64) -> bool {
    exists|v: Seq<String>| #![trigger sorted_asc(v)] v.map_values(|t: String| t@) == paths_with(hashed, h) && g.paths@ == sorted_asc(v)
}

/// `gs` are the duplicate groups of `size`-byte files hashed as `hashed`
/// (path, hash): one group, sorted, for every hash that two or more paths
/// share, and no other group; each with its waste.
pub open spec fn groups_of_hashes(size: u64, hashed: Seq<(String, u64)>, gs: Seq<DuplicateGroup>) -> bool {
    &&& forall|i: int|
        0 <= i < gs.len() ==> {
            &&& (#[trigger] gs[i]).size_bytes == size
            &&& gs[i].paths@.len() >= 2
            &&& gs[i].wasted_bytes == wasted_spec(size, gs[i].paths@.len())
            &&& exists|h: u64| hash_group(gs[i], hashed, h) && paths_with(hashed, h).len() >= 2
        }
    &&& forall|h: u64| #[trigger] paths_with(hashed, h).len() >= 2 ==> exists|i: int| 0 <= i < gs.len() && hash_group(gs[i], hashed, h)
}

/// The duplicate groups of `size`-byte files, given each file's hash: see
/// [`groups_of_hashes`]; the groups come in the order their hash first
/// appears.
pub fn groups_from_hashes(size: u64, hashed: Vec<(String, u64)>) -> (gs: Vec<DuplicateGroup>)
    requires
        size > 0,
    ensures
        groups_of_hashes(size, hashed@, gs@),
{
    let ghost hs = hashed@;
    let by_hash = bucket(hashed, false);
    let mut groups: Vec<DuplicateGroup> = Vec::new();
    let mut b: usize = 0;
    while b < by_hash.len()
        invariant
            b <= by_hash@.len(),
            size > 0,
            partitions(by_hash@, hs),
            forall|i: int|
                0 <= i < groups@.len() ==> {
                    &&& (#[trigger] groups@[i]).size_bytes == size
                    &&& groups@[i].paths@.len() >= 2
                    &&& groups@[i].wasted_bytes == wasted_spec(size, groups@[i].paths@.len())
                    &&& exists|h: u64| hash_group(groups@[i], hs, h) && paths_with(hs, h).len() >= 2
                },
            forall|x: int|
                0 <= x < b && (#[trigger] by_hash@[x]).1@.len() >= 2 ==> exists|i: int|
                    0 <= i < groups@.len() && hash_group(groups@[i], hs, by_hash@[x].0),
        decreases by_hash@.len() - b,
    {
        let same = &by_hash[b].1;
        let ghost hb = by_hash@[b as int];
        let ghost before = groups@;
        assert(hb.1.deep_view() == paths_with(hs, hb.0));
        if same.len() >= 2 {
            let copy = crate::domain::models::copy_strings(same);
            let ghost cv = copy@;
            assert(copy.deep_view().len() == copy@.len());
            assert(same.deep_view().len() == same@.len());
            let paths = sort_by_text(copy);
            assert(paths@.len() == same@.len()) by {
                crate::sorting::lemma_sorted_asc_len(cv);
            }
            proof {
                assert(cv.map_values(|t: String| t@) =~= paths_with(hs, hb.0));
            }
            let g = DuplicateGroup { size_bytes: size, wasted_bytes: wasted(size, paths.len()), paths };
            assert(hash_group(g, hs, hb.0));
            groups.push(g);
            proof {
                assert forall|i: int|
                    0 <= i < groups@.len() implies {
                        &&& (#[trigger] groups@[i]).size_bytes == size
                        &&& groups@[i].paths@.len() >= 2
                        &&& groups@[i].wasted_bytes == wasted_spec(size, groups@[i].paths@.len())
                        &&& exists|h: u64| hash_group(groups@[i], hs, h) && paths_with(hs, h).len() >= 2
                    } by {
                    if i < before.len() {
                        assert(groups@[i] == before[i]);
                    } else {
                        assert(hash_group(groups@[i], hs, hb.0) && paths_with(hs, hb.0).len() >= 2);
                    }
                }
            }
        }
        proof {
            assert forall|x: int|
                0 <= x < b + 1 && (#[trigger] by_hash@[x]).1@.len() >= 2 implies exists|i: int|
                    0 <= i < groups@.len() && hash_group(groups@[i], hs, by_hash@[x].0) by {
                if x < b {
                    let i = choose|i: int| 0 <= i < before.len() && hash_group(before[i], hs, by_hash@[x].0);
                    assert(groups@[i] == before[i]);
                } else {
                    assert(groups@[groups@.len() - 1] == groups@.last());
                    assert(hash_group(groups@[groups@.len() - 1], hs, by_hash@[x].0));
                }
            }
        }
        b = b + 1;
    }
    proof {
        assert forall|h: u64| #[trigger] paths_with(hs, h).len() >= 2 implies exists|i: int|
            0 <= i < groups@.len() && hash_group(groups@[i], hs, h) by {
            lemma_paths_with_member(hs, h, 0);
            let k = choose|k: int| 0 <= k < hs.len() && hs[k].1 == h && hs[k].0@ == paths_with(hs, h)[0];
            assert(hs[k].1 == h);
            let x = choose|x: int| 0 <= x < by_hash@.len() && #[trigger] by_hash@[x].0 == hs[k].1;
            assert(by_hash@[x].1.deep_view() == paths_with(hs, h));
            assert(by_hash@[x].1.deep_view().len() == by_hash@[x].1@.len());
        }
    }
    groups
}

proof fn lemma_group_from_hashes<F: Fn(&str) -> Result<u64, String>>(
    hash: F,
    fs: Seq<(String, u64)>,
    size: u64,
    hs: Seq<(String, u64)>,
    g: DuplicateGroup,
)
    requires
        g.size_bytes == size,
        g.paths@.len() >= 2,
        g.wasted_bytes == wasted_spec(size, g.paths@.len()),
        size > 0,
        exists|h: u64| hash_group(g, hs, h) && paths_with(hs, h).len() >= 2,
        forall|q: int| 0 <= q < hs.len() ==> indexed_as(#[trigger] hs[q].0@, fs, size),
        forall|q: int| 0 <= q < hs.len() ==> hash_answer(hash, #[trigger] hs[q].0@, hs[q].1),
    ensures
        group_of(g, fs),
        one_hash(hash, g),
        is_asc(g.paths@),
{
    let h = choose|h: u64| hash_group(g, hs, h) && paths_with(hs, h).len() >= 2;
    let v = choose|v: Seq<String>| #![trigger sorted_asc(v)] v.map_values(|t: String| t@) == paths_with(hs, h) && g.paths@ == sorted_asc(v);
    crate::sorting::lemma_sorted_asc_members(v);
    crate::sorting::lemma_sorted_asc_is_asc(v);
    assert forall|j: int| 0 <= j < g.paths@.len() implies indexed_as(#[trigger] g.paths@[j]@, fs, g.size_bytes) && hash_answer(
        hash,
        g.paths@[j]@,
        h,
    ) by {
        let t = g.paths@[j];
        assert(v.contains(t));
        let w = choose|w: int| 0 <= w < v.len() && v[w] == t;
        assert(v.map_values(|t: String| t@)[w] == t@);
        lemma_paths_with_member(hs, h, w);
        let e = choose|e: int| 0 <= e < hs.len() && hs[e].1 == h && hs[e].0@ == paths_with(hs, h)[w];
        assert(indexed_as(hs[e].0@, fs, size));
        assert(hash_answer(hash, hs[e].0@, hs[e].1));
    }
    assert(shares_hash(hash, g, h));
}

/// `g` lists the path `p`.
pub open spec fn lists(g: DuplicateGroup, p: Seq<char>) -> bool {
    exists|j: int| 0 <= j < g.paths@.len() && #[trigger] g.paths@[j]@ == p
}

/// Every call of `hash` on the path `p` answers `Ok(h)`.
pub open spec fn always_hashes<F: Fn(&str) -> Result<u64, String>>(hash: F, p: Seq<char>, h: u64) -> bool {
    forall|s: &str, r: Result<u64, String>| s@ == p && #[trigger] call_ensures(hash, (s,), r) ==> r == Ok::<u64, String>(h)
}

/// Files `a` and `b` of `files` are two paths of one nonzero size that `hash`
/// always gives one and the same hash `h`.
pub open spec fn same_content<F: Fn(&str) -> Result<u64, String>>(hash: F, files: Seq<(String, u64)>, a: int, b: int, h: u64) -> bool {
    &&& 0 <= a < files.len()
    &&& 0 <= b < files.len()
    &&& files[a].0@ != files[b].0@
    &&& files[a].1 == files[b].1
    &&& files[a].1 > 0
    &&& always_hashes(hash, files[a].0@, h)
    &&& always_hashes(hash, files[b].0@, h)
}

spec fn pairs_in<F: Fn(&str) -> Result<u64, String>>(hash: F, fs: Seq<(String, u64)>, size: u64, mv: Seq<DuplicateGroup>) -> bool {
    forall|a: int, b: int, h: u64|
        #[trigger] same_content(hash, fs, a, b, h) && fs[a].1 == size ==> exists|i: int|
            0 <= i < mv.len() && lists(mv[i], fs[a].0@) && lists(mv[i], fs[b].0@)
}

spec fn bucket_seen(by_size: Seq<(u64, Vec<String>)>, k: int, n: u64) -> bool {
    exists|x: int| 0 <= x < k && by_size[x].0 == n
}

spec fn pairs_grouped<F: Fn(&str) -> Result<u64, String>>(
    hash: F,
    fs: Seq<(String, u64)>,
    by_size: Seq<(u64, Vec<String>)>,
    k: int,
    groups: Seq<DuplicateGroup>,
) -> bool {
    forall|a: int, b: int, h: u64|
        #[trigger] same_content(hash, fs, a, b, h) && bucket_seen(by_size, k, fs[a].1) ==> exists|i: int|
            0 <= i < groups.len() && lists(groups[i], fs[a].0@) && lists(groups[i], fs[b].0@)
}

proof fn lemma_paths_with_has(entries: Seq<(String, u64)>, n: u64, a: int)
    requires
        0 <= a < entries.len(),
        entries[a].1 == n,
    ensures
        paths_with(entries, n).contains(entries[a].0@),
{
    let f = entries.filter(numbered(n));
    entries.lemma_filter_contains(numbered(n), a);
    let w = choose|w: int| 0 <= w < f.len() && f[w] == entries[a];
    assert(paths_with(entries, n)[w] == entries[a].0@);
}

proof fn lemma_two_paths(entries: Seq<(String, u64)>, n: u64, a: int, b: int)
    requires
        0 <= a < entries.len(),
        0 <= b < entries.len(),
        entries[a].1 == n,
        entries[b].1 == n,
        entries[a].0@ != entries[b].0@,
    ensures
        paths_with(entries, n).len() >= 2,
{
    lemma_paths_with_has(entries, n, a);
    lemma_paths_with_has(entries, n, b);
    let pw = paths_with(entries, n);
    let i = choose|i: int| 0 <= i < pw.len() && pw[i] == entries[a].0@;
    let j = choose|j: int| 0 <= j < pw.len() && pw[j] == entries[b].0@;
    assert(i != j);
}

proof fn lemma_hash_group_lists(g: DuplicateGroup, hs: Seq<(String, u64)>, h: u64, e: int)
    requires
        hash_group(g, hs, h),
        0 <= e < hs.len(),
        hs[e].1 == h,
    ensures
        lists(g, hs[e].0@),
{
    let v = choose|v: Seq<String>| #![trigger sorted_asc(v)] v.map_values(|t: String| t@) == paths_with(hs, h) && g.paths@ == sorted_asc(v);
    lemma_paths_with_has(hs, h, e);
    let pw = paths_with(hs, h);
    let w = choose|w: int| 0 <= w < pw.len() && pw[w] == hs[e].0@;
    assert(v.map_values(|t: String| t@)[w] == v[w]@);
    crate::sorting::lemma_sorted_asc_keeps(v);
    assert(sorted_asc(v).contains(v[w]));
    let j = choose|j: int| 0 <= j < sorted_asc(v).len() && sorted_asc(v)[j] == v[w];
    assert(g.paths@[j]@ == hs[e].0@);
}

/// The groups among the files of one nonzero size whose paths are `same`:
/// the paths are hashed with `hash` in path order (a failing hash leaves the
/// file out) and grouped by [`groups_from_hashes`].
fn size_groups<F: Fn(&str) -> Result<u64, String>>(
    hash: &F,
    same: &Vec<String>,
    size: u64,
    Ghost(fs): Ghost<Seq<(String, u64)>>,
) -> (mv: Vec<DuplicateGroup>)
    requires
        size > 0,
        same.deep_view() == paths_with(fs, size),
        forall|p: &str| #[trigger] hash.requires((p,)),
    ensures
        forall|i: int| 0 <= i < mv@.len() ==> group_of(#[trigger] mv@[i], fs),
        forall|i: int| 0 <= i < mv@.len() ==> one_hash(*hash, #[trigger] mv@[i]) && is_asc(mv@[i].paths@),
        pairs_in(*hash, fs, size, mv@),
{
    let copy = crate::domain::models::copy_strings(same);
    let ghost cs = copy@;
    let sorted = sort_by_text(copy);
    proof {
        crate::sorting::lemma_sorted_asc_members(cs);
        assert(cs.map_values(|t: String| t@) =~= paths_with(fs, size));
    }
    let mut hashed: Vec<(String, u64)> = Vec::new();
    let mut x: usize = 0;
    while x < sorted.len()
        invariant
            x <= sorted@.len(),
            sorted@ == crate::sorting::sorted_asc(cs),
            forall|q: int| 0 <= q < sorted@.len() ==> cs.contains(#[trigger] sorted@[q]),
            cs.map_values(|t: String| t@) == paths_with(fs, size),
            forall|p: &str| #[trigger] hash.requires((p,)),
            forall|q: int| 0 <= q < hashed@.len() ==> indexed_as(#[trigger] hashed@[q].0@, fs, size),
            forall|q: int| 0 <= q < hashed@.len() ==> hash_answer(*hash, #[trigger] hashed@[q].0@, hashed@[q].1),
            forall|q: int, hh: u64|
                0 <= q < x && #[trigger] always_hashes(*hash, sorted@[q]@, hh) ==> exists|e: int|
                    0 <= e < hashed@.len() && hashed@[e].0@ == sorted@[q]@ && hashed@[e].1 == hh,
        decreases sorted@.len() - x,
    {
        let p = sorted[x].as_str();
        let ans = hash(p);
        match ans {
            Ok(h) => {
                proof {
                    let t = sorted@[x as int];
                    assert(cs.contains(t));
                    let w = choose|w: int| 0 <= w < cs.len() && cs[w] == t;
                    assert(paths_with(fs, size)[w] == t@);
                    lemma_paths_with_member(fs, size, w);
                    assert(call_ensures(*hash, (p,), Ok::<u64, String>(h)));
                    assert(hash_answer(*hash, t@, h));
                }
                let ghost prev = hashed@;
                hashed.push((sorted[x].clone(), h));
                proof {
                    assert forall|q: int| 0 <= q < hashed@.len() implies indexed_as(#[trigger] hashed@[q].0@, fs, size) by {
                        if q < prev.len() {
                            assert(hashed@[q] == prev[q]);
                        }
                    }
                    assert forall|q: int| 0 <= q < hashed@.len() implies hash_answer(*hash, #[trigger] hashed@[q].0@, hashed@[q].1) by {
                        if q < prev.len() {
                            assert(hashed@[q] == prev[q]);
                        }
                    }
                    assert forall|q: int, hh: u64|
                        0 <= q < x + 1 && #[trigger] always_hashes(*hash, sorted@[q]@, hh) implies exists|e: int|
                            0 <= e < hashed@.len() && hashed@[e].0@ == sorted@[q]@ && hashed@[e].1 == hh by {
                        if q < x {
                            let e = choose|e: int| 0 <= e < prev.len() && prev[e].0@ == sorted@[q]@ && prev[e].1 == hh;
                            assert(hashed@[e] == prev[e]);
                        } else {
                            assert(call_ensures(*hash, (p,), Ok::<u64, String>(h)));
                            assert(hashed@[prev.len() as int].0@ == sorted@[q]@);
                        }
                    }
                }
            },
            Err(_) => {
                proof {
                    assert forall|q: int, hh: u64|
                        0 <= q < x + 1 && #[trigger] always_hashes(*hash, sorted@[q]@, hh) implies exists|e: int|
                            0 <= e < hashed@.len() && hashed@[e].0@ == sorted@[q]@ && hashed@[e].1 == hh by {
                        if q == x {
                            assert(call_ensures(*hash, (p,), ans));
                        }
                    }
                }
            },
        }
        x = x + 1;
    }
    let ghost hs = hashed@;
    let made = groups_from_hashes(size, hashed);
    let ghost mv = made@;
    proof {
        assert forall|i: int| 0 <= i < mv.len() implies group_of(#[trigger] mv[i], fs) && one_hash(*hash, mv[i]) && is_asc(mv[i].paths@) by {
            lemma_group_from_hashes(*hash, fs, size, hs, mv[i]);
        }
        crate::sorting::lemma_sorted_asc_keeps(cs);
        assert forall|a: int, b: int, h: u64|
            #[trigger] same_content(*hash, fs, a, b, h) && fs[a].1 == size implies exists|i: int|
                0 <= i < mv.len() && lists(mv[i], fs[a].0@) && lists(mv[i], fs[b].0@) by {
            let pw = paths_with(fs, size);
            lemma_paths_with_has(fs, size, a);
            lemma_paths_with_has(fs, size, b);
            let wa = choose|w: int| 0 <= w < pw.len() && pw[w] == fs[a].0@;
            let wb = choose|w: int| 0 <= w < pw.len() && pw[w] == fs[b].0@;
            assert(cs.map_values(|t: String| t@)[wa] == cs[wa]@);
            assert(cs.map_values(|t: String| t@)[wb] == cs[wb]@);
            assert(sorted_asc(cs).contains(cs[wa]));
            assert(sorted_asc(cs).contains(cs[wb]));
            let qa = choose|q: int| 0 <= q < sorted_asc(cs).len() && sorted_asc(cs)[q] == cs[wa];
            let qb = choose|q: int| 0 <= q < sorted_asc(cs).len() && sorted_asc(cs)[q] == cs[wb];
            assert(always_hashes(*hash, sorted@[qa]@, h));
            assert(always_hashes(*hash, sorted@[qb]@, h));
            let ea = choose|e: int| 0 <= e < hs.len() && hs[e].0@ == sorted@[qa]@ && hs[e].1 == h;
            let eb = choose|e: int| 0 <= e < hs.len() && hs[e].0@ == sorted@[qb]@ && hs[e].1 == h;
            lemma_two_paths(hs, h, ea, eb);
            let i = choose|i: int| 0 <= i < mv.len() && hash_group(mv[i], hs, h);
            lemma_hash_group_lists(mv[i], hs, h, ea);
            lemma_hash_group_lists(mv[i], hs, h, eb);
        }
    }
    made
}

/// The duplicate groups among `files` (path, size): sizes are visited
/// largest first, stopping once `max_groups` groups are found; a size of
/// two or more files, none of them empty, has its files hashed with `hash`
/// in path order (a file whose hash fails is left out) and makes the groups
/// of [`groups_from_hashes`]. The groups come largest waste first, at most
/// `max_groups` of them; every group's paths share one hash `hash` gave.
/// When fewer than `max_groups` groups come back, any two paths of one
/// nonzero size that `hash` always gives one hash are listed in one group.
pub fn duplicate_groups<F: Fn(&str) -> Result<u64, String>>(files: Vec<(String, u64)>, hash: &F, max_groups: usize) -> (gs: Vec<
    DuplicateGroup,
>)
    requires
        forall|p: &str| #[trigger] hash.requires((p,)),
    ensures
        gs@.len() <= max_groups,
        forall|i: int| 0 <= i < gs@.len() ==> group_of(#[trigger] gs@[i], files@),
        forall|i: int, j: int| 0 <= i < j < gs@.len() ==> gs@[i].wasted_bytes >= gs@[j].wasted_bytes,
        forall|i: int|
            0 <= i < gs@.len() ==> one_hash(*hash, #[trigger] gs@[i]) && is_asc(gs@[i].paths@),
        gs@.len() < max_groups ==> forall|a: int, b: int, h: u64|
            #[trigger] same_content(*hash, files@, a, b, h) ==> exists|i: int|
                0 <= i < gs@.len() && lists(gs@[i], files@[a].0@) && lists(gs@[i], files@[b].0@),
{
    let ghost fs = files@;
    let by_size = bucket(files, true);
    let mut groups: Vec<DuplicateGroup> = Vec::new();
    let mut k: usize = 0;
    while k < by_size.len()
        invariant
            k <= by_size@.len(),
            partitions(by_size@, fs),
            forall|p: &str| #[trigger] hash.requires((p,)),
            forall|i: int| 0 <= i < groups@.len() ==> group_of(#[trigger] groups@[i], fs),
            forall|i: int|
                0 <= i < groups@.len() ==> one_hash(*hash, #[trigger] groups@[i]) && is_asc(groups@[i].paths@),
            pairs_grouped(*hash, fs, by_size@, k as int, groups@),
        ensures
            k == by_size@.len() || groups@.len() >= max_groups,
            partitions(by_size@, fs),
            forall|i: int| 0 <= i < groups@.len() ==> group_of(#[trigger] groups@[i], fs),
            forall|i: int|
                0 <= i < groups@.len() ==> one_hash(*hash, #[trigger] groups@[i]) && is_asc(groups@[i].paths@),
            pairs_grouped(*hash, fs, by_size@, k as int, groups@),
        decreases by_size@.len() - k,
    {
        if groups.len() >= max_groups {
            break;
        }
        let size = by_size[k].0;
        let ghost before = groups@;
        if size > 0 && by_size[k].1.len() >= 2 {
            assert(by_size@[k as int].1.deep_view() == paths_with(fs, size));
            let mut made = size_groups(hash, &by_size[k].1, size, Ghost(fs));
            let ghost mv = made@;
            groups.append(&mut made);
            proof {
                assert forall|i: int| 0 <= i < groups@.len() implies group_of(#[trigger] groups@[i], fs) && one_hash(*hash, groups@[i]) && is_asc(groups@[i].paths@) by {
                    if i < before.len() {
                        assert(groups@[i] == before[i]);
                    } else {
                        assert(groups@[i] == mv[i - before.len()]);
                    }
                }
                assert forall|a: int, b: int, h: u64|
                    #[trigger] same_content(*hash, fs, a, b, h) && bucket_seen(by_size@, k + 1, fs[a].1) implies exists|i: int|
                        0 <= i < groups@.len() && lists(groups@[i], fs[a].0@) && lists(groups@[i], fs[b].0@) by {
                    if fs[a].1 == size {
                        let i = choose|i: int| 0 <= i < mv.len() && lists(mv[i], fs[a].0@) && lists(mv[i], fs[b].0@);
                        assert(groups@[before.len() + i] == mv[i]);
                    } else {
                        let x = choose|x: int| 0 <= x < k + 1 && by_size@[x].0 == fs[a].1;
                        assert(bucket_seen(by_size@, k as int, fs[a].1));
                        let i = choose|i: int| 0 <= i < before.len() && lists(before[i], fs[a].0@) && lists(before[i], fs[b].0@);
                        assert(groups@[i] == before[i]);
                    }
                }
            }
        } else {
            proof {
                assert forall|a: int, b: int, h: u64|
                    #[trigger] same_content(*hash, fs, a, b, h) && bucket_seen(by_size@, k + 1, fs[a].1) implies exists|i: int|
                        0 <= i < groups@.len() && lists(groups@[i], fs[a].0@) && lists(groups@[i], fs[b].0@) by {
                    let x = choose|x: int| 0 <= x < k + 1 && by_size@[x].0 == fs[a].1;
                    if x == k {
                        lemma_two_paths(fs, size, a, b);
                        assert(by_size@[k as int].1.deep_view() == paths_with(fs, size));
                        assert(by_size@[k as int].1.deep_view().len() == by_size@[k as int].1@.len());
                    } else {
                        assert(bucket_seen(by_size@, k as int, fs[a].1));
                    }
                }
            }
        }
        k = k + 1;
    }
    let ghost unsorted = groups@;
    let mut sorted_groups = sort_desc(groups);
    proof {
        crate::sorting::lemma_sorted_desc_is_ordered_permutation(unsorted);
        assert forall|i: int| 0 <= i < sorted_groups@.len() implies group_of(#[trigger] sorted_groups@[i], fs) && one_hash(*hash, #[trigger] sorted_groups@[i]) && is_asc(sorted_groups@[i].paths@) by {
            let g = sorted_groups@[i];
            vstd::seq_lib::to_multiset_contains(sorted_groups@, g);
            vstd::seq_lib::to_multiset_contains(unsorted, g);
            assert(sorted_groups@.contains(g));
            let w = choose|w: int| 0 <= w < unsorted.len() && unsorted[w] == g;
        }
    }
    let ghost full = sorted_groups@;
    sorted_groups.truncate(max_groups);
    assert(forall|i: int| 0 <= i < sorted_groups@.len() ==> sorted_groups@[i] == full[i]);
    proof {
        if sorted_groups@.len() < max_groups {
            assert(sorted_groups@ == full);
            vstd::seq_lib::to_multiset_len(unsorted);
            vstd::seq_lib::to_multiset_len(full);
            assert(unsorted.len() == full.len());
            assert(k == by_size@.len());
            assert forall|a: int, b: int, h: u64|
                #[trigger] same_content(*hash, fs, a, b, h) implies exists|i: int|
                    0 <= i < full.len() && lists(full[i], fs[a].0@) && lists(full[i], fs[b].0@) by {
                let x = choose|x: int| 0 <= x < by_size@.len() && #[trigger] by_size@[x].0 == fs[a].1;
                assert(bucket_seen(by_size@, k as int, fs[a].1));
                let i = choose|i: int| 0 <= i < unsorted.len() && lists(unsorted[i], fs[a].0@) && lists(unsorted[i], fs[b].0@);
                let g = unsorted[i];
                vstd::seq_lib::to_multiset_contains(unsorted, g);
                vstd::seq_lib::to_multiset_contains(full, g);
                assert(unsorted.contains(g));
                let j = choose|j: int| 0 <= j < full.len() && full[j] == g;
            }
        }
    }
    sorted_groups
}

} // verus!
