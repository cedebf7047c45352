//! The file index: an incremental directory walker that skips directories
//! whose modification time matches the index, and the service that applies
//! each listing to the store and records what a run covered.
//!
//! Reading directories and their times is the caller's (through the closures
//! handed in); which directories are walked, skipped or queued, what a listing
//! holds and what the store is told are decided here.
use vstd::prelude::*;

use crate::domain::models::{DirListing, EntryRecord, IndexProgress, IndexStats};
use crate::domain::traits::IndexStore;
use crate::paths::{parent_of, parent_spec};
use crate::system::{all_decimal, digits_value, is_digit};
use crate::text::{chars_eq, chars_of, ends_with, has_suffix, owned, slice_chars, split_chars, split_on, string_of, views};

verus! {

// ---------------------------------------------------------------------------
// Walker configuration and path helpers
// ---------------------------------------------------------------------------

#[derive(Debug, Clone)]
pub struct WalkerConfig {
    pub excludes: Vec<String>,
    pub pause_every_dirs: u32,
    pub pause_for_ms: u64,
}

pub open spec fn default_excludes_spec() -> Seq<Seq<char>> {
    seq!["$recycle.bin"@, "system volume information"@, "windows.old"@]
}

/// Directory names never walked (matched as suffixes of normalized paths).
pub fn default_excludes() -> (r: Vec<String>)
    ensures
        r.deep_view() == default_excludes_spec(),
{
    let mut r: Vec<String> = Vec::new();
    r.push(owned("$recycle.bin"));
    r.push(owned("system volume information"));
    r.push(owned("windows.old"));
    assert(r.deep_view() =~= default_excludes_spec());
    r
}

impl WalkerConfig {
    /// The default walk: the standard excludes, a 5 ms pause every 25 directories.
    pub fn new_default() -> (r: WalkerConfig)
        ensures
            r.excludes.deep_view() == default_excludes_spec(),
            r.pause_every_dirs == 25,
            r.pause_for_ms == 5,
    {
        WalkerConfig { excludes: default_excludes(), pause_every_dirs: 25, pause_for_ms: 5 }
    }
}

/// The roots walked by default: the home directory, or `/` without one.
pub fn default_roots(home: Option<&str>) -> (r: Vec<String>)
    ensures
        r.deep_view() == match home {
            Some(h) => if h@.len() > 0 {
                seq![h@]
            } else {
                seq!["/"@]
            },
            None => seq!["/"@],
        },
{
    let mut r: Vec<String> = Vec::new();
    match home {
        Some(h) => {
            if chars_of(h).len() > 0 {
                r.push(owned(h));
            } else {
                r.push(owned("/"));
            }
        },
        None => r.push(owned("/")),
    }
    proof {
        match home {
            Some(h) => {
                if h@.len() > 0 {
                    assert(r.deep_view() =~= seq![h@]);
                } else {
                    assert(r.deep_view() =~= seq!["/"@]);
                }
            },
            None => assert(r.deep_view() =~= seq!["/"@]),
        }
    }
    r
}

/// Number of trailing `/` or `\` characters.
pub open spec fn trailing_any_sep(s: Seq<char>) -> nat
    decreases s.len(),
{
    if s.len() > 0 && (s.last() == '/' || s.last() == '\\') {
        1 + trailing_any_sep(s.drop_last())
    } else {
        0
    }
}

/// A path as the index stores it: without trailing separators.
pub open spec fn norm_spec(p: Seq<char>) -> Seq<char> {
    p.take(p.len() - trailing_any_sep(p))
}

proof fn lemma_trailing_any_sep(s: Seq<char>, k: int)
    requires
        0 <= k <= s.len(),
        forall|j: int| s.len() - k <= j < s.len() ==> (s[j] == '/' || s[j] == '\\'),
        k == s.len() || !(s[s.len() - k - 1] == '/' || s[s.len() - k - 1] == '\\'),
    ensures
        trailing_any_sep(s) == k,
    decreases k,
{
    if k > 0 {
        lemma_trailing_any_sep(s.drop_last(), k - 1);
    }
}

/// Normalize a path for the index on the given platform: trailing
/// separators removed, and on Windows lower-cased (paths there are not
/// case-sensitive).
pub fn norm_for(path: &str, windows: bool) -> (r: String)
    ensures
        r@ == if windows {
            crate::text::unicode_lower(norm_spec(path@))
        } else {
            norm_spec(path@)
        },
{
    let n = norm(path);
    if windows {
        crate::text::to_lowercase(n.as_str())
    } else {
        n
    }
}

/// Normalize a path for the index: trailing separators removed (this build
/// targets Linux; see [`norm_for`]).
pub fn norm(path: &str) -> (r: String)
    ensures
        r@ == norm_spec(path@),
{
    let v = chars_of(path);
    let mut n = v.len();
    while n > 0 && (v[n - 1] == '/' || v[n - 1] == '\\')
        invariant
            n <= v@.len(),
            forall|j: int| n <= j < v@.len() ==> (v@[j] == '/' || v@[j] == '\\'),
        decreases n,
    {
        n = n - 1;
    }
    proof {
        lemma_trailing_any_sep(v@, v@.len() - n);
    }
    let t = slice_chars(&v, 0, n);
    assert(t@ =~= v@.take(n as int));
    string_of(&t)
}

/// The parent of a normalized path, or empty when it has none.
pub open spec fn norm_parent_spec(p: Seq<char>) -> Seq<char> {
    match parent_spec(p) {
        Some(q) => q,
        None => Seq::empty(),
    }
}

fn norm_parent(path: &str) -> (r: String)
    ensures
        r@ == norm_parent_spec(path@),
{
    match parent_of(path) {
        Some(p) => p,
        None => string_of(&Vec::new()),
    }
}

/// A directory is skipped when its normalized path ends with an exclude.
pub open spec fn excluded_spec(dir_norm: Seq<char>, excludes: Seq<Seq<char>>) -> bool {
    exists|i: int| 0 <= i < excludes.len() && has_suffix(dir_norm, #[trigger] excludes[i])
}

fn is_excluded(dir_norm: &str, excludes: &Vec<String>) -> (r: bool)
    ensures
        r == excluded_spec(dir_norm@, excludes.deep_view()),
{
    let d = chars_of(dir_norm);
    let mut i: usize = 0;
    while i < excludes.len()
        invariant
            i <= excludes@.len(),
            d@ == dir_norm@,
            forall|j: int| 0 <= j < i ==> !has_suffix(dir_norm@, #[trigger] excludes.deep_view()[j]),
        decreases excludes@.len() - i,
    {
        assert(excludes.deep_view()[i as int] == excludes@[i as int]@);
        if ends_with(&d, &chars_of(excludes[i].as_str())) {
            return true;
        }
        i = i + 1;
    }
    false
}

// ---------------------------------------------------------------------------
// The walker
// ---------------------------------------------------------------------------

/// A directory entry as read from the filesystem.
#[derive(Debug, Clone)]
pub struct RawEntry {
    pub path: String,
    pub is_symlink: bool,
    pub is_dir: bool,
    /// size and modification time (ms), when the entry's metadata was readable
    pub meta: Option<(u64, Option<i64>)>,
}

pub struct IncrementalWalker {
    pub queue: Vec<String>,
    pub cfg: WalkerConfig,
    pub dirs_since_pause: u32,
    pub dirs_skipped: u64,
    /// What the walk saw of each directory it took from the queue, and what
    /// it did with it (see [`visit_spec`]).
    pub visits: Ghost<Seq<Seen>>,
}

/// What the walk does with a directory taken from the queue.
pub enum Visit {
    /// Excluded, or its modification time could not be read.
    Drop,
    /// Held by the index unchanged: its subdirectories are queued from the
    /// index and it counts as skipped.
    PassOver,
    /// Read and listed.
    Scan,
}

/// One directory taken from the queue: whether it is excluded, its current
/// time (`None`: unreadable, or not asked), the time the index holds
/// (`None`: the store failed, or not asked), how many children the index
/// holds (`None`: the store failed, or not asked), whether the skip count
/// has room, and what the walk did.
pub struct Seen {
    pub excluded: bool,
    pub current: Option<i64>,
    pub cached: Option<Option<i64>>,
    pub children: Option<nat>,
    pub room: bool,
    pub visit: Visit,
}

/// The walk's decision for a directory: dropped when excluded or its time
/// cannot be read; passed over when the index holds that very time and at
/// least one child (and the skip count has room); read otherwise.
pub open spec fn visit_spec(excluded: bool, current: Option<i64>, cached: Option<Option<i64>>, children: Option<nat>, room: bool) -> Visit {
    if excluded {
        Visit::Drop
    } else {
        match current {
            None => Visit::Drop,
            Some(t) => if cached == Some(Some(t)) && (match children {
                Some(n) => n > 0,
                None => false,
            }) && room {
                Visit::PassOver
            } else {
                Visit::Scan
            },
        }
    }
}

/// A directory record whose action is the one [`visit_spec`] gives for
/// what was seen.
pub open spec fn decided(s: Seen) -> bool {
    s.visit == visit_spec(s.excluded, s.current, s.cached, s.children, s.room)
}

/// How many of `seen` were passed over.
pub open spec fn passed_over(seen: Seq<Seen>) -> nat
    decreases seen.len(),
{
    if seen.len() == 0 {
        0
    } else {
        passed_over(seen.drop_last()) + if seen.last().visit is PassOver {
            1nat
        } else {
            0nat
        }
    }
}

/// How many of `seen` were read and listed.
pub open spec fn read_count(seen: Seq<Seen>) -> nat
    decreases seen.len(),
{
    if seen.len() == 0 {
        0
    } else {
        read_count(seen.drop_last()) + if seen.last().visit is Scan {
            1nat
        } else {
            0nat
        }
    }
}

/// Counting over a trace extended by `d` adds the counts over `d`.
proof fn lemma_trace_extends(a: Seq<Seen>, d: Seq<Seen>)
    ensures
        passed_over(a + d) == passed_over(a) + passed_over(d),
        read_count(a + d) == read_count(a) + read_count(d),
    decreases d.len(),
{
    if d.len() == 0 {
        assert(a + d =~= a);
    } else {
        lemma_trace_extends(a, d.drop_last());
        assert((a + d).drop_last() =~= a + d.drop_last());
        assert((a + d).last() == d.last());
    }
}

/// The index record of a directory entry below `parent`.
pub open spec fn entry_of(e: RawEntry, parent: Seq<char>) -> (Seq<char>, Seq<char>, u64, i64, bool) {
    let (size, mtime) = match e.meta {
        Some((s, m)) => (
            s,
            match m {
                Some(t) => t,
                None => -1i64,
            },
        ),
        None => (0u64, -1i64),
    };
    (norm_spec(e.path@), parent, size, mtime, e.is_dir)
}

pub open spec fn record_view(r: EntryRecord) -> (Seq<char>, Seq<char>, u64, i64, bool) {
    (r.path@, r.parent@, r.size_bytes, r.mtime_ms, r.is_dir)
}

pub open spec fn record_views(v: Seq<EntryRecord>) -> Seq<(Seq<char>, Seq<char>, u64, i64, bool)> {
    v.map_values(|r: EntryRecord| record_view(r))
}

pub open spec fn not_symlink() -> spec_fn(RawEntry) -> bool {
    |e: RawEntry| !e.is_symlink
}

impl IncrementalWalker {
    /// A walker over the roots that `is_dir` confirms are directories.
    pub fn new<F: Fn(&str) -> bool>(roots: Vec<String>, cfg: WalkerConfig, is_dir: F) -> (r: IncrementalWalker)
        requires
            forall|s: &str| #[trigger] is_dir.requires((s,)),
        ensures
            r.queue@.len() <= roots@.len(),
            r.dirs_since_pause == 0,
            r.dirs_skipped == 0,
            r.visits@.len() == 0,
            r.cfg == cfg,
            exists|ans: Seq<bool>|
                #[trigger] crate::discover::answers_for(is_dir, roots.deep_view(), ans) && r.queue.deep_view()
                    == crate::clean::picked(roots.deep_view(), ans, true),
    {
        let ghost rv = roots.deep_view();
        let queue = crate::discover::keep_answered(roots, &is_dir);
        proof {
            let a = choose|a: Seq<bool>| #[trigger] crate::discover::answers_for(is_dir, rv, a) && queue.deep_view()
                == crate::clean::picked(rv, a, true);
            crate::clean::lemma_picked_len(rv, a, true);
            assert(queue.deep_view().len() == queue@.len());
        }
        IncrementalWalker { queue, cfg, dirs_since_pause: 0, dirs_skipped: 0, visits: Ghost(Seq::empty()) }
    }

    /// Directories skipped because the index already held them unchanged.
    pub fn dirs_skipped(&self) -> (r: u64)
        ensures
            r == self.dirs_skipped,
    {
        self.dirs_skipped
    }

    /// Count a directory towards the pacing; true when the walk is to pause
    /// now (every `pause_every_dirs` directories).
    pub fn maybe_pause(&mut self) -> (pause: bool)
        ensures
            final(self).queue == old(self).queue,
            final(self).cfg == old(self).cfg,
            final(self).dirs_skipped == old(self).dirs_skipped,
            final(self).visits == old(self).visits,
            pause == (old(self).dirs_since_pause as int + 1 >= old(self).cfg.pause_every_dirs),
            pause ==> final(self).dirs_since_pause == 0,
            !pause ==> final(self).dirs_since_pause == old(self).dirs_since_pause + 1,
    {
        let next: u64 = self.dirs_since_pause as u64 + 1;
        if next >= self.cfg.pause_every_dirs as u64 {
            self.dirs_since_pause = 0;
            true
        } else {
            self.dirs_since_pause = next as u32;
            false
        }
    }

    /// The listing of directory `dir` (modified at `dir_mtime_ms`) from what
    /// reading it returned: `None` when it could not be read. The listing
    /// starts with the directory itself; symlinks are left out, and
    /// subdirectories are queued for walking.
    pub fn scan_dir(&mut self, dir: &str, dir_mtime_ms: i64, read: Option<Vec<RawEntry>>) -> (l: DirListing)
        ensures
            final(self).cfg == old(self).cfg,
            final(self).dirs_skipped == old(self).dirs_skipped,
            final(self).dirs_since_pause == old(self).dirs_since_pause,
            final(self).visits == old(self).visits,
            l.path@ == norm_spec(dir@),
            l.dir_mtime_ms == dir_mtime_ms,
            l.readable == read is Some,
            l.entries@.len() >= 1,
            record_view(l.entries@[0]) == (norm_spec(dir@), norm_parent_spec(norm_spec(dir@)), 0u64, dir_mtime_ms, true),
            read matches Some(es) ==> record_views(l.entries@.drop_first()) == es@.filter(not_symlink()).map_values(
                |e: RawEntry| entry_of(e, norm_spec(dir@)),
            ),
            read is None ==> l.entries@.len() == 1,
            read is None ==> final(self).queue == old(self).queue,
            read matches Some(es) ==> final(self).queue@.map_values(|q: String| q@) == old(self).queue@.map_values(
                |q: String| q@,
            ) + es@.filter(|e: RawEntry| !e.is_symlink && e.is_dir).map_values(|e: RawEntry| e.path@),
    {
        let dn = norm(dir);
        let parent = norm_parent(dn.as_str());
        let mut entries: Vec<EntryRecord> = Vec::new();
        entries.push(EntryRecord { path: dn.clone(), parent, size_bytes: 0, mtime_ms: dir_mtime_ms, is_dir: true });
        let es = match read {
            Some(es) => es,
            None => {
                return DirListing { path: dn, dir_mtime_ms, readable: false, entries };
            },
        };
        let ghost head = entries@[0];
        let ghost keep = not_symlink();
        let ghost sub = |e: RawEntry| !e.is_symlink && e.is_dir;
        let ghost f = |e: RawEntry| entry_of(e, norm_spec(dir@));
        let ghost qv = |q: String| q@;
        let ghost pv = |e: RawEntry| e.path@;
        let ghost q0 = self.queue@.map_values(qv);
        let mut i: usize = 0;
        while i < es.len()
            invariant
                i <= es@.len(),
                dn@ == norm_spec(dir@),
                keep == not_symlink(),
                sub == (|e: RawEntry| !e.is_symlink && e.is_dir),
                f == (|e: RawEntry| entry_of(e, norm_spec(dir@))),
                qv == (|q: String| q@),
                pv == (|e: RawEntry| e.path@),
                entries@.len() >= 1,
                entries@[0] == head,
                record_views(entries@.drop_first()) == es@.take(i as int).filter(keep).map_values(f),
                self.queue@.map_values(qv) == q0 + es@.take(i as int).filter(sub).map_values(pv),
                self.cfg == old(self).cfg,
                self.dirs_skipped == old(self).dirs_skipped,
                self.dirs_since_pause == old(self).dirs_since_pause,
                self.visits == old(self).visits,
            decreases es@.len() - i,
        {
            let e = &es[i];
            assert(es@.take(i + 1).drop_last() =~= es@.take(i as int));
            assert(es@.take(i + 1).last() == es@[i as int]);
            reveal_with_fuel(Seq::filter, 1);
            if !e.is_symlink {
                let (size, mtime): (u64, i64) = match &e.meta {
                    Some((s, m)) => (
                        *s,
                        match m {
                            Some(t) => *t,
                            None => -1,
                        },
                    ),
                    None => (0, -1),
                };
                let npath = norm(e.path.as_str());
                if e.is_dir {
                    let ghost prevq = self.queue@.map_values(qv);
                    self.queue.push(e.path.clone());
                    assert(self.queue@.map_values(qv) =~= prevq.push(e.path@));
                    assert(es@.take(i + 1).filter(sub) == es@.take(i as int).filter(sub).push(es@[i as int]));
                    assert(es@.take(i + 1).filter(sub).map_values(pv) =~= es@.take(i as int).filter(sub).map_values(
                        pv,
                    ).push(e.path@));
                } else {
                    assert(es@.take(i + 1).filter(sub) == es@.take(i as int).filter(sub));
                }
                let ghost preve = entries@;
                let rec = EntryRecord { path: npath, parent: dn.clone(), size_bytes: size, mtime_ms: mtime, is_dir: e.is_dir };
                assert(record_view(rec) == f(es@[i as int]));
                entries.push(rec);
                assert(entries@.drop_first() =~= preve.drop_first().push(rec));
                assert(record_views(preve.drop_first().push(rec)) =~= record_views(preve.drop_first()).push(record_view(rec)));
                assert(es@.take(i + 1).filter(keep) == es@.take(i as int).filter(keep).push(es@[i as int]));
                assert(record_views(entries@.drop_first()) =~= es@.take(i + 1).filter(keep).map_values(f));
            } else {
                assert(es@.take(i + 1).filter(keep) == es@.take(i as int).filter(keep));
                assert(es@.take(i + 1).filter(sub) == es@.take(i as int).filter(sub));
            }
            i = i + 1;
        }
        assert(es@.take(es@.len() as int) =~= es@);
        DirListing { path: dn, dir_mtime_ms, readable: true, entries }
    }

    /// The next directory listing of the walk, or `None` when the walk is
    /// done. Excluded directories and those whose time cannot be read are
    /// dropped; a directory the index holds with an unchanged time (and
    /// children) is skipped, its subdirectories queued from the index. The
    /// second value says whether the walk is to pause before continuing.
    pub fn next_listing<S: IndexStore, M: Fn(&str) -> Option<i64>, R: Fn(&str) -> Option<Vec<RawEntry>>>(
        &mut self,
        store: &S,
        mtime_of: &M,
        read_dir: &R,
    ) -> (r: Option<(DirListing, bool)>)
        requires
            forall|s: &str| #[trigger] mtime_of.requires((s,)),
            forall|s: &str| #[trigger] read_dir.requires((s,)),
        ensures
            final(self).cfg == old(self).cfg,
            final(self).dirs_skipped >= old(self).dirs_skipped,
            r matches Some((l, _)) ==> !excluded_spec(l.path@, old(self).cfg.excludes.deep_view())
                && l.entries@.len() >= 1,
            r is None ==> final(self).queue@.len() == 0,
            old(self).visits@.len() <= final(self).visits@.len(),
            final(self).visits@.subrange(0, old(self).visits@.len() as int) == old(self).visits@,
            forall|i: int|
                old(self).visits@.len() <= i < final(self).visits@.len() ==> decided(#[trigger] final(self).visits@[i]),
            final(self).dirs_skipped == old(self).dirs_skipped + passed_over(
                final(self).visits@.skip(old(self).visits@.len() as int),
            ),
            r is Some <==> (final(self).visits@.len() > old(self).visits@.len() && final(self).visits@.last().visit is Scan),
            read_count(final(self).visits@.skip(old(self).visits@.len() as int)) == if r is Some {
                1nat
            } else {
                0nat
            },
    {
        let ghost v0 = self.visits@;
        proof {
            assert(v0.skip(v0.len() as int) =~= Seq::<Seen>::empty());
            assert(v0.subrange(0, v0.len() as int) =~= v0);
        }
        loop
            invariant
                self.cfg == old(self).cfg,
                self.dirs_skipped >= old(self).dirs_skipped,
                forall|s: &str| #[trigger] mtime_of.requires((s,)),
                forall|s: &str| #[trigger] read_dir.requires((s,)),
                v0 == old(self).visits@,
                v0.len() <= self.visits@.len(),
                self.visits@.subrange(0, v0.len() as int) == v0,
                forall|i: int| v0.len() <= i < self.visits@.len() ==> decided(#[trigger] self.visits@[i]),
                forall|i: int| v0.len() <= i < self.visits@.len() ==> !((#[trigger] self.visits@[i]).visit is Scan),
                self.dirs_skipped == old(self).dirs_skipped + passed_over(self.visits@.skip(v0.len() as int)),
                read_count(self.visits@.skip(v0.len() as int)) == 0,
            decreases u64::MAX - self.dirs_skipped, self.queue@.len(),
        {
            if self.queue.len() == 0 {
                proof {
                    if self.visits@.len() > v0.len() {
                        assert(!(self.visits@[self.visits@.len() - 1].visit is Scan));
                    }
                }
                return None;
            }
            let ghost before_skipped = self.dirs_skipped;
            let ghost before_visits = self.visits@;
            let dir = self.queue.remove(0);
            let dn = norm(dir.as_str());
            let room = self.dirs_skipped < u64::MAX;
            if is_excluded(dn.as_str(), &self.cfg.excludes) {
                let ghost seen = Seen { excluded: true, current: None, cached: None, children: None, room, visit: Visit::Drop };
                self.visits = Ghost(self.visits@.push(seen));
                proof {
                    self.lemma_logged(v0, before_visits, seen);
                }
                continue;
            }
            let cur = match mtime_of(dir.as_str()) {
                Some(t) => t,
                None => {
                    let ghost seen = Seen { excluded: false, current: None, cached: None, children: None, room, visit: Visit::Drop };
                    self.visits = Ghost(self.visits@.push(seen));
                    proof {
                        self.lemma_logged(v0, before_visits, seen);
                    }
                    continue;
                },
            };
            let mut skip = false;
            let ghost mut cached_seen: Option<Option<i64>> = None;
            let ghost mut children_seen: Option<nat> = None;
            match store.get_dir_mtime(dn.as_str()) {
                Ok(answer) => {
                    proof {
                        cached_seen = Some(answer);
                    }
                    match answer {
                        Some(cached) => {
                            if cached == cur {
                                match store.child_entries(dn.as_str()) {
                                    Ok(children) => {
                                        proof {
                                            children_seen = Some(children@.len());
                                        }
                                        if children.len() > 0 && room {
                                            let mut k: usize = 0;
                                            while k < children.len()
                                                invariant
                                                    k <= children@.len(),
                                                    self.cfg == old(self).cfg,
                                                    self.dirs_skipped >= old(self).dirs_skipped,
                                                    self.dirs_skipped == before_skipped,
                                                    self.dirs_skipped < u64::MAX,
                                                    self.visits@ == before_visits,
                                                decreases children@.len() - k,
                                            {
                                                if children[k].1 {
                                                    self.queue.push(children[k].0.clone());
                                                }
                                                k = k + 1;
                                            }
                                            self.dirs_skipped = self.dirs_skipped + 1;
                                            skip = true;
                                        }
                                    },
                                    Err(_) => {},
                                }
                            }
                        },
                        None => {},
                    }
                },
                Err(_) => {},
            }
            let ghost seen = Seen {
                excluded: false,
                current: Some(cur),
                cached: cached_seen,
                children: children_seen,
                room,
                visit: if skip {
                    Visit::PassOver
                } else {
                    Visit::Scan
                },
            };
            assert(decided(seen));
            assert(skip ==> self.dirs_skipped == before_skipped + 1);
            assert(!skip ==> self.dirs_skipped == before_skipped);
            self.visits = Ghost(self.visits@.push(seen));
            proof {
                self.lemma_logged_count(v0, before_visits, seen);
            }
            let pause = self.maybe_pause();
            if skip {
                continue;
            }
            let listing = self.scan_dir(dir.as_str(), cur, read_dir(dir.as_str()));
            return Some((listing, pause));
        }
    }

    /// Appending one decided record keeps the trace's invariants.
    proof fn lemma_logged(&self, v0: Seq<Seen>, before: Seq<Seen>, seen: Seen)
        requires
            self.visits@ == before.push(seen),
            v0.len() <= before.len(),
            before.subrange(0, v0.len() as int) == v0,
            forall|i: int| v0.len() <= i < before.len() ==> decided(#[trigger] before[i]),
            forall|i: int| v0.len() <= i < before.len() ==> !((#[trigger] before[i]).visit is Scan),
            decided(seen),
            seen.visit is Drop,
        ensures
            v0.len() <= self.visits@.len(),
            self.visits@.subrange(0, v0.len() as int) == v0,
            forall|i: int| v0.len() <= i < self.visits@.len() ==> decided(#[trigger] self.visits@[i]),
            forall|i: int| v0.len() <= i < self.visits@.len() ==> !((#[trigger] self.visits@[i]).visit is Scan),
            passed_over(self.visits@.skip(v0.len() as int)) == passed_over(before.skip(v0.len() as int)),
            read_count(self.visits@.skip(v0.len() as int)) == read_count(before.skip(v0.len() as int)),
    {
        let after = self.visits@;
        assert(after.subrange(0, v0.len() as int) =~= before.subrange(0, v0.len() as int));
        assert forall|i: int| v0.len() <= i < after.len() implies decided(#[trigger] after[i]) && !(after[i].visit is Scan) by {
            if i < before.len() {
                assert(after[i] == before[i]);
            }
        }
        assert(after.skip(v0.len() as int) =~= before.skip(v0.len() as int).push(seen));
        assert(after.skip(v0.len() as int).drop_last() =~= before.skip(v0.len() as int));
    }

    /// Appending the record of a passed-over or read directory.
    proof fn lemma_logged_count(&self, v0: Seq<Seen>, before: Seq<Seen>, seen: Seen)
        requires
            self.visits@ == before.push(seen),
            v0.len() <= before.len(),
            before.subrange(0, v0.len() as int) == v0,
            forall|i: int| v0.len() <= i < before.len() ==> decided(#[trigger] before[i]),
            decided(seen),
        ensures
            v0.len() <= self.visits@.len(),
            self.visits@.subrange(0, v0.len() as int) == v0,
            forall|i: int| v0.len() <= i < self.visits@.len() ==> decided(#[trigger] self.visits@[i]),
            self.visits@.last() == seen,
            forall|i: int| v0.len() <= i < before.len() ==> #[trigger] self.visits@[i] == before[i],
            passed_over(self.visits@.skip(v0.len() as int)) == passed_over(before.skip(v0.len() as int)) + if seen.visit is PassOver {
                1nat
            } else {
                0nat
            },
            read_count(self.visits@.skip(v0.len() as int)) == read_count(before.skip(v0.len() as int)) + if seen.visit is Scan {
                1nat
            } else {
                0nat
            },
    {
        let after = self.visits@;
        assert(after.subrange(0, v0.len() as int) =~= before.subrange(0, v0.len() as int));
        assert forall|i: int| v0.len() <= i < after.len() implies decided(#[trigger] after[i]) by {
            if i < before.len() {
                assert(after[i] == before[i]);
            }
        }
        assert(after.skip(v0.len() as int) =~= before.skip(v0.len() as int).push(seen));
        assert(after.skip(v0.len() as int).drop_last() =~= before.skip(v0.len() as int));
    }
}

// ---------------------------------------------------------------------------
// Provenance
// ---------------------------------------------------------------------------

/// What the last indexing run is entitled to speak for: when it finished,
/// the roots it walked, and whether it was stopped early.
#[derive(Debug, Clone, Default, PartialEq, Eq)]
pub struct IndexProvenance {
    pub last_run_unix: Option<i64>,
    pub roots: Vec<String>,
    pub interrupted: bool,
}

/// `i64::from_str`: an optional sign, then at least one decimal digit, with a
/// value in range.
pub open spec fn signed_digits(s: Seq<char>) -> Seq<char> {
    if s.len() > 0 && (s[0] == '-' || s[0] == '+') {
        s.drop_first()
    } else {
        s
    }
}

pub open spec fn parse_i64_spec(s: Seq<char>) -> Option<i64> {
    let neg = s.len() > 0 && s[0] == '-';
    let d = signed_digits(s);
    if d.len() == 0 || !all_decimal(d) {
        None
    } else if neg {
        if digits_value(d) <= 0x8000_0000_0000_0000 {
            Some((-(digits_value(d) as int)) as i64)
        } else {
            None
        }
    } else if digits_value(d) <= i64::MAX {
        Some(digits_value(d) as i64)
    } else {
        None
    }
}

fn parse_i64(s: &str) -> (r: Option<i64>)
    ensures
        r == parse_i64_spec(s@),
{
    let v = chars_of(s);
    let neg = v.len() > 0 && v[0] == '-';
    let start: usize = if v.len() > 0 && (v[0] == '-' || v[0] == '+') {
        1
    } else {
        0
    };
    let d = slice_chars(&v, start, v.len());
    assert(d@ =~= signed_digits(s@));
    if d.len() == 0 {
        return None;
    }
    let limit: u64 = if neg {
        0x8000_0000_0000_0000
    } else {
        0x7fff_ffff_ffff_ffff
    };
    let mut mag: u64 = 0;
    let mut i: usize = 0;
    while i < d.len()
        invariant
            i <= d@.len(),
            forall|j: int| 0 <= j < i ==> is_digit(#[trigger] d@[j]),
            mag as nat == digits_value(d@.take(i as int)),
            mag <= limit,
            limit <= 0x8000_0000_0000_0000,
            limit >= 0x7fff_ffff_ffff_ffff,
            limit == (if neg { 0x8000_0000_0000_0000u64 } else { 0x7fff_ffff_ffff_ffffu64 }),
            neg == (s@.len() > 0 && s@[0] == '-'),
            d@ == signed_digits(s@),
        decreases d@.len() - i,
    {
        let c = d[i];
        assert(d@.take(i + 1).drop_last() =~= d@.take(i as int));
        assert(d@.take(i + 1).last() == c);
        if !('0' <= c && c <= '9') {
            assert(!is_digit(d@[i as int]));
            assert(!all_decimal(d@));
            return None;
        }
        let digit: u64 = (c as u32 - 48) as u64;
        if mag > (limit - digit) / 10 {
            assert(digits_value(d@.take(i + 1)) > limit) by (nonlinear_arith)
                requires
                    digits_value(d@.take(i + 1)) == mag * 10 + digit,
                    mag > (limit - digit) / 10,
                    digit <= 9,
                    digit <= limit,
            ;
            proof {
                if all_decimal(d@) {
                    crate::system::lemma_digits_monotone(d@, i + 1);
                }
            }
            return None;
        }
        mag = mag * 10 + digit;
        i = i + 1;
    }
    assert(d@.take(d@.len() as int) =~= d@);
    if neg {
        if mag == 0x8000_0000_0000_0000 {
            Some(-0x7fff_ffff_ffff_ffff - 1)
        } else {
            Some(-(mag as i64))
        }
    } else {
        Some(mag as i64)
    }
}

/// The provenance recorded in a store's meta values: an unparseable run
/// time reads as "never", the roots are the `;`-separated list (none when the
/// value is empty or absent), and the run was interrupted when flagged `1`.
pub open spec fn provenance_spec(last_run: Option<Seq<char>>, roots: Option<Seq<char>>, interrupted: Option<Seq<char>>) -> (
    Option<i64>,
    Seq<Seq<char>>,
    bool,
) {
    (
        match last_run {
            Some(v) => parse_i64_spec(v),
            None => None,
        },
        match roots {
            Some(v) => if v.len() > 0 {
                split_on(v, ';')
            } else {
                Seq::empty()
            },
            None => Seq::empty(),
        },
        interrupted == Some(seq!['1']),
    )
}

/// Build the provenance from the meta values a store returned.
pub fn provenance_from_meta(last_run: Option<String>, roots: Option<String>, interrupted: Option<String>) -> (r:
    IndexProvenance)
    ensures
        (r.last_run_unix, r.roots.deep_view(), r.interrupted) == provenance_spec(
            crate::domain::models::opt_view(last_run),
            crate::domain::models::opt_view(roots),
            crate::domain::models::opt_view(interrupted),
        ),
{
    let last_run_unix = match &last_run {
        Some(v) => parse_i64(v.as_str()),
        None => None,
    };
    let mut rs: Vec<String> = Vec::new();
    match &roots {
        Some(v) => {
            let vc = chars_of(v.as_str());
            if vc.len() > 0 {
                let pieces = split_chars(&vc, ';');
                let mut i: usize = 0;
                while i < pieces.len()
                    invariant
                        i <= pieces@.len(),
                        rs.deep_view() == views(pieces@).take(i as int),
                    decreases pieces@.len() - i,
                {
                    let ghost prev = rs.deep_view();
                    rs.push(string_of(&pieces[i]));
                    assert(rs.deep_view() =~= prev.push(pieces@[i as int]@));
                    assert(rs.deep_view() =~= views(pieces@).take(i + 1));
                    i = i + 1;
                }
                assert(views(pieces@).take(pieces@.len() as int) =~= views(pieces@));
            } else {
                assert(rs.deep_view() =~= Seq::<Seq<char>>::empty());
            }
        },
        None => {
            assert(rs.deep_view() =~= Seq::<Seq<char>>::empty());
        },
    }
    let flagged = match &interrupted {
        Some(v) => {
            let c = chars_of(v.as_str());
            let one = c.len() == 1 && c[0] == '1';
            assert(one == (v@ == seq!['1'])) by {
                if c@.len() == 1 && c@[0] == '1' {
                    assert(c@ =~= seq!['1']);
                }
            }
            one
        },
        None => false,
    };
    IndexProvenance { last_run_unix, roots: rs, interrupted: flagged }
}

/// Read the provenance of the last run from a store.
pub fn read_provenance<S: IndexStore>(store: &S) -> (r: Result<IndexProvenance, String>)
    ensures
        r matches Ok(p) ==> exists|a: Option<Seq<char>>, b: Option<Seq<char>>, c: Option<Seq<char>>|
            (p.last_run_unix, p.roots.deep_view(), p.interrupted) == #[trigger] provenance_spec(a, b, c),
{
    let last_run = match store.meta_get("last_run") {
        Ok(v) => v,
        Err(e) => return Err(e),
    };
    let roots = match store.meta_get("last_run_roots") {
        Ok(v) => v,
        Err(e) => return Err(e),
    };
    let interrupted = match store.meta_get("last_run_interrupted") {
        Ok(v) => v,
        Err(e) => return Err(e),
    };
    let p = provenance_from_meta(last_run, roots, interrupted);
    assert((p.last_run_unix, p.roots.deep_view(), p.interrupted) == provenance_spec(
        crate::domain::models::opt_view(last_run),
        crate::domain::models::opt_view(roots),
        crate::domain::models::opt_view(interrupted),
    ));
    Ok(p)
}

/// Roots as a single meta value, joined with `;` (which cannot appear in a
/// Windows path; the value is only read back to be displayed).
pub fn join_roots(roots: &Vec<String>) -> (r: String)
    ensures
        r@ == crate::text::join_with(roots.deep_view(), ';'),
{
    crate::text::join_strings(roots, ';')
}

// ---------------------------------------------------------------------------
// The service
// ---------------------------------------------------------------------------

pub struct IndexConfig {
    pub roots: Vec<String>,
    pub walker: WalkerConfig,
}

impl IndexConfig {
    /// The default configuration for a user whose home is `home`.
    pub fn for_home(home: Option<&str>) -> (r: IndexConfig)
        ensures
            r.walker.excludes.deep_view() == default_excludes_spec(),
            r.walker.pause_every_dirs == 25,
            r.walker.pause_for_ms == 5,
            r.roots@.len() == 1,
    {
        let roots = default_roots(home);
        assert(roots@.len() == roots.deep_view().len());
        IndexConfig { roots, walker: WalkerConfig::new_default() }
    }
}

/// The indexed paths that a readable listing no longer holds.
pub open spec fn stale_spec(prior: Seq<Seq<char>>, current: Seq<Seq<char>>) -> Seq<Seq<char>> {
    prior.filter(|p: Seq<char>| !current.contains(p))
}

/// The paths of the records of a listing.
pub open spec fn listed_paths(entries: Seq<EntryRecord>) -> Seq<Seq<char>> {
    entries.map_values(|e: EntryRecord| e.path@)
}

/// The paths of `prior` that are not among `entries`' paths, in order.
pub fn stale_paths(prior: &Vec<(String, bool)>, entries: &Vec<EntryRecord>) -> (r: Vec<String>)
    ensures
        r.deep_view() == stale_spec(
            prior@.map_values(|c: (String, bool)| c.0@),
            entries@.map_values(|e: EntryRecord| e.path@),
        ),
{
    let ghost pv = prior@.map_values(|c: (String, bool)| c.0@);
    let ghost cur = entries@.map_values(|e: EntryRecord| e.path@);
    let ghost keep = |p: Seq<char>| !cur.contains(p);
    let mut out: Vec<String> = Vec::new();
    let mut i: usize = 0;
    while i < prior.len()
        invariant
            i <= prior@.len(),
            pv == prior@.map_values(|c: (String, bool)| c.0@),
            cur == entries@.map_values(|e: EntryRecord| e.path@),
            keep == (|p: Seq<char>| !cur.contains(p)),
            out.deep_view() == pv.take(i as int).filter(keep),
        decreases prior@.len() - i,
    {
        let p = &prior[i].0;
        assert(pv.take(i + 1).drop_last() =~= pv.take(i as int));
        assert(pv.take(i + 1).last() == p@);
        reveal_with_fuel(Seq::filter, 1);
        let pc = chars_of(p.as_str());
        let mut found = false;
        let mut j: usize = 0;
        while j < entries.len()
            invariant
                j <= entries@.len(),
                cur == entries@.map_values(|e: EntryRecord| e.path@),
                pc@ == p@,
                found == exists|k: int| 0 <= k < j && cur[k] == p@,
            decreases entries@.len() - j,
        {
            if chars_eq(&chars_of(entries[j].path.as_str()), &pc) {
                found = true;
            }
            assert(cur[j as int] == entries@[j as int].path@);
            j = j + 1;
        }
        assert(found == cur.contains(p@));
        if !found {
            let ghost prev = out.deep_view();
            out.push(p.clone());
            assert(out.deep_view() =~= prev.push(p@));
        }
        i = i + 1;
    }
    assert(pv.take(prior@.len() as int) =~= pv);
    out
}

/// The meta values a finished run records, in order: when it finished
/// (decimal), the roots it covered (joined by `;`), and whether it was
/// interrupted (`1`) or not (`0`).
pub open spec fn run_stamps_spec(finished: i64, roots: Seq<Seq<char>>, interrupted: bool) -> Seq<(Seq<char>, Seq<char>)> {
    seq![
        ("last_run"@, crate::undo::signed_decimal_spec(finished)),
        ("last_run_roots"@, crate::text::join_with(roots, ';')),
        ("last_run_interrupted"@, if interrupted { "1"@ } else { "0"@ }),
    ]
}

/// The meta values a finished run records (see [`run_stamps_spec`]).
pub fn run_stamps(finished: i64, roots: &Vec<String>, interrupted: bool) -> (r: Vec<(String, String)>)
    ensures
        r@.map_values(|p: (String, String)| (p.0@, p.1@)) == run_stamps_spec(finished, roots.deep_view(), interrupted),
{
    let mut r: Vec<(String, String)> = Vec::new();
    r.push((owned("last_run"), crate::undo::signed_decimal_string(finished)));
    r.push((owned("last_run_roots"), join_roots(roots)));
    r.push((owned("last_run_interrupted"), owned(if interrupted { "1" } else { "0" })));
    assert(r@.map_values(|p: (String, String)| (p.0@, p.1@)) =~= run_stamps_spec(finished, roots.deep_view(), interrupted));
    r
}

/// What a run stamps reads back as what the run recorded: the provenance
/// built from the stamped values has the run's finishing time, its roots
/// and whether it was stopped early. Roots read back as written unless one
/// holds a `;` or they are a single empty root.
pub proof fn lemma_stamps_read_back(finished: i64, roots: Seq<Seq<char>>, interrupted: bool)
    requires
        forall|i: int, j: int| 0 <= i < roots.len() && 0 <= j < roots[i].len() ==> roots[i][j] != ';',
        !(roots.len() == 1 && roots[0].len() == 0),
    ensures
        ({
            let st = run_stamps_spec(finished, roots, interrupted);
            provenance_spec(Some(st[0].1), Some(st[1].1), Some(st[2].1)) == (Some(finished), roots, interrupted)
        }),
{
    let st = run_stamps_spec(finished, roots, interrupted);
    reveal_strlit("1");
    reveal_strlit("0");
    // the time
    let t = crate::undo::signed_decimal_spec(finished);
    if finished < 0 {
        let mag = (-(finished as int)) as u64;
        crate::system::lemma_decimal_reads_back(mag);
        let d = crate::text::decimal_spec(mag);
        assert(t == seq!['-'] + d);
        assert(t[0] == '-');
        assert(signed_digits(t) =~= d);
    } else {
        crate::system::lemma_decimal_reads_back(finished as u64);
        let d = crate::text::decimal_spec(finished as u64);
        assert(t == d);
        assert(is_digit(d[0]));
        assert(signed_digits(t) == d);
    }
    assert(parse_i64_spec(t) == Some(finished));
    // the roots
    let joined = crate::text::join_with(roots, ';');
    if roots.len() > 0 {
        crate::text::lemma_split_join(roots, ';');
        if roots.len() == 1 {
            assert(joined == roots[0]);
        } else {
            assert(joined.len() > 0);
        }
    } else {
        assert(joined.len() == 0);
    }
    // whether it was stopped early
    if interrupted {
        assert(st[2].1 == seq!['1']);
    } else {
        assert(st[2].1 != seq!['1']) by {
            assert(st[2].1[0] == '0');
        }
    }
}

pub struct IndexService<S: IndexStore> {
    pub store: S,
    pub cfg: IndexConfig,
    /// The (key, value) meta stamps the last run handed to the store, in
    /// order, as far as the store accepted them.
    pub stamped: Ghost<Seq<(Seq<char>, Seq<char>)>>,
    /// The paths the last applied listing handed to the store to delete.
    pub deleted: Ghost<Seq<Seq<char>>>,
    /// How the last run went (see [`RunTrace`]).
    pub trace: Ghost<RunTrace>,
}

/// How an indexing run went.
pub struct RunTrace {
    /// What the walk saw of each directory it took from its queue, and what
    /// it did with it.
    pub visits: Seq<Seen>,
    /// How many directories were left in the walk's queue at the end.
    pub left: nat,
    /// The paths of the listings applied to the store, in order.
    pub applied: Seq<Seq<char>>,
    /// What `cancelled` answered, in order: it is asked once for each
    /// listing the walk yields, before that listing is applied.
    pub answers: Seq<bool>,
}

/// Whether the run was stopped: `cancelled` answered true (it is not asked
/// again after that).
pub open spec fn stopped(t: RunTrace) -> bool {
    t.answers.len() > 0 && t.answers.last()
}

impl<S: IndexStore> IndexService<S> {
    pub fn new(store: S, cfg: IndexConfig) -> (r: Self)
        ensures
            r.store == store,
            r.cfg == cfg,
    {
        IndexService {
            store,
            cfg,
            stamped: Ghost(Seq::empty()),
            deleted: Ghost(Seq::empty()),
            trace: Ghost(RunTrace { visits: Seq::empty(), left: 0, applied: Seq::empty(), answers: Seq::empty() }),
        }
    }

    /// The store's counts of what the index holds.
    pub fn stats(&self) -> (r: Result<IndexStats, String>)
        ensures
            call_ensures(S::stats, (&self.store,), r),
    {
        self.store.stats()
    }

    /// Empty the index; the configuration and the record of the last run are
    /// kept.
    pub fn clear(&mut self) -> (r: Result<(), String>)
        ensures
            final(self).cfg == old(self).cfg,
            final(self).stamped == old(self).stamped,
            final(self).deleted == old(self).deleted,
            final(self).trace == old(self).trace,
    {
        self.store.clear()
    }

    /// When the last run finished, if it ever did.
    pub fn last_run(&self) -> (r: Result<Option<i64>, String>)
        ensures
            r matches Ok(t) ==> exists|a: Option<Seq<char>>, b: Option<Seq<char>>, c: Option<Seq<char>>|
                t == (#[trigger] provenance_spec(a, b, c)).0,
    {
        match read_provenance(&self.store) {
            Ok(p) => Ok(p.last_run_unix),
            Err(e) => Err(e),
        }
    }

    /// What the last run covered, not just when it ran.
    pub fn provenance(&self) -> (r: Result<IndexProvenance, String>)
        ensures
            r matches Ok(p) ==> exists|a: Option<Seq<char>>, b: Option<Seq<char>>, c: Option<Seq<char>>|
                (p.last_run_unix, p.roots.deep_view(), p.interrupted) == #[trigger] provenance_spec(a, b, c),
    {
        read_provenance(&self.store)
    }

    /// Apply one listing: for a readable directory, drop the indexed
    /// children it no longer holds; then record its entries. Returns how many
    /// stale paths were removed.
    pub fn apply_listing(&mut self, listing: &DirListing) -> (r: Result<u64, String>)
        ensures
            final(self).cfg == old(self).cfg,
            !listing.readable ==> (r matches Ok(n) ==> n == 0) && final(self).deleted@.len() == 0,
            listing.readable && r is Ok ==> exists|prior: Seq<Seq<char>>|
                #[trigger] stale_spec(prior, listed_paths(listing.entries@)) == final(self).deleted@,
            final(self).deleted@.len() == 0 ==> (r matches Ok(n) ==> n == 0),
    {
        let mut removed: u64 = 0;
        self.deleted = Ghost(Seq::empty());
        if listing.readable {
            let prior = match self.store.child_entries(listing.path.as_str()) {
                Ok(c) => c,
                Err(e) => return Err(e),
            };
            let stale = stale_paths(&prior, &listing.entries);
            self.deleted = Ghost(stale.deep_view());
            assert(stale.deep_view().len() == stale@.len());
            assert(stale_spec(prior@.map_values(|c: (String, bool)| c.0@), listed_paths(listing.entries@)) == self.deleted@);
            if stale.len() > 0 {
                removed = match self.store.delete_paths(stale.as_slice()) {
                    Ok(n) => n,
                    Err(e) => return Err(e),
                };
            }
        }
        match self.store.upsert_entries(listing.entries.as_slice()) {
            Ok(()) => Ok(removed),
            Err(e) => Err(e),
        }
    }

    /// Walk the configured roots, applying each listing, until the walk ends
    /// or `cancelled` says stop; then record when the run finished, which
    /// roots it covered and whether it was interrupted. `now` reads the clock.
    pub fn run<T: Fn() -> i64, C: Fn() -> bool, D: Fn(&str) -> bool, M: Fn(&str) -> Option<i64>, R: Fn(&str) -> Option<Vec<RawEntry>>>(
        &mut self,
        now: T,
        cancelled: C,
        is_dir: D,
        mtime_of: M,
        read_dir: R,
    ) -> (r: Result<IndexProgress, String>)
        requires
            now.requires(()),
            cancelled.requires(()),
            forall|s: &str| #[trigger] is_dir.requires((s,)),
            forall|s: &str| #[trigger] mtime_of.requires((s,)),
            forall|s: &str| #[trigger] read_dir.requires((s,)),
        ensures
            final(self).cfg == old(self).cfg,
            r matches Ok(p) ==> !p.running && p.started_at_unix is Some && p.finished_at_unix is Some,
            r matches Ok(p) ==> ({
                let t = final(self).trace@;
                &&& forall|i: int| 0 <= i < t.answers.len() ==> #[trigger] call_ensures(cancelled, (), t.answers[i])
                &&& forall|i: int| 0 <= i < t.answers.len() - 1 ==> !(#[trigger] t.answers[i])
                &&& forall|i: int| 0 <= i < t.visits.len() ==> decided(#[trigger] t.visits[i])
                &&& p.dirs_skipped == passed_over(t.visits)
                &&& read_count(t.visits) == t.answers.len()
                &&& t.applied.len() == p.dirs_scanned
                &&& t.answers.len() == p.dirs_scanned + if stopped(t) {
                    1int
                } else {
                    0int
                }
                &&& (!stopped(t) && p.dirs_scanned < u64::MAX ==> t.left == 0)
                &&& final(self).stamped@ == run_stamps_spec(p.finished_at_unix->Some_0, old(self).cfg.roots.deep_view(), stopped(t))
            }),
    {
        let started = now();
        let mut progress = IndexProgress {
            running: true,
            dirs_scanned: 0,
            dirs_skipped: 0,
            files_recorded: 0,
            stale_removed: 0,
            errors: 0,
            current_path: string_of(&Vec::new()),
            started_at_unix: Some(started),
            finished_at_unix: None,
        };
        let mut walker = IncrementalWalker::new(
            crate::domain::models::copy_strings(&self.cfg.roots),
            self.cfg.walker.clone(),
            is_dir,
        );
        let mut interrupted = false;
        let ghost roots = self.cfg.roots.deep_view();
        let ghost cfg0 = self.cfg;
        let ghost mut applied: Seq<Seq<char>> = Seq::empty();
        let ghost mut answers: Seq<bool> = Seq::empty();
        proof {
            assert(walker.visits@.skip(0) =~= walker.visits@);
        }
        loop
            invariant_except_break
                !interrupted,
            invariant
                self.cfg == cfg0,
                cfg0 == old(self).cfg,
                cfg0.roots.deep_view() == roots,
                progress.started_at_unix == Some(started),
                forall|s: &str| #[trigger] mtime_of.requires((s,)),
                forall|s: &str| #[trigger] read_dir.requires((s,)),
                cancelled.requires(()),
                forall|i: int| 0 <= i < answers.len() ==> #[trigger] call_ensures(cancelled, (), answers[i]),
                forall|i: int| 0 <= i < answers.len() - 1 ==> !(#[trigger] answers[i]),
                interrupted == (answers.len() > 0 && answers.last()),
                forall|i: int| 0 <= i < walker.visits@.len() ==> decided(#[trigger] walker.visits@[i]),
                walker.dirs_skipped == passed_over(walker.visits@),
                read_count(walker.visits@) == answers.len(),
                applied.len() == progress.dirs_scanned,
                answers.len() == progress.dirs_scanned + if interrupted {
                    1int
                } else {
                    0int
                },
            ensures
                self.cfg == cfg0,
                cfg0 == old(self).cfg,
                progress.started_at_unix == Some(started),
                forall|i: int| 0 <= i < answers.len() ==> #[trigger] call_ensures(cancelled, (), answers[i]),
                forall|i: int| 0 <= i < answers.len() - 1 ==> !(#[trigger] answers[i]),
                interrupted == (answers.len() > 0 && answers.last()),
                forall|i: int| 0 <= i < walker.visits@.len() ==> decided(#[trigger] walker.visits@[i]),
                walker.dirs_skipped == passed_over(walker.visits@),
                read_count(walker.visits@) == answers.len(),
                applied.len() == progress.dirs_scanned,
                answers.len() == progress.dirs_scanned + if interrupted {
                    1int
                } else {
                    0int
                },
                !interrupted && progress.dirs_scanned < u64::MAX ==> walker.queue@.len() == 0,
            decreases u64::MAX - progress.dirs_scanned,
        {
            if progress.dirs_scanned == u64::MAX {
                break;
            }
            let ghost v_before = walker.visits@;
            let next = walker.next_listing(&self.store, &mtime_of, &read_dir);
            proof {
                let v_after = walker.visits@;
                let d = v_after.skip(v_before.len() as int);
                assert(v_after =~= v_before + d) by {
                    assert(v_after.subrange(0, v_before.len() as int) == v_before);
                }
                lemma_trace_extends(v_before, d);
                assert forall|i: int| 0 <= i < v_after.len() implies decided(#[trigger] v_after[i]) by {
                    if i >= v_before.len() {
                        assert(v_after[i] == d[i - v_before.len()]);
                    }
                }
            }
            let (listing, _pause) = match next {
                Some(x) => x,
                None => break,
            };
            let stop = cancelled();
            proof {
                assert(call_ensures(cancelled, (), stop));
                let na = answers.push(stop);
                assert forall|i: int| 0 <= i < na.len() implies #[trigger] call_ensures(cancelled, (), na[i]) by {
                    if i < answers.len() {
                        assert(na[i] == answers[i]);
                    }
                }
                assert forall|i: int| 0 <= i < na.len() - 1 implies !(#[trigger] na[i]) by {
                    assert(na[i] == answers[i]);
                }
                answers = na;
            }
            if stop {
                interrupted = true;
                break;
            }
            let removed = match self.apply_listing(&listing) {
                Ok(n) => n,
                Err(e) => return Err(e),
            };
            proof {
                applied = applied.push(listing.path@);
            }
            progress.current_path = listing.path.clone();
            progress.dirs_scanned = progress.dirs_scanned + 1;
            let n = listing.entries.len() as u64;
            progress.files_recorded = if progress.files_recorded > u64::MAX - n {
                u64::MAX
            } else {
                progress.files_recorded + n
            };
            progress.stale_removed = if progress.stale_removed > u64::MAX - removed {
                u64::MAX
            } else {
                progress.stale_removed + removed
            };
            if !listing.readable && progress.errors < u64::MAX {
                progress.errors = progress.errors + 1;
            }
        }
        progress.running = false;
        progress.dirs_skipped = walker.dirs_skipped();
        let finished = now();
        progress.finished_at_unix = Some(finished);
        self.trace = Ghost(RunTrace { visits: walker.visits@, left: walker.queue@.len(), applied, answers });
        let ghost t0 = self.trace@;
        let stamps = run_stamps(finished, &self.cfg.roots, interrupted);
        let ghost want = run_stamps_spec(finished, roots, interrupted);
        self.stamped = Ghost(Seq::empty());
        assert(want.take(0) =~= Seq::<(Seq<char>, Seq<char>)>::empty());
        let mut i: usize = 0;
        while i < stamps.len()
            invariant
                i <= stamps@.len(),
                stamps@.map_values(|p: (String, String)| (p.0@, p.1@)) == want,
                self.stamped@ == want.take(i as int),
                self.cfg == cfg0,
                cfg0 == old(self).cfg,
                self.trace@ == t0,
            decreases stamps@.len() - i,
        {
            match self.store.meta_set(stamps[i].0.as_str(), stamps[i].1.as_str()) {
                Ok(()) => {},
                Err(e) => return Err(e),
            }
            assert(want[i as int] == (stamps@[i as int].0@, stamps@[i as int].1@));
            self.stamped = Ghost(self.stamped@.push((stamps@[i as int].0@, stamps@[i as int].1@)));
            assert(self.stamped@ =~= want.take(i + 1));
            i = i + 1;
        }
        assert(want.take(stamps@.len() as int) =~= want);
        assert(interrupted == stopped(self.trace@));
        Ok(progress)
    }
}

/// A directory is passed over only when the index holds exactly its current
/// modification time (and some children); a directory whose current time
/// differs from the indexed one is read, unless excluded.
pub proof fn lemma_pass_over_needs_unchanged_time(s: Seen)
    requires
        decided(s),
    ensures
        s.visit is PassOver ==> !s.excluded && s.current is Some && s.cached == Some(s.current),
        !s.excluded && s.current is Some && s.cached is Some && s.cached->Some_0 is Some && s.cached->Some_0->Some_0
            != s.current->Some_0 ==> s.visit is Scan,
{
}

} // verus!
