//! The Linux adapters behind the ports: the RAM trimmer, the idle probe, the
//! service guard, the trash-backed remover and the lock-owner heuristic.
//! Each does its deciding here and hands the raw system call to the closure
//! or value the caller provides.
use vstd::prelude::*;

use crate::domain::models::{IdleProbeResult, LockedProcess};
use crate::domain::traits::{PathRemover, RamTrimmer};
use crate::text::{
    chars_of, contains, has_infix, has_prefix, owned, push_str, replace_char, replace_chars, slice_chars, split_chars, split_on, starts_with,
    string_of, to_lowercase, unicode_lower, views,
};

verus! {

// ---------------------------------------------------------------------------
// RAM trimming
// ---------------------------------------------------------------------------

/// Drops the kernel's page cache, dentries and inodes (needs root); Linux has
/// no portable per-process working-set trim. `drop_caches` writes `3` to
/// `/proc/sys/vm/drop_caches`.
pub struct LinuxRamTrimmer<W: Fn() -> Result<(), String>> {
    drop_caches: W,
}

impl<W: Fn() -> Result<(), String>> LinuxRamTrimmer<W> {
    #[verifier::type_invariant]
    spec fn callable(&self) -> bool {
        self.drop_caches.requires(())
    }

    /// What drops the kernel caches.
    pub closed spec fn dropper(&self) -> W {
        self.drop_caches
    }

    pub fn new(drop_caches: W) -> (r: Self)
        requires
            drop_caches.requires(()),
        ensures
            r.dropper() == drop_caches,
    {
        LinuxRamTrimmer { drop_caches }
    }
}

impl<W: Fn() -> Result<(), String>> RamTrimmer for LinuxRamTrimmer<W> {
    fn trim_processes(&mut self, pids: &[u32]) -> (r: Result<(u32, u32), String>)
        ensures
            r matches Err(e) && e@ == "per-process working-set trim is not supported on linux"@,
            final(self).dropper() == old(self).dropper(),
    {
        Err(owned("per-process working-set trim is not supported on linux"))
    }

    fn purge_standby(&mut self) -> (r: Result<bool, String>)
        ensures
            final(self).dropper() == old(self).dropper(),
            exists|ret: Result<(), String>|
                #[trigger] call_ensures(old(self).dropper(), (), ret) && r == match ret {
                    Ok(_) => Ok::<bool, String>(true),
                    Err(e) => Err(e),
                },
    {
        proof {
            use_type_invariant(&*self);
        }
        let ret = (self.drop_caches)();
        assert(call_ensures(self.dropper(), (), ret));
        match ret {
            Ok(()) => Ok(true),
            Err(e) => Err(e),
        }
    }
}

// ---------------------------------------------------------------------------
// Idle probe and service guard
// ---------------------------------------------------------------------------

/// Foreground-idle probe. Linux offers no session idle time to a plain
/// process, so it reports an active session with no foreground window.
pub struct IdleProbe;

impl IdleProbe {
    pub fn new() -> (r: IdleProbe) {
        IdleProbe
    }

    pub fn poll(&self) -> (r: Result<IdleProbeResult, String>)
        ensures
            r matches Ok(p) && p.idle_seconds == 0 && p.foreground_title@.len() == 0,
    {
        Ok(IdleProbeResult { idle_seconds: 0, foreground_title: string_of(&Vec::new()) })
    }
}

/// Stops services for the duration of a clean and restarts them after.
/// Linux cleans need no service stopped, so the guard holds nothing.
pub struct ServiceGuard;

impl ServiceGuard {
    pub fn new(services: &[&str]) -> (r: Result<ServiceGuard, String>)
        ensures
            r is Ok,
    {
        Ok(ServiceGuard)
    }
}

// ---------------------------------------------------------------------------
// Trash-backed removal
// ---------------------------------------------------------------------------

/// `resolved` is `system_root\System32` or lies below it at a component
/// boundary, compared case-insensitively as [`windows_comparable`] forms.
pub open spec fn under_system32(resolved: Seq<char>, system_root: Seq<char>) -> bool {
    let root = windows_comparable_spec(crate::paths::join_spec(system_root, "System32"@, '\\'));
    let p = windows_comparable_spec(resolved);
    p == root || has_prefix(p, root.push('\\'))
}

/// The System32 guard for a path already resolved through `..`, junctions
/// and 8.3 names (the caller resolves it against the filesystem): on Windows,
/// true when it is `system_root\System32` or below it; never elsewhere.
pub fn is_protected_for(resolved: &str, system_root: &str, windows: bool) -> (r: bool)
    ensures
        r == (windows && under_system32(resolved@, system_root@)),
{
    if !windows {
        return false;
    }
    let root = crate::paths::join_path(system_root, "System32", '\\');
    is_under_windows(resolved, root.as_str())
}

/// True when `path` is `%SystemRoot%\System32` or below it. This build
/// targets Linux, where there is no such directory, so nothing is protected
/// (see [`is_protected_for`] for the Windows rule).
pub fn is_protected_system_path(path: &str) -> (r: bool)
    ensures
        !r,
{
    is_protected_for(path, "", false)
}

/// Moves paths to the recycle bin through `delete`, refusing protected
/// system paths as a last line of defence.
pub struct TrashRemover<D: Fn(&str) -> Result<(), String>> {
    delete: D,
}

impl<D: Fn(&str) -> Result<(), String>> TrashRemover<D> {
    #[verifier::type_invariant]
    spec fn callable(&self) -> bool {
        forall|p: &str| #[trigger] self.delete.requires((p,))
    }

    /// What moves a path to the recycle bin.
    pub closed spec fn deleter(&self) -> D {
        self.delete
    }

    pub fn new(delete: D) -> (r: Self)
        requires
            forall|p: &str| #[trigger] delete.requires((p,)),
        ensures
            r.deleter() == delete,
    {
        TrashRemover { delete }
    }
}

impl<D: Fn(&str) -> Result<(), String>> PathRemover for TrashRemover<D> {
    fn remove_path(&self, path: &str) -> (r: Result<(), String>)
        ensures
            call_ensures(self.deleter(), (path,), r),
    {
        if is_protected_system_path(path) {
            let mut m: Vec<char> = Vec::new();
            push_str(&mut m, "refusing to remove ");
            push_str(&mut m, path);
            push_str(&mut m, ": it is under %SystemRoot%\\System32");
            return Err(string_of(&m));
        }
        proof {
            use_type_invariant(self);
        }
        (self.delete)(path)
    }
}

/// The components of a `/`-separated path, without empty ones and `.`.
pub open spec fn path_parts(p: Seq<char>) -> Seq<Seq<char>> {
    split_on(p, '/').filter(|c: Seq<char>| c.len() > 0 && c != seq!['.'])
}

/// Resolve `..` against the components before it (never above the start).
pub open spec fn resolve_parts(parts: Seq<Seq<char>>) -> Seq<Seq<char>>
    decreases parts.len(),
{
    if parts.len() == 0 {
        Seq::empty()
    } else {
        let before = resolve_parts(parts.drop_last());
        if parts.last() == seq!['.', '.'] {
            if before.len() > 0 {
                before.drop_last()
            } else {
                before
            }
        } else {
            before.push(parts.last())
        }
    }
}

/// `lexical_normalize`: the path with `.` dropped and each `..` removing the
/// component before it, without touching the filesystem.
pub open spec fn lexical_normalize_spec(p: Seq<char>) -> Seq<char> {
    let body = crate::text::join_with(resolve_parts(path_parts(p)), '/');
    if p.len() > 0 && p[0] == '/' {
        if body.len() > 0 {
            seq!['/'] + body
        } else {
            seq!['/']
        }
    } else {
        body
    }
}

pub fn lexical_normalize(path: &str) -> (r: String)
    ensures
        r@ == lexical_normalize_spec(path@),
{
    let v = chars_of(path);
    let pieces = split_chars(&v, '/');
    let ghost all = views(pieces@);
    let ghost keep = |c: Seq<char>| c.len() > 0 && c != seq!['.'];
    let mut stack: Vec<String> = Vec::new();
    let mut i: usize = 0;
    while i < pieces.len()
        invariant
            i <= pieces@.len(),
            all == views(pieces@),
            all == split_on(path@, '/'),
            keep == (|c: Seq<char>| c.len() > 0 && c != seq!['.']),
            stack.deep_view() == resolve_parts(all.take(i as int).filter(keep)),
        decreases pieces@.len() - i,
    {
        let c = &pieces[i];
        assert(all[i as int] == c@);
        assert(all.take(i + 1).drop_last() =~= all.take(i as int));
        assert(all.take(i + 1).last() == c@);
        reveal_with_fuel(Seq::filter, 1);
        let is_dot = c.len() == 1 && c[0] == '.';
        assert(is_dot == (c@ == seq!['.'])) by {
            if c@.len() == 1 && c@[0] == '.' {
                assert(c@ =~= seq!['.']);
            }
        }
        if c.len() > 0 && !is_dot {
            let ghost prev = all.take(i as int).filter(keep);
            assert(all.take(i + 1).filter(keep) == prev.push(c@));
            assert(prev.push(c@).drop_last() =~= prev);
            let is_up = c.len() == 2 && c[0] == '.' && c[1] == '.';
            assert(is_up == (c@ == seq!['.', '.'])) by {
                if c@.len() == 2 && c@[0] == '.' && c@[1] == '.' {
                    assert(c@ =~= seq!['.', '.']);
                }
            }
            if is_up {
                if stack.len() > 0 {
                    let ghost before = stack.deep_view();
                    stack.pop();
                    assert(stack.deep_view() =~= before.drop_last());
                }
            } else {
                let ghost before = stack.deep_view();
                stack.push(string_of(c));
                assert(stack.deep_view() =~= before.push(c@));
            }
        } else {
            assert(all.take(i + 1).filter(keep) == all.take(i as int).filter(keep));
        }
        i = i + 1;
    }
    assert(all.take(pieces@.len() as int) =~= all);
    let body = crate::text::join_strings(&stack, '/');
    let absolute = v.len() > 0 && v[0] == '/';
    if absolute {
        let mut out: Vec<char> = Vec::new();
        out.push('/');
        let bc = chars_of(body.as_str());
        crate::text::push_chars(&mut out, &bc);
        assert(out@ =~= seq!['/'] + body@);
        if bc.len() > 0 {
            string_of(&out)
        } else {
            let mut root: Vec<char> = Vec::new();
            root.push('/');
            assert(root@ =~= seq!['/']);
            string_of(&root)
        }
    } else {
        body
    }
}

// ---------------------------------------------------------------------------
// Lock owners
// ---------------------------------------------------------------------------

/// The process-name keywords (lower case) of the application likely to hold
/// a category's files open; empty when the category has no known owner.
pub open spec fn keywords_spec(category_id: Seq<char>) -> Seq<Seq<char>> {
    if category_id == "chrome-cache"@ || category_id == "chrome-code-cache"@ || category_id == "chrome-gpu"@ {
        seq!["chrome"@]
    } else if category_id == "edge-cache"@ || category_id == "edge-code-cache"@ {
        seq!["msedge"@, "edge"@]
    } else if category_id == "firefox-cache"@ {
        seq!["firefox"@]
    } else if category_id == "npm-cache"@ {
        seq!["node"@, "npm"@]
    } else if category_id == "pip-cache"@ {
        seq!["python"@, "pip"@]
    } else if category_id == "dev-pnpm"@ {
        seq!["node"@]
    } else {
        Seq::empty()
    }
}

fn is(a: &str, b: &str) -> (r: bool)
    ensures
        r == (a@ == b@),
{
    crate::text::str_eq(a, b)
}

pub fn keywords_for(category_id: &str) -> (r: Vec<&'static str>)
    ensures
        r@.map_values(|k: &str| k@) == keywords_spec(category_id@),
{
    let mut r: Vec<&'static str> = Vec::new();
    if is(category_id, "chrome-cache") || is(category_id, "chrome-code-cache") || is(category_id, "chrome-gpu") {
        r.push("chrome");
    } else if is(category_id, "edge-cache") || is(category_id, "edge-code-cache") {
        r.push("msedge");
        r.push("edge");
    } else if is(category_id, "firefox-cache") {
        r.push("firefox");
    } else if is(category_id, "npm-cache") {
        r.push("node");
        r.push("npm");
    } else if is(category_id, "pip-cache") {
        r.push("python");
        r.push("pip");
    } else if is(category_id, "dev-pnpm") {
        r.push("node");
    }
    assert(r@.map_values(|k: &str| k@) =~= keywords_spec(category_id@));
    r
}

/// A process name matches when its lower-cased form contains a keyword.
pub open spec fn name_has_keyword(name: Seq<char>, keywords: Seq<Seq<char>>) -> bool {
    exists|k: int| 0 <= k < keywords.len() && has_infix(unicode_lower(name), #[trigger] keywords[k])
}

/// One entry per (matching process, failed path) pair, processes in the
/// order given and paths in order within each.
pub open spec fn locked_spec(procs: Seq<(u32, Seq<char>)>, own_pid: u32, keywords: Seq<Seq<char>>, paths: Seq<Seq<char>>) -> Seq<
    (u32, Seq<char>, Seq<char>),
>
    decreases procs.len(),
{
    if procs.len() == 0 {
        Seq::empty()
    } else {
        let before = locked_spec(procs.drop_last(), own_pid, keywords, paths);
        let (pid, name) = procs.last();
        if pid != own_pid && name_has_keyword(name, keywords) {
            before + paths.map_values(|p: Seq<char>| (pid, name, p))
        } else {
            before
        }
    }
}

pub open spec fn locked_view(v: Seq<LockedProcess>) -> Seq<(u32, Seq<char>, Seq<char>)> {
    v.map_values(|l: LockedProcess| (l.pid, l.name@, l.path@))
}

/// The processes likely holding a category's failed paths, by matching the
/// running processes' names (pid, name) against the category's application
/// keywords, sweep itself (`own_pid`) excluded. Linux has no general "which
/// process holds this file" API, so this is a heuristic; the caller still
/// asks before killing anything.
pub fn locked_processes_for_category(category_id: &str, processes: &Vec<(u32, String)>, own_pid: u32, failed_paths: &Vec<String>) -> (r:
    Vec<LockedProcess>)
    ensures
        locked_view(r@) == locked_spec(
            processes@.map_values(|p: (u32, String)| (p.0, p.1@)),
            own_pid,
            keywords_spec(category_id@),
            failed_paths.deep_view(),
        ),
{
    let keywords = keywords_for(category_id);
    let ghost kw = keywords_spec(category_id@);
    let ghost procs = processes@.map_values(|p: (u32, String)| (p.0, p.1@));
    let ghost paths = failed_paths.deep_view();
    let mut out: Vec<LockedProcess> = Vec::new();
    let mut i: usize = 0;
    while i < processes.len()
        invariant
            i <= processes@.len(),
            keywords@.map_values(|k: &str| k@) == kw,
            kw == keywords_spec(category_id@),
            procs == processes@.map_values(|p: (u32, String)| (p.0, p.1@)),
            paths == failed_paths.deep_view(),
            locked_view(out@) == locked_spec(procs.take(i as int), own_pid, kw, paths),
        decreases processes@.len() - i,
    {
        let (pid, name) = (processes[i].0, &processes[i].1);
        assert(procs.take(i + 1).drop_last() =~= procs.take(i as int));
        assert(procs.take(i + 1).last() == (pid, name@));
        let lower = chars_of(to_lowercase(name.as_str()).as_str());
        let mut hit = false;
        let mut k: usize = 0;
        while k < keywords.len()
            invariant
                k <= keywords@.len(),
                keywords@.map_values(|k: &str| k@) == kw,
                lower@ == unicode_lower(name@),
                hit == exists|j: int| 0 <= j < k && has_infix(unicode_lower(name@), #[trigger] kw[j]),
            decreases keywords@.len() - k,
        {
            assert(kw[k as int] == keywords@[k as int]@);
            if contains(&lower, &chars_of(keywords[k])) {
                hit = true;
            }
            k = k + 1;
        }
        if pid != own_pid && hit {
            let ghost before = locked_view(out@);
            let mut j: usize = 0;
            while j < failed_paths.len()
                invariant
                    j <= failed_paths@.len(),
                    paths == failed_paths.deep_view(),
                    locked_view(out@) == before + paths.take(j as int).map_values(|p: Seq<char>| (pid, name@, p)),
                decreases failed_paths@.len() - j,
            {
                let ghost prev = locked_view(out@);
                out.push(LockedProcess { pid, name: name.clone(), path: failed_paths[j].clone() });
                assert(locked_view(out@) =~= prev.push((pid, name@, paths[j as int])));
                assert(paths.take(j + 1).map_values(|p: Seq<char>| (pid, name@, p)) =~= paths.take(j as int).map_values(
                    |p: Seq<char>| (pid, name@, p),
                ).push((pid, name@, paths[j as int])));
                j = j + 1;
            }
            assert(paths.take(failed_paths@.len() as int) =~= paths);
        }
        i = i + 1;
    }
    assert(procs.take(processes@.len() as int) =~= procs);
    out
}

/// `s` without its trailing `c` characters.
pub open spec fn trim_end_char(s: Seq<char>, c: char) -> Seq<char>
    decreases s.len(),
{
    if s.len() > 0 && s.last() == c {
        trim_end_char(s.drop_last(), c)
    } else {
        s
    }
}

/// A resolved Windows path as the System32 guard compares it: `/` turned
/// into `\`, lower-cased, one `\\?\` prefix and the trailing separators
/// removed.
pub open spec fn windows_comparable_spec(resolved: Seq<char>) -> Seq<char> {
    let lower = unicode_lower(replace_char(resolved, '/', '\\'));
    let unprefixed = if has_prefix(lower, seq!['\\', '\\', '?', '\\']) {
        lower.skip(4)
    } else {
        lower
    };
    trim_end_char(unprefixed, '\\')
}

/// The comparable form of a resolved Windows path (see
/// [`windows_comparable_spec`]).
pub fn windows_comparable(resolved: &str) -> (r: String)
    ensures
        r@ == windows_comparable_spec(resolved@),
{
    let swapped = string_of(replace_chars(chars_of(resolved).as_slice(), '/', '\\').as_slice());
    let lower = chars_of(to_lowercase(swapped.as_str()).as_str());
    let prefix: Vec<char> = vec!['\\', '\\', '?', '\\'];
    let body = if starts_with(lower.as_slice(), prefix.as_slice()) {
        slice_chars(lower.as_slice(), 4, lower.len())
    } else {
        lower
    };
    let mut n = body.len();
    assert(body@.take(n as int) =~= body@);
    while n > 0 && body[n - 1] == '\\'
        invariant
            n <= body@.len(),
            trim_end_char(body@.take(n as int), '\\') == trim_end_char(body@, '\\'),
        decreases n,
    {
        assert(body@.take(n as int).drop_last() =~= body@.take(n - 1));
        n = n - 1;
    }
    assert(trim_end_char(body@.take(n as int), '\\') == body@.take(n as int));
    string_of(slice_chars(body.as_slice(), 0, n).as_slice())
}

/// The resolved Windows path `path` is the resolved `root` or lies below it,
/// compared as [`windows_comparable`] forms (so `System32Extra` is not below
/// `System32`).
pub fn is_under_windows(path: &str, root: &str) -> (r: bool)
    ensures
        r == (windows_comparable_spec(path@) == windows_comparable_spec(root@) || has_prefix(
            windows_comparable_spec(path@),
            windows_comparable_spec(root@).push('\\'),
        )),
{
    let p = chars_of(windows_comparable(path).as_str());
    let mut r = chars_of(windows_comparable(root).as_str());
    if crate::text::chars_eq(p.as_slice(), r.as_slice()) {
        return true;
    }
    r.push('\\');
    starts_with(p.as_slice(), r.as_slice())
}

} // verus!
