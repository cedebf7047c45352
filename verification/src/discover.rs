//! The built-in cleanable categories found on this machine (Linux): browser
//! and tool caches under the XDG cache directory, and the developer tool
//! caches (pnpm, uv, pipx, cargo, gradle) where their tools keep them.
//!
//! Whether a path exists and what a directory holds are asked of the caller
//! (through the closures handed in); which paths are candidates and which
//! categories they make are decided here.
use vstd::prelude::*;

use crate::clean::{listed_by, picked};
use crate::domain::categories::{category, descriptor_for, lookup, registered};
use crate::domain::models::CleanCategory;
use crate::paths::{join_path, join_spec, opt_str};
use crate::paths::home_dir;
use crate::text::{owned, str_eq};

verus! {

/// `p` is a path the caller reported as existing.
pub open spec fn existed<E: Fn(&str) -> bool>(path_exists: E, p: Seq<char>) -> bool {
    exists|s: &str| s@ == p && #[trigger] path_exists.ensures((s,), true)
}

/// `p` is a path the caller reported as missing.
pub open spec fn missing<E: Fn(&str) -> bool>(path_exists: E, p: Seq<char>) -> bool {
    exists|s: &str| s@ == p && #[trigger] path_exists.ensures((s,), false)
}

/// `b` is what `f` answered for the path `p`.
pub open spec fn answered<F: Fn(&str) -> bool>(f: F, p: Seq<char>, b: bool) -> bool {
    exists|s: &str| s@ == p && #[trigger] f.ensures((s,), b)
}

/// `answers` holds what `f` answered for each of `paths`, in order.
pub open spec fn answers_for<F: Fn(&str) -> bool>(f: F, paths: Seq<Seq<char>>, answers: Seq<bool>) -> bool {
    &&& answers.len() == paths.len()
    &&& forall|k: int| 0 <= k < paths.len() ==> #[trigger] answered(f, paths[k], answers[k])
}

/// The candidates for which `f` answers yes, in order.
pub(crate) fn keep_answered<F: Fn(&str) -> bool>(cands: Vec<String>, f: &F) -> (r: Vec<String>)
    requires
        forall|p: &str| #[trigger] f.requires((p,)),
    ensures
        exists|ans: Seq<bool>| #[trigger] answers_for(*f, cands.deep_view(), ans) && r.deep_view() == picked(cands.deep_view(), ans, true),
        forall|k: int| 0 <= k < r@.len() ==> answered(*f, #[trigger] r@[k]@, true),
{
    let ghost cs = cands.deep_view();
    let ghost mut ans: Seq<bool> = Seq::empty();
    let mut out: Vec<String> = Vec::new();
    let mut i: usize = 0;
    while i < cands.len()
        invariant
            i <= cands@.len(),
            cs == cands.deep_view(),
            forall|p: &str| #[trigger] f.requires((p,)),
            ans.len() == i,
            forall|k: int| 0 <= k < i ==> #[trigger] answered(*f, cs[k], ans[k]),
            out.deep_view() == picked(cs.take(i as int), ans, true),
            forall|k: int| 0 <= k < out@.len() ==> answered(*f, #[trigger] out@[k]@, true),
        decreases cands@.len() - i,
    {
        let p = cands[i].as_str();
        let yes = f(p);
        proof {
            assert(f.ensures((p,), yes));
            assert(answered(*f, cs[i as int], yes));
        }
        let ghost prev = out.deep_view();
        let ghost prev_out = out@;
        if yes {
            out.push(cands[i].clone());
            assert(out.deep_view() =~= prev.push(cs[i as int]));
            assert forall|k: int| 0 <= k < out@.len() implies answered(*f, #[trigger] out@[k]@, true) by {
                if k < prev_out.len() {
                    assert(out@[k] == prev_out[k]);
                }
            }
        }
        proof {
            let t = cs.take(i + 1);
            let na = ans.push(yes);
            assert(t.drop_last() =~= cs.take(i as int));
            assert(na.drop_last() =~= ans);
            assert(t.last() == cs[i as int]);
            assert forall|k: int| 0 <= k < i + 1 implies #[trigger] answered(*f, cs[k], na[k]) by {
                if k < i {
                    assert(na[k] == ans[k]);
                }
            }
            ans = na;
        }
        i = i + 1;
    }
    assert(cs.take(i as int) =~= cs);
    assert(answers_for(*f, cs, ans));
    out
}

/// A built-in category: its registry metadata, with the given roots.
pub open spec fn from_registry(c: CleanCategory) -> bool {
    &&& registered(c.id@)
    &&& c.title@ == descriptor_for(c.id@).title
    &&& c.risk == descriptor_for(c.id@).risk
    &&& c.reclaimable == descriptor_for(c.id@).reclaimable
}

/// A category as an id and its roots.
pub open spec fn cat_models(cats: Seq<CleanCategory>) -> Seq<(Seq<char>, Seq<Seq<char>>)> {
    cats.map_values(|c: CleanCategory| (c.id@, c.roots.deep_view()))
}

/// `[(id, roots)]` when `id` is registered, nothing otherwise.
pub open spec fn reg(id: Seq<char>, roots: Seq<Seq<char>>) -> Seq<(Seq<char>, Seq<Seq<char>>)> {
    if registered(id) {
        seq![(id, roots)]
    } else {
        Seq::empty()
    }
}

/// `[(id, [root])]` when `found` and `id` is registered.
pub open spec fn reg_if(found: bool, id: Seq<char>, root: Seq<char>) -> Seq<(Seq<char>, Seq<Seq<char>>)> {
    if found {
        reg(id, seq![root])
    } else {
        Seq::empty()
    }
}

/// `c` is pnpm's store, cleaned by `pnpm store prune`.
pub open spec fn prunes_pnpm(c: CleanCategory) -> bool {
    &&& c.id@ == "dev-pnpm"@
    &&& match c.cleanup_command {
        Some(cmd) => cmd@ == "pnpm store prune"@,
        None => false,
    }
}

/// No category runs a cleanup command, but (where `allow_prune`) pnpm's
/// store, which runs `pnpm store prune`.
pub open spec fn commands_ok(cats: Seq<CleanCategory>, allow_prune: bool) -> bool {
    forall|i: int|
        #![trigger cats[i]]
        0 <= i < cats.len() ==> cats[i].cleanup_command is None || (allow_prune && prunes_pnpm(cats[i]))
}

/// No category runs a cleanup command.
pub open spec fn trash_only(cats: Seq<CleanCategory>) -> bool {
    commands_ok(cats, false)
}

/// Every category is a registry category whose roots all exist.
pub open spec fn found<E: Fn(&str) -> bool>(cats: Seq<CleanCategory>, path_exists: E) -> bool {
    forall|i: int|
        #![trigger cats[i]]
        0 <= i < cats.len() ==> from_registry(cats[i]) && cats[i].roots@.len() > 0 && forall|k: int|
            0 <= k < cats[i].roots@.len() ==> existed(path_exists, #[trigger] cats[i].roots@[k]@)
}

/// `c` is category `id` with the one root `root`.
pub open spec fn single_root(c: CleanCategory, id: Seq<char>, root: Seq<char>) -> bool {
    &&& c.id@ == id
    &&& c.roots@.len() == 1
    &&& c.roots@[0]@ == root
}

/// Some category in `cats` has the id `id`.
pub open spec fn has_id(cats: Seq<CleanCategory>, id: Seq<char>) -> bool {
    exists|i: int| #![trigger cats[i]] 0 <= i < cats.len() && cats[i].id@ == id
}

/// Each category whose id is not in `skip` is one of the (id, root) `targets`.
pub open spec fn from_targets(cats: Seq<CleanCategory>, targets: Seq<(Seq<char>, Seq<char>)>, skip: Set<Seq<char>>) -> bool {
    forall|i: int|
        #![trigger cats[i]]
        0 <= i < cats.len() && !skip.contains(cats[i].id@) ==> exists|j: int|
            0 <= j < targets.len() && single_root(cats[i], #[trigger] targets[j].0, targets[j].1)
}

/// Each of the first `n` targets made its category, or its root was reported
/// missing (or its id is not in the registry).
pub open spec fn targets_covered<E: Fn(&str) -> bool>(
    cats: Seq<CleanCategory>,
    targets: Seq<(Seq<char>, Seq<char>)>,
    n: int,
    path_exists: E,
) -> bool {
    forall|j: int|
        #![trigger targets[j]]
        0 <= j < n ==> has_id(cats, targets[j].0) || missing(path_exists, targets[j].1) || !registered(targets[j].0)
}

/// The single-root categories probed under the cache directory, in order:
/// each id with the directory that makes it.
pub open spec fn xdg_targets(cache_home: Seq<char>, home: Option<Seq<char>>) -> Seq<(Seq<char>, Seq<char>)> {
    let base = seq![
        ("chrome-cache"@, join_spec(cache_home, "google-chrome"@, '/')),
        ("chromium-cache"@, join_spec(cache_home, "chromium"@, '/')),
        ("edge-cache"@, join_spec(cache_home, "microsoft-edge"@, '/')),
        ("brave-cache"@, join_spec(cache_home, "BraveSoftware"@, '/')),
        ("thumbnails"@, join_spec(cache_home, "thumbnails"@, '/')),
        ("pip-cache"@, join_spec(cache_home, "pip"@, '/')),
        ("fontconfig"@, join_spec(cache_home, "fontconfig"@, '/')),
    ];
    match home {
        Some(h) => base.push(("npm-cache"@, join_spec(h, ".npm/_cacache"@, '/'))),
        None => base,
    }
}

/// The registry category `id` with `roots`, if `id` is registered.
pub(crate) fn builtin(id: &str, roots: Vec<String>) -> (r: Option<CleanCategory>)
    ensures
        match r {
            Some(c) => from_registry(c) && c.id@ == id@ && c.roots@ == roots@ && c.cleanup_command is None,
            None => !registered(id@),
        },
{
    match lookup(id) {
        Some(_) => Some(category(id, roots)),
        None => None,
    }
}

/// Push `c` onto `cats`, keeping what holds of every category, given that it
/// holds of `c`.
pub(crate) fn push_found<E: Fn(&str) -> bool>(cats: &mut Vec<CleanCategory>, c: CleanCategory, path_exists: &E)
    requires
        found(old(cats)@, *path_exists),
        found(seq![c], *path_exists),
    ensures
        final(cats)@ == old(cats)@.push(c),
        found(final(cats)@, *path_exists),
{
    let ghost before = cats@;
    cats.push(c);
    assert forall|i: int| #![trigger cats@[i]] 0 <= i < cats@.len() implies from_registry(cats@[i]) && cats@[i].roots@.len() > 0
        && forall|k: int| 0 <= k < cats@[i].roots@.len() ==> existed(*path_exists, #[trigger] cats@[i].roots@[k]@) by {
        if i < before.len() {
            assert(cats@[i] == before[i]);
        } else {
            assert(cats@[i] == seq![c][0]);
        }
    }
}

/// Probe `targets[n]` (the category `id` at `root`): push the category when
/// the root exists.
fn push_target<E: Fn(&str) -> bool>(
    cats: &mut Vec<CleanCategory>,
    id: &str,
    root: String,
    path_exists: &E,
    Ghost(targets): Ghost<Seq<(Seq<char>, Seq<char>)>>,
    Ghost(n): Ghost<int>,
    Ghost(skip): Ghost<Set<Seq<char>>>,
    Ghost(allow_prune): Ghost<bool>,
) -> (yes: bool)
    requires
        forall|p: &str| #[trigger] path_exists.requires((p,)),
        0 <= n < targets.len(),
        targets[n] == (id@, root@),
        found(old(cats)@, *path_exists),
        commands_ok(old(cats)@, allow_prune),
        from_targets(old(cats)@, targets, skip),
        targets_covered(old(cats)@, targets, n, *path_exists),
    ensures
        found(final(cats)@, *path_exists),
        commands_ok(final(cats)@, allow_prune),
        from_targets(final(cats)@, targets, skip),
        targets_covered(final(cats)@, targets, n + 1, *path_exists),
        old(cats)@.is_prefix_of(final(cats)@),
        final(cats)@.len() <= old(cats)@.len() + 1,
        forall|i: int| old(cats)@.len() <= i < final(cats)@.len() ==> single_root(#[trigger] final(cats)@[i], id@, root@),
        answered(*path_exists, root@, yes),
        cat_models(final(cats)@) == cat_models(old(cats)@) + reg_if(yes, id@, root@),
{
    let ghost before = cats@;
    let ghost pv = root@;
    let yes = path_exists(root.as_str());
    assert(answered(*path_exists, pv, yes));
    if yes {
        assert(existed(*path_exists, pv));
        match builtin(id, vec![root]) {
            Some(c) => {
                assert(found(seq![c], *path_exists)) by {
                    assert(c.roots@.len() == 1);
                    assert(c.roots@[0]@ == pv);
                }
                assert(c.roots.deep_view() =~= seq![pv]);
                push_found(cats, c, path_exists);
                assert(cat_models(cats@) =~= cat_models(before).push((id@, seq![pv])));
                assert(cats@[before.len() as int] == c);
                assert(commands_ok(cats@, allow_prune)) by {
                    assert forall|i: int| #![trigger cats@[i]] 0 <= i < cats@.len() implies cats@[i].cleanup_command is None || (allow_prune
                        && prunes_pnpm(cats@[i])) by {
                        if i < before.len() {
                            assert(cats@[i] == before[i]);
                        }
                    }
                }
                assert(from_targets(cats@, targets, skip)) by {
                    assert forall|i: int| #![trigger cats@[i]] 0 <= i < cats@.len() && !skip.contains(cats@[i].id@) implies exists|j: int|
                        0 <= j < targets.len() && single_root(cats@[i], #[trigger] targets[j].0, targets[j].1) by {
                        if i < before.len() {
                            assert(cats@[i] == before[i]);
                        } else {
                            assert(single_root(cats@[i], targets[n].0, targets[n].1));
                        }
                    }
                }
                assert(targets_covered(cats@, targets, n + 1, *path_exists)) by {
                    assert forall|j: int| #![trigger targets[j]] 0 <= j < n + 1 implies has_id(cats@, targets[j].0) || missing(
                        *path_exists,
                        targets[j].1,
                    ) || !registered(targets[j].0) by {
                        if j < n {
                            if has_id(before, targets[j].0) {
                                let w = choose|w: int| #![trigger before[w]] 0 <= w < before.len() && before[w].id@ == targets[j].0;
                                assert(cats@[w] == before[w]);
                            }
                        } else {
                            assert(cats@[before.len() as int].id@ == targets[j].0);
                        }
                    }
                }
            },
            None => {
                assert(targets_covered(cats@, targets, n + 1, *path_exists));
                assert(cat_models(cats@) =~= cat_models(before) + reg_if(yes, id@, pv));
            },
        }
    } else {
        assert(missing(*path_exists, pv));
        assert(targets_covered(cats@, targets, n + 1, *path_exists));
        assert(cat_models(cats@) =~= cat_models(before) + reg_if(yes, id@, pv));
    }
    assert(before.is_prefix_of(cats@));
    yes
}

/// Each profile's `cache2` folder.
pub open spec fn cache2_under(profiles: Seq<Seq<char>>) -> Seq<Seq<char>> {
    profiles.map_values(|p: Seq<char>| join_spec(p, "cache2"@, '/'))
}

/// `roots` are the `cache2` folders, reported existing, of the profiles
/// `list_dir` gave for `profiles_dir`, in that order.
pub open spec fn firefox_roots_found<E: Fn(&str) -> bool, L: Fn(&str) -> Vec<String>>(
    profiles_dir: Seq<char>,
    path_exists: E,
    list_dir: L,
    roots: Seq<Seq<char>>,
) -> bool {
    exists|entries: Seq<Seq<char>>, ans: Seq<bool>|
        #![trigger listed_by(list_dir, profiles_dir, entries), answers_for(path_exists, cache2_under(entries), ans)]
        listed_by(list_dir, profiles_dir, entries) && answers_for(path_exists, cache2_under(entries), ans) && roots == picked(
            cache2_under(entries),
            ans,
            true,
        )
}

/// The Firefox profiles' `cache2` directories that exist, each profile being
/// an entry of `profiles_dir` as `list_dir` gives it.
fn firefox_roots<E: Fn(&str) -> bool, L: Fn(&str) -> Vec<String>>(profiles_dir: &str, path_exists: &E, list_dir: &L) -> (r: Vec<
    String,
>)
    requires
        forall|p: &str| #[trigger] path_exists.requires((p,)),
        forall|p: &str| #[trigger] list_dir.requires((p,)),
    ensures
        forall|k: int| 0 <= k < r@.len() ==> existed(*path_exists, #[trigger] r@[k]@),
        firefox_roots_found(profiles_dir@, *path_exists, *list_dir, r.deep_view()),
{
    let entries = list_dir(profiles_dir);
    let ghost es = entries.deep_view();
    assert(listed_by(*list_dir, profiles_dir@, es)) by {
        assert(call_ensures(*list_dir, (profiles_dir,), entries));
    }
    let mut cands: Vec<String> = Vec::new();
    let mut i: usize = 0;
    while i < entries.len()
        invariant
            i <= entries@.len(),
            es == entries.deep_view(),
            cands.deep_view() == cache2_under(es).take(i as int),
        decreases entries@.len() - i,
    {
        let ghost prev = cands.deep_view();
        cands.push(join_path(entries[i].as_str(), "cache2", '/'));
        assert(cands.deep_view() =~= prev.push(join_spec(es[i as int], "cache2"@, '/')));
        assert(cache2_under(es).take(i + 1) =~= cache2_under(es).take(i as int).push(join_spec(es[i as int], "cache2"@, '/')));
        i = i + 1;
    }
    assert(cache2_under(es).take(i as int) =~= cache2_under(es));
    let ghost cv = cands.deep_view();
    let roots = keep_answered(cands, path_exists);
    let ghost a = choose|a: Seq<bool>| #[trigger] answers_for(*path_exists, cv, a) && roots.deep_view() == picked(cv, a, true);
    assert(firefox_roots_found(profiles_dir@, *path_exists, *list_dir, roots.deep_view()));
    assert forall|k: int| 0 <= k < roots@.len() implies existed(*path_exists, #[trigger] roots@[k]@) by {
        assert(answered(*path_exists, roots@[k]@, true));
    }
    roots
}

/// The categories of `targets[lo..hi]`, in order: each target whose root
/// was answered existing (`ans`), when its id is registered.
pub open spec fn target_pairs(targets: Seq<(Seq<char>, Seq<char>)>, ans: Seq<bool>, lo: int, hi: int) -> Seq<
    (Seq<char>, Seq<Seq<char>>),
>
    decreases hi - lo,
{
    if hi <= lo {
        Seq::empty()
    } else {
        target_pairs(targets, ans, lo, hi - 1) + reg_if(ans[hi - 1], targets[hi - 1].0, targets[hi - 1].1)
    }
}

/// `ans` holds what `path_exists` answered for each target's root.
pub open spec fn target_answers<E: Fn(&str) -> bool>(path_exists: E, targets: Seq<(Seq<char>, Seq<char>)>, ans: Seq<bool>) -> bool {
    &&& ans.len() == targets.len()
    &&& forall|j: int| 0 <= j < targets.len() ==> #[trigger] answered(path_exists, targets[j].1, ans[j])
}

/// The Firefox profiles directory under the cache directory.
pub open spec fn firefox_dir(cache_home: Seq<char>) -> Seq<char> {
    join_spec(cache_home, "mozilla/firefox"@, '/')
}

/// What the Firefox probe found: whether its profiles directory was
/// answered existing (`present`) and then the profiles' `cache2` folders
/// reported existing.
pub open spec fn firefox_probe<E: Fn(&str) -> bool, L: Fn(&str) -> Vec<String>>(
    cache_home: Seq<char>,
    path_exists: E,
    list_dir: L,
    present: bool,
    roots: Seq<Seq<char>>,
) -> bool {
    &&& answered(path_exists, firefox_dir(cache_home), present)
    &&& present ==> firefox_roots_found(firefox_dir(cache_home), path_exists, list_dir, roots)
}

/// The categories found under the cache directory: the first four targets,
/// Firefox (when its profiles directory exists and some profile has a
/// `cache2`), then the other targets.
pub open spec fn xdg_pairs(
    targets: Seq<(Seq<char>, Seq<char>)>,
    ans: Seq<bool>,
    present: bool,
    roots: Seq<Seq<char>>,
) -> Seq<(Seq<char>, Seq<Seq<char>>)> {
    target_pairs(targets, ans, 0, 4) + (if present && roots.len() > 0 {
        reg("firefox-cache"@, roots)
    } else {
        Seq::empty()
    }) + target_pairs(targets, ans, 4, targets.len() as int)
}

/// What every probe of the cache directory answered.
pub open spec fn xdg_answers<E: Fn(&str) -> bool, L: Fn(&str) -> Vec<String>>(
    cache_home: Seq<char>,
    targets: Seq<(Seq<char>, Seq<char>)>,
    path_exists: E,
    list_dir: L,
    ans: Seq<bool>,
    present: bool,
    roots: Seq<Seq<char>>,
) -> bool {
    &&& target_answers(path_exists, targets, ans)
    &&& firefox_probe(cache_home, path_exists, list_dir, present, roots)
}

proof fn lemma_target_pairs_prefix(targets: Seq<(Seq<char>, Seq<char>)>, a1: Seq<bool>, a2: Seq<bool>, lo: int, hi: int)
    requires
        forall|j: int| lo <= j < hi ==> a1[j] == a2[j],
    ensures
        target_pairs(targets, a1, lo, hi) == target_pairs(targets, a2, lo, hi),
    decreases hi - lo,
{
    if hi > lo {
        lemma_target_pairs_prefix(targets, a1, a2, lo, hi - 1);
    }
}

/// One more answer extends the categories by that target's.
proof fn lemma_target_pairs_push(targets: Seq<(Seq<char>, Seq<char>)>, ans: Seq<bool>, x: bool, lo: int)
    requires
        0 <= lo <= ans.len(),
    ensures
        target_pairs(targets, ans.push(x), lo, (ans.len() + 1) as int) == target_pairs(targets, ans, lo, ans.len() as int) + reg_if(
            x,
            targets[ans.len() as int].0,
            targets[ans.len() as int].1,
        ),
{
    assert forall|j: int| lo <= j < ans.len() implies ans.push(x)[j] == ans[j] by {}
    lemma_target_pairs_prefix(targets, ans.push(x), ans, lo, ans.len() as int);
}

/// Probe Firefox's profiles under the cache directory and push its category
/// when some profile has a `cache2` that exists.
fn push_firefox<E: Fn(&str) -> bool, L: Fn(&str) -> Vec<String>>(
    cats: &mut Vec<CleanCategory>,
    cache_home: &str,
    path_exists: &E,
    list_dir: &L,
    Ghost(t): Ghost<Seq<(Seq<char>, Seq<char>)>>,
    Ghost(n): Ghost<int>,
) -> (res: (bool, Ghost<Seq<Seq<char>>>))
    requires
        forall|p: &str| #[trigger] path_exists.requires((p,)),
        forall|p: &str| #[trigger] list_dir.requires((p,)),
        0 <= n <= t.len(),
        found(old(cats)@, *path_exists),
        trash_only(old(cats)@),
        from_targets(old(cats)@, t, set!["firefox-cache"@]),
        targets_covered(old(cats)@, t, n, *path_exists),
    ensures
        found(final(cats)@, *path_exists),
        trash_only(final(cats)@),
        from_targets(final(cats)@, t, set!["firefox-cache"@]),
        targets_covered(final(cats)@, t, n, *path_exists),
        firefox_probe(cache_home@, *path_exists, *list_dir, res.0, res.1@),
        cat_models(final(cats)@) == cat_models(old(cats)@) + (if res.0 && res.1@.len() > 0 {
            reg("firefox-cache"@, res.1@)
        } else {
            Seq::empty()
        }),
{
    let ghost skip = set!["firefox-cache"@];
    let ghost before = cats@;
    let profiles = join_path(cache_home, "mozilla/firefox", '/');
    let present = path_exists(profiles.as_str());
    assert(answered(*path_exists, firefox_dir(cache_home@), present));
    let ghost mut ff: Seq<Seq<char>> = Seq::empty();
    if present {
        let roots = firefox_roots(profiles.as_str(), path_exists, list_dir);
        proof {
            ff = roots.deep_view();
        }
        if roots.len() > 0 {
            let ghost rs = roots@;
            match builtin("firefox-cache", roots) {
                Some(c) => {
                    assert(c.roots.deep_view() =~= ff);
                    assert(found(seq![c], *path_exists)) by {
                        assert(c.roots@ == rs);
                    }
                    proof {
                        reveal_strlit("firefox-cache");
                        lemma_push_skipped(cats@, c, t, n, skip, *path_exists);
                    }
                    push_found(cats, c, path_exists);
                    assert(cats@ == before.push(c));
                    assert(trash_only(cats@)) by {
                        assert forall|i: int| #![trigger cats@[i]] 0 <= i < cats@.len() implies cats@[i].cleanup_command is None by {
                            if i < before.len() {
                                assert(cats@[i] == before[i]);
                            }
                        }
                    }
                    assert(cat_models(cats@) =~= cat_models(before).push((c.id@, ff)));
                },
                None => {
                    assert(cat_models(cats@) =~= cat_models(before) + Seq::<(Seq<char>, Seq<Seq<char>>)>::empty());
                },
            }
        } else {
            assert(cat_models(cats@) =~= cat_models(before) + Seq::<(Seq<char>, Seq<Seq<char>>)>::empty());
        }
    } else {
        assert(cat_models(cats@) =~= cat_models(before) + Seq::<(Seq<char>, Seq<Seq<char>>)>::empty());
    }
    (present, Ghost(ff))
}

/// The targets as (id, root) strings (see [`xdg_targets`]).
fn xdg_target_list(cache_home: &str, home: Option<&str>) -> (r: Vec<(String, String)>)
    ensures
        r@.map_values(|p: (String, String)| (p.0@, p.1@)) == xdg_targets(cache_home@, opt_str(home)),
{
    let mut r: Vec<(String, String)> = Vec::new();
    r.push((owned("chrome-cache"), join_path(cache_home, "google-chrome", '/')));
    r.push((owned("chromium-cache"), join_path(cache_home, "chromium", '/')));
    r.push((owned("edge-cache"), join_path(cache_home, "microsoft-edge", '/')));
    r.push((owned("brave-cache"), join_path(cache_home, "BraveSoftware", '/')));
    r.push((owned("thumbnails"), join_path(cache_home, "thumbnails", '/')));
    r.push((owned("pip-cache"), join_path(cache_home, "pip", '/')));
    r.push((owned("fontconfig"), join_path(cache_home, "fontconfig", '/')));
    match home {
        Some(h) => r.push((owned("npm-cache"), join_path(h, ".npm/_cacache", '/'))),
        None => {},
    }
    assert(r@.map_values(|p: (String, String)| (p.0@, p.1@)) =~= xdg_targets(cache_home@, opt_str(home)));
    r
}

/// Probe `targets[lo..hi]` in order (see [`push_target`]).
fn push_targets<E: Fn(&str) -> bool>(
    cats: &mut Vec<CleanCategory>,
    list: &Vec<(String, String)>,
    lo: usize,
    hi: usize,
    path_exists: &E,
    Ghost(t): Ghost<Seq<(Seq<char>, Seq<char>)>>,
    Ghost(ans0): Ghost<Seq<bool>>,
) -> (ans: Ghost<Seq<bool>>)
    requires
        forall|p: &str| #[trigger] path_exists.requires((p,)),
        list@.map_values(|p: (String, String)| (p.0@, p.1@)) == t,
        lo <= hi <= t.len(),
        ans0.len() == lo,
        found(old(cats)@, *path_exists),
        trash_only(old(cats)@),
        from_targets(old(cats)@, t, set!["firefox-cache"@]),
        targets_covered(old(cats)@, t, lo as int, *path_exists),
    ensures
        found(final(cats)@, *path_exists),
        trash_only(final(cats)@),
        from_targets(final(cats)@, t, set!["firefox-cache"@]),
        targets_covered(final(cats)@, t, hi as int, *path_exists),
        ans@.len() == hi,
        ans@.take(lo as int) == ans0,
        forall|j: int| lo <= j < hi ==> #[trigger] answered(*path_exists, t[j].1, ans@[j]),
        cat_models(final(cats)@) == cat_models(old(cats)@) + target_pairs(t, ans@, lo as int, hi as int),
{
    let ghost before = cat_models(cats@);
    let ghost mut ans: Seq<bool> = ans0;
    let mut j: usize = lo;
    assert(before + target_pairs(t, ans, lo as int, lo as int) =~= before);
    assert(ans.take(lo as int) =~= ans0);
    while j < hi
        invariant
            lo <= j <= hi,
            hi <= t.len(),
            list@.map_values(|p: (String, String)| (p.0@, p.1@)) == t,
            forall|p: &str| #[trigger] path_exists.requires((p,)),
            ans.len() == j,
            ans.take(lo as int) == ans0,
            forall|k: int| lo <= k < j ==> #[trigger] answered(*path_exists, t[k].1, ans[k]),
            found(cats@, *path_exists),
            trash_only(cats@),
            from_targets(cats@, t, set!["firefox-cache"@]),
            targets_covered(cats@, t, j as int, *path_exists),
            cat_models(cats@) == before + target_pairs(t, ans, lo as int, j as int),
        decreases hi - j,
    {
        assert(list@.map_values(|p: (String, String)| (p.0@, p.1@))[j as int] == (list@[j as int].0@, list@[j as int].1@));
        let ghost skip = set!["firefox-cache"@];
        let a = push_target(cats, list[j].0.as_str(), list[j].1.clone(), path_exists, Ghost(t), Ghost(j as int), Ghost(skip), Ghost(false));
        proof {
            lemma_target_pairs_push(t, ans, a, lo as int);
            let na = ans.push(a);
            assert(na.take(lo as int) =~= ans.take(lo as int));
            assert forall|k: int| lo <= k < j + 1 implies #[trigger] answered(*path_exists, t[k].1, na[k]) by {
                if k < j {
                    assert(na[k] == ans[k]);
                }
            }
            ans = na;
        }
        j = j + 1;
    }
    Ghost(ans)
}

/// The categories found under the XDG cache directory `cache_home` (plus
/// npm's cache under `home`): each browser or tool cache whose directory
/// exists, and one Firefox category over every profile's `cache2` that
/// exists. `list_dir` gives a directory's entries as paths.
pub fn build_categories<E: Fn(&str) -> bool, L: Fn(&str) -> Vec<String>>(
    cache_home: &str,
    home: Option<&str>,
    path_exists: E,
    list_dir: L,
) -> (r: Vec<CleanCategory>)
    requires
        forall|p: &str| #[trigger] path_exists.requires((p,)),
        forall|p: &str| #[trigger] list_dir.requires((p,)),
    ensures
        found(r@, path_exists),
        trash_only(r@),
        from_targets(r@, xdg_targets(cache_home@, opt_str(home)), set!["firefox-cache"@]),
        targets_covered(r@, xdg_targets(cache_home@, opt_str(home)), xdg_targets(cache_home@, opt_str(home)).len() as int, path_exists),
        exists|ans: Seq<bool>, present: bool, roots: Seq<Seq<char>>|
            #[trigger] xdg_answers(cache_home@, xdg_targets(cache_home@, opt_str(home)), path_exists, list_dir, ans, present, roots)
                && cat_models(r@) == xdg_pairs(xdg_targets(cache_home@, opt_str(home)), ans, present, roots),
{
    let ghost t = xdg_targets(cache_home@, opt_str(home));
    let list = xdg_target_list(cache_home, home);
    let mut cats: Vec<CleanCategory> = Vec::new();
    assert(cat_models(cats@) =~= Seq::<(Seq<char>, Seq<Seq<char>>)>::empty());
    let Ghost(a4) = push_targets(&mut cats, &list, 0, 4, &path_exists, Ghost(t), Ghost(Seq::empty()));
    let ghost m4 = cat_models(cats@);
    let (present, Ghost(ff)) = push_firefox(&mut cats, cache_home, &path_exists, &list_dir, Ghost(t), Ghost(4));
    let ghost m5 = cat_models(cats@);
    let n = list.len();
    let Ghost(ans) = push_targets(&mut cats, &list, 4, n, &path_exists, Ghost(t), Ghost(a4));
    proof {
        lemma_target_pairs_prefix(t, ans, a4, 0, 4);
        assert forall|j: int| 0 <= j < 4 implies ans[j] == a4[j] by {
            assert(ans.take(4)[j] == ans[j]);
        }
        assert(cat_models(cats@) =~= xdg_pairs(t, ans, present, ff));
        assert forall|j: int| 0 <= j < t.len() implies #[trigger] answered(path_exists, t[j].1, ans[j]) by {
            if j < 4 {
                assert(ans[j] == a4[j]);
            }
        }
        assert(target_answers(path_exists, t, ans));
        assert(xdg_answers(cache_home@, t, path_exists, list_dir, ans, present, ff));
    }
    cats
}

/// The XDG cache directory: `XDG_CACHE_HOME` when set (even to nothing),
/// else `$HOME/.cache`, else none.
pub open spec fn cache_home_spec(xdg_cache_home: Option<Seq<char>>, home: Option<Seq<char>>) -> Option<Seq<char>> {
    match xdg_cache_home {
        Some(x) => Some(x),
        None => match home {
            Some(h) => Some(join_spec(h, ".cache"@, '/')),
            None => None,
        },
    }
}

/// The cleanable categories of the XDG cache directory, as
/// `build_categories` finds them there; none when neither `XDG_CACHE_HOME`
/// (`xdg_cache_home`) nor `HOME` (`home`) is set.
pub fn discover_categories<E: Fn(&str) -> bool, L: Fn(&str) -> Vec<String>>(
    xdg_cache_home: Option<&str>,
    home: Option<&str>,
    path_exists: E,
    list_dir: L,
) -> (r: Vec<CleanCategory>)
    requires
        forall|p: &str| #[trigger] path_exists.requires((p,)),
        forall|p: &str| #[trigger] list_dir.requires((p,)),
    ensures
        found(r@, path_exists),
        trash_only(r@),
        match cache_home_spec(opt_str(xdg_cache_home), opt_str(home)) {
            Some(ch) => {
                &&& from_targets(r@, xdg_targets(ch, opt_str(home)), set!["firefox-cache"@])
                &&& targets_covered(r@, xdg_targets(ch, opt_str(home)), xdg_targets(ch, opt_str(home)).len() as int, path_exists)
                &&& exists|ans: Seq<bool>, present: bool, roots: Seq<Seq<char>>|
                    #[trigger] xdg_answers(ch, xdg_targets(ch, opt_str(home)), path_exists, list_dir, ans, present, roots) && cat_models(r@)
                        == xdg_pairs(xdg_targets(ch, opt_str(home)), ans, present, roots)
            },
            None => r@.len() == 0,
        },
{
    match xdg_cache_home {
        Some(x) => build_categories(x, home, path_exists, list_dir),
        None => match home {
            Some(h) => {
                let cache_home = join_path(h, ".cache", '/');
                build_categories(cache_home.as_str(), home, path_exists, list_dir)
            },
            None => Vec::new(),
        },
    }
}

/// An environment value that is set and not empty.
pub open spec fn set_nonempty(v: Option<Seq<char>>) -> Option<Seq<char>> {
    match v {
        Some(s) => if s.len() > 0 { Some(s) } else { None },
        None => None,
    }
}

/// A tool's home: its relocation variable when set and not empty, else
/// `default_dir` under the home directory, else none.
pub open spec fn tool_home(relocated: Option<Seq<char>>, home: Option<Seq<char>>, default_dir: Seq<char>) -> Option<Seq<char>> {
    match set_nonempty(relocated) {
        Some(r) => Some(r),
        None => match set_nonempty(home) {
            Some(h) => Some(join_spec(h, default_dir, '/')),
            None => None,
        },
    }
}

/// The single-root developer caches, in the order they are probed: uv's and
/// pipx's data under the home directory, then gradle's caches.
pub open spec fn dev_targets(home: Option<Seq<char>>, gradle_home: Option<Seq<char>>) -> Seq<(Seq<char>, Seq<char>)> {
    let under_home = match home {
        Some(h) => seq![("dev-uv"@, join_spec(h, ".local/share/uv"@, '/')), ("dev-pipx"@, join_spec(h, ".local/share/pipx"@, '/'))],
        None => Seq::empty(),
    };
    match gradle_home {
        Some(g) => under_home.push(("dev-gradle"@, join_spec(g, "caches"@, '/'))),
        None => under_home,
    }
}

/// What holds of pnpm's and cargo's categories: pnpm's store is the one
/// under the home directory or the one under `PNPM_HOME`, pruned rather than
/// trashed, and found at most once; cargo's roots are its registry cache and
/// git checkouts under its home.
pub open spec fn dev_special_ok(
    cats: Seq<CleanCategory>,
    home: Option<Seq<char>>,
    pnpm_home: Option<Seq<char>>,
    cargo_home: Option<Seq<char>>,
) -> bool {
    &&& forall|i: int|
        #![trigger cats[i]]
        0 <= i < cats.len() && cats[i].id@ == "dev-pnpm"@ ==> prunes_pnpm(cats[i]) && ((home matches Some(h) && single_root(
            cats[i],
            "dev-pnpm"@,
            join_spec(h, ".local/share/pnpm/store"@, '/'),
        )) || (pnpm_home matches Some(p) && single_root(cats[i], "dev-pnpm"@, join_spec(p, "store"@, '/'))))
    &&& forall|i: int, j: int|
        #![trigger cats[i], cats[j]]
        0 <= i < j < cats.len() && cats[i].id@ == "dev-pnpm"@ ==> cats[j].id@ != "dev-pnpm"@
    &&& forall|i: int|
        #![trigger cats[i]]
        0 <= i < cats.len() && cats[i].id@ == "dev-cargo"@ ==> (cargo_home matches Some(c) && forall|k: int|
            0 <= k < cats[i].roots@.len() ==> #[trigger] cats[i].roots@[k]@ == join_spec(c, "registry/cache"@, '/')
                || cats[i].roots@[k]@ == join_spec(c, "git/checkouts"@, '/'))
}

/// Appending categories whose id is neither pnpm's nor cargo's keeps
/// `dev_special_ok`.
proof fn lemma_dev_special_extend(
    old_cats: Seq<CleanCategory>,
    new_cats: Seq<CleanCategory>,
    id: Seq<char>,
    home: Option<Seq<char>>,
    pnpm_home: Option<Seq<char>>,
    cargo_home: Option<Seq<char>>,
)
    requires
        dev_special_ok(old_cats, home, pnpm_home, cargo_home),
        old_cats.is_prefix_of(new_cats),
        forall|i: int| old_cats.len() <= i < new_cats.len() ==> (#[trigger] new_cats[i]).id@ == id,
        id != "dev-pnpm"@,
        id != "dev-cargo"@,
    ensures
        dev_special_ok(new_cats, home, pnpm_home, cargo_home),
{
    assert forall|i: int| #![trigger new_cats[i]] 0 <= i < old_cats.len() implies new_cats[i] == old_cats[i] by {}
}

/// The developer cache ids differ from pnpm's and cargo's.
proof fn lemma_dev_ids_distinct()
    ensures
        "dev-uv"@ != "dev-pnpm"@,
        "dev-uv"@ != "dev-cargo"@,
        "dev-pipx"@ != "dev-pnpm"@,
        "dev-pipx"@ != "dev-cargo"@,
        "dev-gradle"@ != "dev-pnpm"@,
        "dev-gradle"@ != "dev-cargo"@,
        "dev-cargo"@ != "dev-pnpm"@,
        "dev-uv"@ != "dev-pipx"@,
        "dev-uv"@ != "dev-gradle"@,
        "dev-pipx"@ != "dev-gradle"@,
        "dev-cargo"@ != "dev-gradle"@,
{
    reveal_strlit("dev-pnpm");
    reveal_strlit("dev-cargo");
    reveal_strlit("dev-uv");
    reveal_strlit("dev-pipx");
    reveal_strlit("dev-gradle");
    assert("dev-uv"@.len() != "dev-pnpm"@.len());
    assert("dev-uv"@.len() != "dev-cargo"@.len());
    assert("dev-pipx"@[5] != "dev-pnpm"@[5]);
    assert("dev-pipx"@.len() != "dev-cargo"@.len());
    assert("dev-gradle"@.len() != "dev-pnpm"@.len());
    assert("dev-gradle"@.len() != "dev-cargo"@.len());
    assert("dev-cargo"@.len() != "dev-pnpm"@.len());
    assert("dev-uv"@.len() != "dev-pipx"@.len());
    assert("dev-uv"@.len() != "dev-gradle"@.len());
    assert("dev-pipx"@.len() != "dev-gradle"@.len());
    assert("dev-cargo"@.len() != "dev-gradle"@.len());
}

/// Where a developer tool's category comes in the discovery order.
pub open spec fn dev_rank(id: Seq<char>) -> int {
    if id == "dev-pnpm"@ {
        0
    } else if id == "dev-uv"@ {
        1
    } else if id == "dev-pipx"@ {
        2
    } else if id == "dev-cargo"@ {
        3
    } else if id == "dev-gradle"@ {
        4
    } else {
        5
    }
}

/// The categories come in discovery order (pnpm, uv, pipx, cargo, gradle),
/// each at most once.
pub open spec fn in_dev_order(cats: Seq<CleanCategory>) -> bool {
    forall|i: int, j: int| 0 <= i < j < cats.len() ==> dev_rank(#[trigger] cats[i].id@) < dev_rank(#[trigger] cats[j].id@)
}

proof fn lemma_dev_order_push(before: Seq<CleanCategory>, after: Seq<CleanCategory>, id: Seq<char>)
    requires
        in_dev_order(before),
        forall|i: int| 0 <= i < before.len() ==> dev_rank(#[trigger] before[i].id@) < dev_rank(id),
        before.is_prefix_of(after),
        after.len() <= before.len() + 1,
        forall|i: int| before.len() <= i < after.len() ==> (#[trigger] after[i]).id@ == id,
    ensures
        in_dev_order(after),
        forall|i: int| 0 <= i < after.len() ==> dev_rank(#[trigger] after[i].id@) <= dev_rank(id),
{
    assert forall|i: int| 0 <= i < after.len() implies dev_rank(#[trigger] after[i].id@) <= dev_rank(id) by {
        if i < before.len() {
            assert(after[i] == before[i]);
        }
    }
    assert forall|i: int, j: int| 0 <= i < j < after.len() implies dev_rank(#[trigger] after[i].id@) < dev_rank(
        #[trigger] after[j].id@,
    ) by {
        assert(after[i] == before[i]);
        if j < before.len() {
            assert(after[j] == before[j]);
        }
    }
}

/// The category id "dev-pnpm" occurs in `cats`.
fn has_pnpm(cats: &Vec<CleanCategory>) -> (r: bool)
    ensures
        r == has_id(cats@, "dev-pnpm"@),
{
    let mut i: usize = 0;
    while i < cats.len()
        invariant
            i <= cats@.len(),
            forall|k: int| 0 <= k < i ==> (#[trigger] cats@[k]).id@ != "dev-pnpm"@,
        decreases cats@.len() - i,
    {
        if str_eq(cats[i].id.as_str(), "dev-pnpm") {
            assert(cats@[i as int].id@ == "dev-pnpm"@);
            return true;
        }
        i = i + 1;
    }
    false
}

/// pnpm's store at `root`: its store is hardlinked, so trashing frees nothing
/// and it is pruned instead.
fn pnpm_category(root: String) -> (r: Option<CleanCategory>)
    ensures
        match r {
            Some(c) => from_registry(c) && prunes_pnpm(c) && c.roots@ == seq![root],
            None => !registered("dev-pnpm"@),
        },
{
    match builtin("dev-pnpm", vec![root]) {
        Some(c) => {
            let mut c = c;
            c.cleanup_command = Some(owned("pnpm store prune"));
            Some(c)
        },
        None => None,
    }
}

/// Appending one category whose id is in `skip` keeps the target facts, and
/// whatever id the old categories had.
proof fn lemma_push_skipped<E: Fn(&str) -> bool>(
    old_cats: Seq<CleanCategory>,
    c: CleanCategory,
    targets: Seq<(Seq<char>, Seq<char>)>,
    n: int,
    skip: Set<Seq<char>>,
    path_exists: E,
)
    requires
        skip.contains(c.id@),
        from_targets(old_cats, targets, skip),
        targets_covered(old_cats, targets, n, path_exists),
    ensures
        from_targets(old_cats.push(c), targets, skip),
        targets_covered(old_cats.push(c), targets, n, path_exists),
        forall|id: Seq<char>| has_id(old_cats, id) ==> #[trigger] has_id(old_cats.push(c), id),
{
    let new_cats = old_cats.push(c);
    assert forall|i: int| #![trigger new_cats[i]] 0 <= i < old_cats.len() implies new_cats[i] == old_cats[i] by {}
    assert forall|id: Seq<char>| has_id(old_cats, id) implies #[trigger] has_id(new_cats, id) by {
        let w = choose|w: int| #![trigger old_cats[w]] 0 <= w < old_cats.len() && old_cats[w].id@ == id;
        assert(new_cats[w] == old_cats[w]);
    }
    assert forall|j: int| #![trigger targets[j]] 0 <= j < n implies has_id(new_cats, targets[j].0) || missing(path_exists, targets[j].1)
        || !registered(targets[j].0) by {
        if has_id(old_cats, targets[j].0) {
            assert(has_id(new_cats, targets[j].0));
        }
    }
}

/// A prefix's ids stay.
proof fn lemma_has_id_prefix(old_cats: Seq<CleanCategory>, new_cats: Seq<CleanCategory>, id: Seq<char>)
    requires
        old_cats.is_prefix_of(new_cats),
        has_id(old_cats, id),
    ensures
        has_id(new_cats, id),
{
    let w = choose|w: int| #![trigger old_cats[w]] 0 <= w < old_cats.len() && old_cats[w].id@ == id;
    assert(new_cats[w] == old_cats[w]);
}

/// The developer tool caches found here: pnpm's store (under the home
/// directory, else under `PNPM_HOME`), uv's and pipx's data, cargo's registry
/// cache and git checkouts (under `CARGO_HOME` when set and not empty, else
/// `~/.cargo`), and gradle's caches (under `GRADLE_USER_HOME`, else
/// `~/.gradle`). pnpm, uv and pipx are looked for only when `HOME` is set and
/// not empty.
#[verifier::rlimit(60)]
pub fn discover_dev_categories<E: Fn(&str) -> bool>(
    home: Option<&str>,
    pnpm_home: Option<&str>,
    cargo_home: Option<&str>,
    gradle_user_home: Option<&str>,
    path_exists: E,
) -> (r: Vec<CleanCategory>)
    requires
        forall|p: &str| #[trigger] path_exists.requires((p,)),
    ensures
        found(r@, path_exists),
        commands_ok(r@, true),
        in_dev_order(r@),
        forall|i: int, j: int| 0 <= i < j < r@.len() ==> (#[trigger] r@[i]).id@ != (#[trigger] r@[j]).id@,
        from_targets(
            r@,
            dev_targets(set_nonempty(opt_str(home)), tool_home(opt_str(gradle_user_home), opt_str(home), ".gradle"@)),
            set!["dev-pnpm"@, "dev-cargo"@],
        ),
        targets_covered(
            r@,
            dev_targets(set_nonempty(opt_str(home)), tool_home(opt_str(gradle_user_home), opt_str(home), ".gradle"@)),
            dev_targets(set_nonempty(opt_str(home)), tool_home(opt_str(gradle_user_home), opt_str(home), ".gradle"@)).len() as int,
            path_exists,
        ),
        dev_special_ok(
            r@,
            set_nonempty(opt_str(home)),
            set_nonempty(opt_str(pnpm_home)),
            tool_home(opt_str(cargo_home), opt_str(home), ".cargo"@),
        ),
        set_nonempty(opt_str(home)) matches Some(h) ==> has_id(r@, "dev-pnpm"@) || missing(
            path_exists,
            join_spec(h, ".local/share/pnpm/store"@, '/'),
        ) || !registered("dev-pnpm"@),
        set_nonempty(opt_str(home)) is Some ==> (set_nonempty(opt_str(pnpm_home)) matches Some(p) ==> has_id(r@, "dev-pnpm"@)
            || missing(path_exists, join_spec(p, "store"@, '/')) || !registered("dev-pnpm"@)),
        tool_home(opt_str(cargo_home), opt_str(home), ".cargo"@) matches Some(c) ==> has_id(r@, "dev-cargo"@) || (missing(
            path_exists,
            join_spec(c, "registry/cache"@, '/'),
        ) && missing(path_exists, join_spec(c, "git/checkouts"@, '/'))) || !registered("dev-cargo"@),
{
    proof {
        lemma_dev_ids_distinct();
    }
    let ghost h = set_nonempty(opt_str(home));
    let ghost ph = set_nonempty(opt_str(pnpm_home));
    let ghost cr = tool_home(opt_str(cargo_home), opt_str(home), ".cargo"@);
    let ghost gr = tool_home(opt_str(gradle_user_home), opt_str(home), ".gradle"@);
    let ghost t = dev_targets(h, gr);
    let ghost skip = set!["dev-pnpm"@, "dev-cargo"@];
    let ghost pnpm_path = match h {
        Some(hv) => join_spec(hv, ".local/share/pnpm/store"@, '/'),
        None => Seq::empty(),
    };
    let ghost store_path = match ph {
        Some(pv) => join_spec(pv, "store"@, '/'),
        None => Seq::empty(),
    };
    let home_path = home_dir(home);
    let mut cats: Vec<CleanCategory> = Vec::new();
    let mut next: usize = 0;
    if let Some(hs) = &home_path {
        let pnpm = join_path(hs.as_str(), ".local/share/pnpm/store", '/');
        if path_exists(pnpm.as_str()) {
            let ghost pv = pnpm@;
            assert(existed(path_exists, pv));
            match pnpm_category(pnpm) {
                Some(c) => {
                    assert(found(seq![c], path_exists)) by {
                        assert(c.roots@[0]@ == pv);
                    }
                    proof {
                        lemma_push_skipped(cats@, c, t, 0, skip, path_exists);
                    }
                    let ghost b1 = cats@;
                    push_found(&mut cats, c, &path_exists);
                    assert(cats@[0] == c);
                    assert(has_id(cats@, "dev-pnpm"@));
                    proof {
                        assert(b1.is_prefix_of(cats@));
                        lemma_dev_order_push(b1, cats@, "dev-pnpm"@);
                    }
                },
                None => {},
            }
        } else {
            let ghost pv = pnpm@;
            assert(missing(path_exists, pv));
        }
        if let Some(p) = pnpm_home {
            if !p.is_empty() {
                let store = join_path(p, "store", '/');
                let ghost sv = store@;
                if path_exists(store.as_str()) {
                    assert(existed(path_exists, sv));
                    if !has_pnpm(&cats) {
                        match pnpm_category(store) {
                            Some(c) => {
                                let ghost before = cats@;
                                assert(found(seq![c], path_exists)) by {
                                    assert(c.roots@[0]@ == sv);
                                }
                                proof {
                                    lemma_push_skipped(cats@, c, t, 0, skip, path_exists);
                                }
                                push_found(&mut cats, c, &path_exists);
                                assert(cats@[before.len() as int] == c);
                                assert(has_id(cats@, "dev-pnpm"@));
                                proof {
                                    assert forall|i: int| 0 <= i < before.len() implies dev_rank(#[trigger] before[i].id@) < dev_rank(
                                        "dev-pnpm"@,
                                    ) by {
                                        if dev_rank(before[i].id@) <= 0 {
                                            assert(has_id(before, "dev-pnpm"@));
                                        }
                                    }
                                    assert(before.is_prefix_of(cats@));
                                    lemma_dev_order_push(before, cats@, "dev-pnpm"@);
                                }
                                assert(commands_ok(cats@, true)) by {
                                    assert forall|i: int| #![trigger cats@[i]] 0 <= i < before.len() implies cats@[i] == before[i] by {}
                                }
                                assert(dev_special_ok(cats@, h, ph, cr)) by {
                                    assert forall|i: int| #![trigger cats@[i]] 0 <= i < before.len() implies cats@[i] == before[i] by {}
                                    assert(ph == Some(p@));
                                    assert(c.roots@[0]@ == sv);
                                    assert forall|i: int| #![trigger before[i]] 0 <= i < before.len() implies before[i].id@ != "dev-pnpm"@ by {
                                        if before[i].id@ == "dev-pnpm"@ {
                                            assert(has_id(before, "dev-pnpm"@));
                                        }
                                    }
                                }
                            },
                            None => {},
                        }
                    }
                } else {
                    assert(missing(path_exists, sv));
                }
            }
        }
        let ghost before_uv = cats@;
        push_target(
            &mut cats,
            "dev-uv",
            join_path(hs.as_str(), ".local/share/uv", '/'),
            &path_exists,
            Ghost(t),
            Ghost(0),
            Ghost(skip),
            Ghost(true),
        );
        proof {
            lemma_dev_order_push(before_uv, cats@, "dev-uv"@);
            lemma_dev_special_extend(before_uv, cats@, "dev-uv"@, h, ph, cr);
            if has_id(before_uv, "dev-pnpm"@) {
                lemma_has_id_prefix(before_uv, cats@, "dev-pnpm"@);
            }
        }
        let ghost before_pipx = cats@;
        push_target(
            &mut cats,
            "dev-pipx",
            join_path(hs.as_str(), ".local/share/pipx", '/'),
            &path_exists,
            Ghost(t),
            Ghost(1),
            Ghost(skip),
            Ghost(true),
        );
        proof {
            lemma_dev_order_push(before_pipx, cats@, "dev-pipx"@);
            lemma_dev_special_extend(before_pipx, cats@, "dev-pipx"@, h, ph, cr);
            if has_id(before_pipx, "dev-pnpm"@) {
                lemma_has_id_prefix(before_pipx, cats@, "dev-pnpm"@);
            }
        }
        next = 2;
    }
    let ghost after_home = cats@;
    let cargo_root: Option<String> = match cargo_home {
        Some(c) => {
            if !c.is_empty() {
                Some(owned(c))
            } else {
                match &home_path {
                    Some(hs) => Some(join_path(hs.as_str(), ".cargo", '/')),
                    None => None,
                }
            }
        },
        None => match &home_path {
            Some(hs) => Some(join_path(hs.as_str(), ".cargo", '/')),
            None => None,
        },
    };
    assert(match cargo_root {
        Some(cs) => cr == Some(cs@),
        None => cr is None,
    });
    if let Some(ch) = &cargo_root {
        let cache = join_path(ch.as_str(), "registry/cache", '/');
        let git = join_path(ch.as_str(), "git/checkouts", '/');
        let ghost cache_v = cache@;
        let ghost git_v = git@;
        let mut roots: Vec<String> = Vec::new();
        if path_exists(cache.as_str()) {
            assert(existed(path_exists, cache_v));
            roots.push(cache);
        } else {
            assert(missing(path_exists, cache_v));
        }
        let ghost with_cache = roots@;
        if path_exists(git.as_str()) {
            assert(existed(path_exists, git_v));
            roots.push(git);
            assert(roots@[roots@.len() - 1]@ == git_v);
        } else {
            assert(missing(path_exists, git_v));
        }
        assert(forall|k: int| 0 <= k < roots@.len() ==> #[trigger] roots@[k]@ == cache_v || roots@[k]@ == git_v) by {
            assert forall|k: int| 0 <= k < roots@.len() implies #[trigger] roots@[k]@ == cache_v || roots@[k]@ == git_v by {
                if k < with_cache.len() {
                    assert(roots@[k] == with_cache[k]);
                }
            }
        }
        assert(forall|k: int| 0 <= k < roots@.len() ==> existed(path_exists, #[trigger] roots@[k]@));
        if roots.len() > 0 {
            let ghost rs = roots@;
            match builtin("dev-cargo", roots) {
                Some(c) => {
                    let ghost before = cats@;
                    assert(found(seq![c], path_exists)) by {
                        assert(c.roots@ == rs);
                    }
                    proof {
                        lemma_push_skipped(cats@, c, t, next as int, skip, path_exists);
                    }
                    push_found(&mut cats, c, &path_exists);
                    assert(cats@[before.len() as int] == c);
                    assert(has_id(cats@, "dev-cargo"@));
                    proof {
                        assert(before.is_prefix_of(cats@));
                        lemma_dev_order_push(before, cats@, "dev-cargo"@);
                    }
                    assert(commands_ok(cats@, true)) by {
                        assert forall|i: int| #![trigger cats@[i]] 0 <= i < before.len() implies cats@[i] == before[i] by {}
                    }
                    assert(dev_special_ok(cats@, h, ph, cr)) by {
                        assert forall|i: int| #![trigger cats@[i]] 0 <= i < before.len() implies cats@[i] == before[i] by {}
                    }
                },
                None => {},
            }
        }
    }
    proof {
        if has_id(after_home, "dev-pnpm"@) {
            lemma_has_id_prefix(after_home, cats@, "dev-pnpm"@);
        }
    }
    let ghost after_cargo = cats@;
    let gradle_root: Option<String> = match gradle_user_home {
        Some(g) => {
            if !g.is_empty() {
                Some(owned(g))
            } else {
                match &home_path {
                    Some(hs) => Some(join_path(hs.as_str(), ".gradle", '/')),
                    None => None,
                }
            }
        },
        None => match &home_path {
            Some(hs) => Some(join_path(hs.as_str(), ".gradle", '/')),
            None => None,
        },
    };
    if let Some(g) = &gradle_root {
        push_target(
            &mut cats,
            "dev-gradle",
            join_path(g.as_str(), "caches", '/'),
            &path_exists,
            Ghost(t),
            Ghost(next as int),
            Ghost(skip),
            Ghost(true),
        );
        proof {
            lemma_dev_order_push(after_cargo, cats@, "dev-gradle"@);
            lemma_dev_special_extend(after_cargo, cats@, "dev-gradle"@, h, ph, cr);
        }
    }
    proof {
        if has_id(after_cargo, "dev-pnpm"@) {
            lemma_has_id_prefix(after_cargo, cats@, "dev-pnpm"@);
        }
        if has_id(after_cargo, "dev-cargo"@) {
            lemma_has_id_prefix(after_cargo, cats@, "dev-cargo"@);
        }
    }
    assert forall|i: int, j: int| 0 <= i < j < cats@.len() implies (#[trigger] cats@[i]).id@ != (#[trigger] cats@[j]).id@ by {
        assert(dev_rank(cats@[i].id@) < dev_rank(cats@[j].id@));
    }
    cats
}

} // verus!
