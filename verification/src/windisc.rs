//! The built-in cleanable categories found on a Windows machine: the user's
//! temp and crash-dump folders, every Chromium-based browser profile's
//! caches, npm's and pip's caches, Firefox's profile caches, and (deep scan
//! only) Windows Update downloads and the Delivery Optimization cache. The
//! developer caches are found separately and come first.
//!
//! Whether a path exists, is a directory or a file, and what a directory
//! holds are asked of the caller through the closures handed in.
use vstd::prelude::*;

use crate::clean::{listed_by, picked};
use crate::domain::categories::registered;
use crate::discover::{
    answered, answers_for, builtin, cat_models, existed, from_registry, keep_answered, push_found, reg, reg_if, single_root,
};
use crate::domain::models::CleanCategory;
use crate::paths::{join_path, join_spec};
use crate::sorting::{sort_by_text, sorted_asc};
use crate::text::{chars_of, push_chars, push_str, string_of};

verus! {

/// The Chromium-based browsers: the id prefix of their categories and their
/// `User Data` directory under `%LOCALAPPDATA%`.
pub open spec fn chromium_browsers_spec() -> Seq<(Seq<char>, Seq<char>)> {
    seq![
        ("chrome"@, "Google\\Chrome\\User Data"@),
        ("edge"@, "Microsoft\\Edge\\User Data"@),
        ("brave"@, "BraveSoftware\\Brave-Browser\\User Data"@),
        ("vivaldi"@, "Vivaldi\\User Data"@),
        ("opera"@, "Opera Software\\Opera Stable"@),
        ("opera-gx"@, "Opera Software\\Opera GX Stable"@),
    ]
}

/// The cache folders of a Chromium profile: the id suffix of each and its
/// folder name.
pub open spec fn chromium_caches_spec() -> Seq<(Seq<char>, Seq<char>)> {
    seq![("cache"@, "Cache"@), ("code-cache"@, "Code Cache"@), ("gpu"@, "GPUCache"@)]
}

pub open spec fn pair_views(v: Seq<(&'static str, &'static str)>) -> Seq<(Seq<char>, Seq<char>)> {
    v.map_values(|p: (&'static str, &'static str)| (p.0@, p.1@))
}

/// The Chromium-based browsers (see [`chromium_browsers_spec`]).
pub fn chromium_browsers() -> (r: Vec<(&'static str, &'static str)>)
    ensures
        pair_views(r@) == chromium_browsers_spec(),
{
    let r = vec![
        ("chrome", "Google\\Chrome\\User Data"),
        ("edge", "Microsoft\\Edge\\User Data"),
        ("brave", "BraveSoftware\\Brave-Browser\\User Data"),
        ("vivaldi", "Vivaldi\\User Data"),
        ("opera", "Opera Software\\Opera Stable"),
        ("opera-gx", "Opera Software\\Opera GX Stable"),
    ];
    assert(pair_views(r@) =~= chromium_browsers_spec());
    r
}

/// The cache folders of a Chromium profile (see [`chromium_caches_spec`]).
pub fn chromium_caches() -> (r: Vec<(&'static str, &'static str)>)
    ensures
        pair_views(r@) == chromium_caches_spec(),
{
    let r = vec![("cache", "Cache"), ("code-cache", "Code Cache"), ("gpu", "GPUCache")];
    assert(pair_views(r@) =~= chromium_caches_spec());
    r
}

/// The id of a browser's cache category: `{browser}-{suffix}`.
pub open spec fn chromium_id(browser: Seq<char>, suffix: Seq<char>) -> Seq<char> {
    browser.push('-') + suffix
}

/// `id` is the id of some browser's cache category.
pub open spec fn is_chromium_id(id: Seq<char>) -> bool {
    exists|b: int, c: int|
        0 <= b < chromium_browsers_spec().len() && 0 <= c < chromium_caches_spec().len() && id == chromium_id(
            #[trigger] chromium_browsers_spec()[b].0,
            #[trigger] chromium_caches_spec()[c].0,
        )
}

fn chromium_id_of(browser: &str, suffix: &str) -> (r: String)
    ensures
        r@ == chromium_id(browser@, suffix@),
{
    let mut v = chars_of(browser);
    v.push('-');
    push_str(&mut v, suffix);
    string_of(v.as_slice())
}

/// What was asked of a `User Data` entry `e`, in order, until settled: is
/// it a directory (`q.0`), then does it hold a `Preferences` file (`q.1`), a
/// `Cache` directory (`q.2`), a `Code Cache` directory (`q.3`).
pub open spec fn profile_answers<D: Fn(&str) -> bool, F: Fn(&str) -> bool>(
    is_dir: D,
    is_file: F,
    e: Seq<char>,
    q: (bool, bool, bool, bool),
) -> bool {
    &&& answered(is_dir, e, q.0)
    &&& q.0 ==> answered(is_file, join_spec(e, "Preferences"@, '\\'), q.1)
    &&& q.0 && !q.1 ==> answered(is_dir, join_spec(e, "Cache"@, '\\'), q.2)
    &&& q.0 && !q.1 && !q.2 ==> answered(is_dir, join_spec(e, "Code Cache"@, '\\'), q.3)
}

/// `keep` says whether the entry `e` is a profile: a directory holding
/// `Preferences`, `Cache` or `Code Cache`, as the answers went.
pub open spec fn profile_check<D: Fn(&str) -> bool, F: Fn(&str) -> bool>(is_dir: D, is_file: F, e: Seq<char>, keep: bool) -> bool {
    exists|q: (bool, bool, bool, bool)| #[trigger] profile_answers(is_dir, is_file, e, q) && keep == (q.0 && (q.1 || q.2 || q.3))
}

/// What was asked of the `User Data` dir itself, in order, until settled:
/// does it hold a `Cache` directory (`q.0`), a `Code Cache` directory
/// (`q.1`).
pub open spec fn flat_answers<D: Fn(&str) -> bool>(is_dir: D, user_data: Seq<char>, q: (bool, bool)) -> bool {
    &&& answered(is_dir, join_spec(user_data, "Cache"@, '\\'), q.0)
    &&& !q.0 ==> answered(is_dir, join_spec(user_data, "Code Cache"@, '\\'), q.1)
}

/// `flat` says whether the `User Data` dir itself holds a `Cache` or a
/// `Code Cache` directory, as the answers went.
pub open spec fn flat_check<D: Fn(&str) -> bool>(is_dir: D, user_data: Seq<char>, flat: bool) -> bool {
    exists|q: (bool, bool)| #[trigger] flat_answers(is_dir, user_data, q) && flat == (q.0 || q.1)
}

/// The profile list `r` of `user_data`, given its entries, which of them are
/// profiles, those profiles, and whether the layout is flat.
pub open spec fn profiles_from<D: Fn(&str) -> bool, F: Fn(&str) -> bool, L: Fn(&str) -> Vec<String>>(
    is_dir: D,
    is_file: F,
    list_dir: L,
    user_data: Seq<char>,
    r: Seq<Seq<char>>,
    entries: Seq<Seq<char>>,
    keeps: Seq<bool>,
    kept: Seq<String>,
    flat: bool,
) -> bool {
    &&& listed_by(list_dir, user_data, entries)
    &&& keeps.len() == entries.len()
    &&& forall|k: int| 0 <= k < entries.len() ==> #[trigger] profile_check(is_dir, is_file, entries[k], keeps[k])
    &&& kept.map_values(|t: String| t@) == picked(entries, keeps, true)
    &&& flat_check(is_dir, user_data, flat)
    &&& r == (if flat {
        seq![user_data]
    } else {
        Seq::empty()
    }) + sorted_asc(kept).map_values(|t: String| t@)
}

/// `r` is the profile list of `user_data`: its entries that are profiles,
/// sorted, after `user_data` itself when the layout is flat.
pub open spec fn profiles_found<D: Fn(&str) -> bool, F: Fn(&str) -> bool, L: Fn(&str) -> Vec<String>>(
    is_dir: D,
    is_file: F,
    list_dir: L,
    user_data: Seq<char>,
    r: Seq<Seq<char>>,
) -> bool {
    exists|entries: Seq<Seq<char>>, keeps: Seq<bool>, kept: Seq<String>, flat: bool|
        #[trigger] profiles_from(is_dir, is_file, list_dir, user_data, r, entries, keeps, kept, flat)
}

/// The profile folders under a Chromium `User Data` dir: each entry that is
/// a directory holding `Preferences`, `Cache` or `Code Cache`, sorted, after
/// the `User Data` dir itself when it holds a `Cache` or `Code Cache`.
pub fn chromium_profiles<D: Fn(&str) -> bool, F: Fn(&str) -> bool, L: Fn(&str) -> Vec<String>>(
    user_data: &str,
    is_dir: &D,
    is_file: &F,
    list_dir: &L,
) -> (r: Vec<String>)
    requires
        forall|p: &str| #[trigger] is_dir.requires((p,)),
        forall|p: &str| #[trigger] is_file.requires((p,)),
        forall|p: &str| #[trigger] list_dir.requires((p,)),
    ensures
        profiles_found(*is_dir, *is_file, *list_dir, user_data@, r.deep_view()),
{
    let entries = list_dir(user_data);
    let ghost es = entries.deep_view();
    assert(listed_by(*list_dir, user_data@, es)) by {
        assert(call_ensures(*list_dir, (user_data,), entries));
    }
    let ghost mut keeps: Seq<bool> = Seq::empty();
    let mut profiles: Vec<String> = Vec::new();
    let mut i: usize = 0;
    while i < entries.len()
        invariant
            i <= entries@.len(),
            es == entries.deep_view(),
            forall|p: &str| #[trigger] is_dir.requires((p,)),
            forall|p: &str| #[trigger] is_file.requires((p,)),
            keeps.len() == i,
            forall|k: int| 0 <= k < i ==> #[trigger] profile_check(*is_dir, *is_file, es[k], keeps[k]),
            profiles@.map_values(|t: String| t@) == picked(es.take(i as int), keeps, true),
        decreases entries@.len() - i,
    {
        let p = entries[i].as_str();
        let d = is_dir(p);
        let mut keep = false;
        let ghost mut q: (bool, bool, bool, bool) = (d, false, false, false);
        if d {
            let prefs = join_path(p, "Preferences", '\\');
            let f = is_file(prefs.as_str());
            if f {
                keep = true;
                proof {
                    q = (d, true, false, false);
                    assert(answered(*is_file, prefs@, true));
                }
            } else {
                let cache = join_path(p, "Cache", '\\');
                let c = is_dir(cache.as_str());
                if c {
                    keep = true;
                    proof {
                        q = (d, false, true, false);
                        assert(answered(*is_file, prefs@, false));
                        assert(answered(*is_dir, cache@, true));
                    }
                } else {
                    let code = join_path(p, "Code Cache", '\\');
                    let k = is_dir(code.as_str());
                    keep = k;
                    proof {
                        q = (d, false, false, k);
                        assert(answered(*is_file, prefs@, false));
                        assert(answered(*is_dir, cache@, false));
                        assert(answered(*is_dir, code@, k));
                    }
                }
            }
        }
        proof {
            assert(answered(*is_dir, es[i as int], d));
            assert(profile_answers(*is_dir, *is_file, es[i as int], q));
            assert(profile_check(*is_dir, *is_file, es[i as int], keep));
        }
        let ghost prev = profiles@.map_values(|t: String| t@);
        if keep {
            profiles.push(entries[i].clone());
            assert(profiles@.map_values(|t: String| t@) =~= prev.push(es[i as int]));
        }
        proof {
            let t = es.take(i + 1);
            let nk = keeps.push(keep);
            assert(t.drop_last() =~= es.take(i as int));
            assert(nk.drop_last() =~= keeps);
            assert(t.last() == es[i as int]);
            assert forall|k: int| 0 <= k < i + 1 implies #[trigger] profile_check(*is_dir, *is_file, es[k], nk[k]) by {
                if k < i {
                    assert(nk[k] == keeps[k]);
                }
            }
            keeps = nk;
        }
        i = i + 1;
    }
    assert(es.take(i as int) =~= es);
    let ghost kept = profiles@;
    let mut sorted = sort_by_text(profiles);
    let cache = join_path(user_data, "Cache", '\\');
    let code = join_path(user_data, "Code Cache", '\\');
    let c = is_dir(cache.as_str());
    let flat = if c {
        true
    } else {
        is_dir(code.as_str())
    };
    proof {
        assert(answered(*is_dir, cache@, c));
        if !c {
            assert(answered(*is_dir, code@, flat));
        }
        let q = (c, if c { false } else { flat });
        assert(flat_answers(*is_dir, user_data@, q));
        assert(flat_check(*is_dir, user_data@, flat));
    }
    let ghost sv = sorted@;
    if flat {
        sorted.insert(0, crate::text::owned(user_data));
        assert(sorted@ =~= seq![sorted@[0]] + sv);
    }
    proof {
        let r = sorted.deep_view();
        assert(r =~= (if flat {
            seq![user_data@]
        } else {
            Seq::<Seq<char>>::empty()
        }) + sorted_asc(kept).map_values(|t: String| t@));
        assert(profiles_from(*is_dir, *is_file, *list_dir, user_data@, r, es, keeps, kept, flat));
    }
    sorted
}

/// Every category is a registry category, runs no cleanup command, and has
/// roots, each of them reported a directory.
pub open spec fn browser_found<D: Fn(&str) -> bool>(cats: Seq<CleanCategory>, is_dir: D) -> bool {
    forall|i: int|
        #![trigger cats[i]]
        0 <= i < cats.len() ==> {
            &&& from_registry(cats[i])
            &&& cats[i].cleanup_command is None
            &&& is_chromium_id(cats[i].id@)
            &&& cats[i].roots@.len() > 0
            &&& forall|k: int| 0 <= k < cats[i].roots@.len() ==> existed(is_dir, #[trigger] cats[i].roots@[k]@)
        }
}

/// The candidate folders named `dir`, one in each profile.
pub open spec fn cache_dirs_in(profiles: Seq<Seq<char>>, dir: Seq<char>) -> Seq<Seq<char>> {
    profiles.map_values(|p: Seq<char>| join_spec(p, dir, '\\'))
}

/// The categories of one browser's first `n` cache kinds, given its profiles
/// and, per cache kind, which profiles' folders were reported directories:
/// one per kind with at least one such folder (and a registered id).
pub open spec fn browser_pairs(browser: Seq<char>, profiles: Seq<Seq<char>>, ans: Seq<Seq<bool>>, n: int) -> Seq<
    (Seq<char>, Seq<Seq<char>>),
>
    decreases n,
{
    if n <= 0 {
        Seq::empty()
    } else {
        let kind = chromium_caches_spec()[n - 1];
        let roots = picked(cache_dirs_in(profiles, kind.1), ans[n - 1], true);
        let id = chromium_id(browser, kind.0);
        browser_pairs(browser, profiles, ans, n - 1) + if roots.len() > 0 && registered(id) {
            seq![(id, roots)]
        } else {
            Seq::empty()
        }
    }
}

/// The categories of the first `n` browsers (see [`browser_pairs`]).
pub open spec fn chromium_pairs(profs: Seq<Seq<Seq<char>>>, ans: Seq<Seq<Seq<bool>>>, n: int) -> Seq<(Seq<char>, Seq<Seq<char>>)>
    decreases n,
{
    if n <= 0 {
        Seq::empty()
    } else {
        chromium_pairs(profs, ans, n - 1) + browser_pairs(
            chromium_browsers_spec()[n - 1].0,
            profs[n - 1],
            ans[n - 1],
            chromium_caches_spec().len() as int,
        )
    }
}

proof fn lemma_browser_pairs_prefix(browser: Seq<char>, profiles: Seq<Seq<char>>, a1: Seq<Seq<bool>>, a2: Seq<Seq<bool>>, n: int)
    requires
        forall|k: int| 0 <= k < n ==> a1[k] == a2[k],
    ensures
        browser_pairs(browser, profiles, a1, n) == browser_pairs(browser, profiles, a2, n),
    decreases n,
{
    if n > 0 {
        lemma_browser_pairs_prefix(browser, profiles, a1, a2, n - 1);
    }
}

proof fn lemma_chromium_pairs_prefix(
    p1: Seq<Seq<Seq<char>>>,
    a1: Seq<Seq<Seq<bool>>>,
    p2: Seq<Seq<Seq<char>>>,
    a2: Seq<Seq<Seq<bool>>>,
    n: int,
)
    requires
        forall|k: int| 0 <= k < n ==> p1[k] == p2[k] && a1[k] == a2[k],
    ensures
        chromium_pairs(p1, a1, n) == chromium_pairs(p2, a2, n),
    decreases n,
{
    if n > 0 {
        lemma_chromium_pairs_prefix(p1, a1, p2, a2, n - 1);
    }
}

/// `profs` holds the profile list of the first `n` browsers, and `ans`,
/// per browser and cache kind, what was answered for each profile's folder.
pub open spec fn chromium_answers<D: Fn(&str) -> bool, F: Fn(&str) -> bool, L: Fn(&str) -> Vec<String>>(
    local_app_data: Seq<char>,
    is_dir: D,
    is_file: F,
    list_dir: L,
    profs: Seq<Seq<Seq<char>>>,
    ans: Seq<Seq<Seq<bool>>>,
    n: int,
) -> bool {
    &&& profs.len() == n
    &&& ans.len() == n
    &&& forall|b: int|
        #![trigger profs[b]]
        0 <= b < n ==> profiles_found(
            is_dir,
            is_file,
            list_dir,
            join_spec(local_app_data, chromium_browsers_spec()[b].1, '\\'),
            profs[b],
        ) && ans[b].len() == chromium_caches_spec().len() && forall|c: int|
            0 <= c < chromium_caches_spec().len() ==> #[trigger] answers_for(
                is_dir,
                cache_dirs_in(profs[b], chromium_caches_spec()[c].1),
                ans[b][c],
            )
}

/// One category per browser and cache kind, with one root per profile that
/// has that cache folder (a directory), in browser order, then cache-kind
/// order.
pub fn chromium_categories<D: Fn(&str) -> bool, F: Fn(&str) -> bool, L: Fn(&str) -> Vec<String>>(
    local_app_data: &str,
    is_dir: &D,
    is_file: &F,
    list_dir: &L,
) -> (r: Vec<CleanCategory>)
    requires
        forall|p: &str| #[trigger] is_dir.requires((p,)),
        forall|p: &str| #[trigger] is_file.requires((p,)),
        forall|p: &str| #[trigger] list_dir.requires((p,)),
    ensures
        browser_found(r@, *is_dir),
        exists|profs: Seq<Seq<Seq<char>>>, ans: Seq<Seq<Seq<bool>>>|
            #[trigger] chromium_answers(local_app_data@, *is_dir, *is_file, *list_dir, profs, ans, chromium_browsers_spec().len() as int)
                && cat_models(r@) == chromium_pairs(profs, ans, chromium_browsers_spec().len() as int),
{
    let browsers = chromium_browsers();
    let caches = chromium_caches();
    let ghost lad = local_app_data@;
    let ghost mut profs: Seq<Seq<Seq<char>>> = Seq::empty();
    let ghost mut ans: Seq<Seq<Seq<bool>>> = Seq::empty();
    let mut cats: Vec<CleanCategory> = Vec::new();
    let mut b: usize = 0;
    assert(cat_models(cats@) =~= Seq::<(Seq<char>, Seq<Seq<char>>)>::empty());
    while b < browsers.len()
        invariant
            b <= browsers@.len(),
            lad == local_app_data@,
            pair_views(browsers@) == chromium_browsers_spec(),
            pair_views(caches@) == chromium_caches_spec(),
            forall|p: &str| #[trigger] is_dir.requires((p,)),
            forall|p: &str| #[trigger] is_file.requires((p,)),
            forall|p: &str| #[trigger] list_dir.requires((p,)),
            browser_found(cats@, *is_dir),
            chromium_answers(lad, *is_dir, *is_file, *list_dir, profs, ans, b as int),
            cat_models(cats@) == chromium_pairs(profs, ans, b as int),
        decreases browsers@.len() - b,
    {
        let (browser, sub) = browsers[b];
        assert(pair_views(browsers@)[b as int] == (browser@, sub@));
        let user_data = join_path(local_app_data, sub, '\\');
        let profiles = chromium_profiles(user_data.as_str(), is_dir, is_file, list_dir);
        let ghost pv = profiles.deep_view();
        let ghost base = cats@;
        let ghost mut ans_b: Seq<Seq<bool>> = Seq::empty();
        let mut c: usize = 0;
        assert(cat_models(cats@) =~= chromium_pairs(profs, ans, b as int) + browser_pairs(browser@, pv, ans_b, 0));
        while c < caches.len()
            invariant
                c <= caches@.len(),
                b < browsers@.len(),
                pair_views(browsers@) == chromium_browsers_spec(),
                pair_views(caches@) == chromium_caches_spec(),
                pair_views(browsers@)[b as int] == (browser@, sub@),
                pv == profiles.deep_view(),
                forall|p: &str| #[trigger] is_dir.requires((p,)),
                browser_found(cats@, *is_dir),
                ans_b.len() == c,
                forall|k: int| 0 <= k < c ==> #[trigger] answers_for(*is_dir, cache_dirs_in(pv, chromium_caches_spec()[k].1), ans_b[k]),
                cat_models(cats@) == chromium_pairs(profs, ans, b as int) + browser_pairs(browser@, pv, ans_b, c as int),
            decreases caches@.len() - c,
        {
            let (suffix, dir) = caches[c];
            assert(pair_views(caches@)[c as int] == (suffix@, dir@));
            let mut cands: Vec<String> = Vec::new();
            let mut k: usize = 0;
            while k < profiles.len()
                invariant
                    k <= profiles@.len(),
                    pv == profiles.deep_view(),
                    cands.deep_view() == cache_dirs_in(pv, dir@).take(k as int),
                decreases profiles@.len() - k,
            {
                let ghost prev = cands.deep_view();
                cands.push(join_path(profiles[k].as_str(), dir, '\\'));
                assert(cands.deep_view() =~= prev.push(join_spec(pv[k as int], dir@, '\\')));
                assert(cache_dirs_in(pv, dir@).take(k + 1) =~= cache_dirs_in(pv, dir@).take(k as int).push(
                    join_spec(pv[k as int], dir@, '\\'),
                ));
                k = k + 1;
            }
            assert(cache_dirs_in(pv, dir@).take(k as int) =~= cache_dirs_in(pv, dir@));
            let ghost cv = cands.deep_view();
            let roots = keep_answered(cands, is_dir);
            let ghost a = choose|a: Seq<bool>| #[trigger] answers_for(*is_dir, cv, a) && roots.deep_view() == picked(cv, a, true);
            let ghost na = ans_b.push(a);
            let id = chromium_id_of(browser, suffix);
            let ghost before = cats@;
            let ghost rs = roots@;
            let ghost rsd = roots.deep_view();
            proof {
                assert(na.drop_last() =~= ans_b);
                assert(chromium_caches_spec()[c as int] == (suffix@, dir@));
                lemma_browser_pairs_prefix(browser@, pv, na, ans_b, c as int);
            }
            if roots.len() > 0 {
                match builtin(id.as_str(), roots) {
                    Some(cat) => {
                        assert(is_chromium_id(cat.id@)) by {
                            assert(cat.id@ == chromium_id(chromium_browsers_spec()[b as int].0, chromium_caches_spec()[c as int].0));
                        }
                        cats.push(cat);
                        assert forall|i: int| #![trigger cats@[i]] 0 <= i < cats@.len() implies {
                            &&& from_registry(cats@[i])
                            &&& cats@[i].cleanup_command is None
                            &&& is_chromium_id(cats@[i].id@)
                            &&& cats@[i].roots@.len() > 0
                            &&& forall|k: int| 0 <= k < cats@[i].roots@.len() ==> existed(*is_dir, #[trigger] cats@[i].roots@[k]@)
                        } by {
                            if i < before.len() {
                                assert(cats@[i] == before[i]);
                            } else {
                                assert(cats@[i].roots@ == rs);
                                assert forall|k: int| 0 <= k < cats@[i].roots@.len() implies existed(*is_dir, #[trigger] cats@[i].roots@[k]@) by {
                                    assert(answered(*is_dir, rs[k]@, true));
                                }
                            }
                        }
                        assert(cat.roots.deep_view() =~= rsd);
                        assert(cat_models(cats@) =~= cat_models(before).push((id@, rsd)));
                    },
                    None => {},
                }
            }
            proof {
                assert(browser_pairs(browser@, pv, na, c + 1) == browser_pairs(browser@, pv, ans_b, c as int) + (if picked(
                    cv,
                    a,
                    true,
                ).len() > 0 && registered(id@) {
                    seq![(id@, picked(cv, a, true))]
                } else {
                    Seq::empty()
                }));
                assert(cat_models(cats@) =~= chromium_pairs(profs, ans, b as int) + browser_pairs(browser@, pv, na, c + 1));
                assert forall|k: int| 0 <= k < c + 1 implies #[trigger] answers_for(*is_dir, cache_dirs_in(pv, chromium_caches_spec()[k].1), na[k]) by {
                    if k < c {
                        assert(na[k] == ans_b[k]);
                    }
                }
                ans_b = na;
            }
            c = c + 1;
        }
        proof {
            let np = profs.push(pv);
            let nan = ans.push(ans_b);
            assert(np.drop_last() =~= profs);
            assert(nan.drop_last() =~= ans);
            assert(chromium_browsers_spec()[b as int] == (browser@, sub@));
            lemma_chromium_pairs_prefix(np, nan, profs, ans, b as int);
            assert(chromium_pairs(np, nan, b + 1) == chromium_pairs(profs, ans, b as int) + browser_pairs(browser@, pv, ans_b, 3));
            assert(chromium_answers(lad, *is_dir, *is_file, *list_dir, np, nan, b + 1)) by {
                assert forall|x: int| #![trigger np[x]] 0 <= x < b + 1 implies profiles_found(
                    *is_dir,
                    *is_file,
                    *list_dir,
                    join_spec(lad, chromium_browsers_spec()[x].1, '\\'),
                    np[x],
                ) && nan[x].len() == chromium_caches_spec().len() && forall|c: int|
                    0 <= c < chromium_caches_spec().len() ==> #[trigger] answers_for(
                        *is_dir,
                        cache_dirs_in(np[x], chromium_caches_spec()[c].1),
                        nan[x][c],
                    ) by {
                    if x < b {
                        assert(np[x] == profs[x]);
                        assert(nan[x] == ans[x]);
                    }
                }
            }
            profs = np;
            ans = nan;
        }
        b = b + 1;
    }
    proof {
        assert(pair_views(browsers@).len() == browsers@.len());
        assert(chromium_answers(lad, *is_dir, *is_file, *list_dir, profs, ans, chromium_browsers_spec().len() as int));
    }
    cats
}

/// The ids a Windows discovery may produce: the fixed ones, a browser cache,
/// and (deep scan only) Windows Update downloads and the Delivery
/// Optimization cache.
pub open spec fn windows_id(id: Seq<char>, deep: bool) -> bool {
    ||| id == "user-temp"@
    ||| id == "crash-dumps"@
    ||| id == "npm-cache"@
    ||| id == "pip-cache"@
    ||| id == "firefox-cache"@
    ||| is_chromium_id(id)
    ||| (deep && (id == "wu-downloads"@ || id == "do-cache"@))
}

/// A category Windows discovery found under `%LOCALAPPDATA%` = `lad`: a
/// registry category with no cleanup command, whose roots are the user's
/// temp folder, the crash-dump folder, or paths reported existing (or
/// reported directories).
pub open spec fn windows_found<E: Fn(&str) -> bool, D: Fn(&str) -> bool>(
    c: CleanCategory,
    lad: Seq<char>,
    deep: bool,
    path_exists: E,
    is_dir: D,
) -> bool {
    &&& from_registry(c)
    &&& c.cleanup_command is None
    &&& windows_id(c.id@, deep)
    &&& c.roots@.len() > 0
    &&& {
        ||| single_root(c, "user-temp"@, join_spec(lad, "Temp"@, '\\'))
        ||| single_root(c, "crash-dumps"@, join_spec(lad, "CrashDumps"@, '\\'))
        ||| forall|k: int|
            0 <= k < c.roots@.len() ==> existed(path_exists, #[trigger] c.roots@[k]@) || existed(is_dir, c.roots@[k]@)
    }
}

/// Append `c`, which Windows discovery found, after the categories found so far.
fn push_windows<E: Fn(&str) -> bool, D: Fn(&str) -> bool>(
    cats: &mut Vec<CleanCategory>,
    c: CleanCategory,
    Ghost(n): Ghost<int>,
    Ghost(lad): Ghost<Seq<char>>,
    Ghost(deep): Ghost<bool>,
    path_exists: &E,
    is_dir: &D,
)
    requires
        0 <= n <= old(cats)@.len(),
        windows_found(c, lad, deep, *path_exists, *is_dir),
        forall|i: int| n <= i < old(cats)@.len() ==> windows_found(#[trigger] old(cats)@[i], lad, deep, *path_exists, *is_dir),
    ensures
        final(cats)@ == old(cats)@.push(c),
        forall|i: int| n <= i < final(cats)@.len() ==> windows_found(#[trigger] final(cats)@[i], lad, deep, *path_exists, *is_dir),
{
    let ghost before = cats@;
    cats.push(c);
    assert forall|i: int| n <= i < cats@.len() implies windows_found(#[trigger] cats@[i], lad, deep, *path_exists, *is_dir) by {
        if i < before.len() {
            assert(cats@[i] == before[i]);
        }
    }
}

/// The category `id` at `root` when `root` exists, with what `path_exists`
/// answered for it.
fn if_exists<E: Fn(&str) -> bool>(id: &str, root: String, path_exists: &E) -> (r: (bool, Option<CleanCategory>))
    requires
        forall|p: &str| #[trigger] path_exists.requires((p,)),
    ensures
        answered(*path_exists, root@, r.0),
        match r.1 {
            Some(c) => r.0 && registered(id@) && from_registry(c) && c.cleanup_command is None && c.id@ == id@ && c.roots.deep_view()
                == seq![root@] && c.roots@.len() == 1 && c.roots@[0]@ == root@,
            None => !(r.0 && registered(id@)),
        },
{
    let ghost rv = root@;
    let yes = path_exists(root.as_str());
    assert(answered(*path_exists, rv, yes));
    if yes {
        let c = builtin(id, vec![root]);
        proof {
            if c is Some {
                let cat = c->0;
                assert(cat.roots.deep_view() =~= seq![rv]);
            }
        }
        (true, c)
    } else {
        (false, None)
    }
}

/// Each Firefox profile's `cache2` folder.
pub open spec fn cache2_dirs(profiles: Seq<Seq<char>>) -> Seq<Seq<char>> {
    profiles.map_values(|p: Seq<char>| join_spec(p, "cache2"@, '\\'))
}

/// `chromium` is what [`chromium_categories`] makes under `lad`.
pub open spec fn chromium_found<D: Fn(&str) -> bool, F: Fn(&str) -> bool, L: Fn(&str) -> Vec<String>>(
    lad: Seq<char>,
    is_dir: D,
    is_file: F,
    list_dir: L,
    chromium: Seq<(Seq<char>, Seq<Seq<char>>)>,
) -> bool {
    exists|profs: Seq<Seq<Seq<char>>>, ans: Seq<Seq<Seq<bool>>>|
        #[trigger] chromium_answers(lad, is_dir, is_file, list_dir, profs, ans, chromium_browsers_spec().len() as int) && chromium
            == chromium_pairs(profs, ans, chromium_browsers_spec().len() as int)
}

/// `roots` are the Firefox profiles' `cache2` folders under `lad` reported
/// existing, in the order `list_dir` gave the profiles.
pub open spec fn firefox_found<E: Fn(&str) -> bool, L: Fn(&str) -> Vec<String>>(
    lad: Seq<char>,
    path_exists: E,
    list_dir: L,
    roots: Seq<Seq<char>>,
) -> bool {
    exists|entries: Seq<Seq<char>>, ans: Seq<bool>|
        #![trigger listed_by(list_dir, join_spec(lad, "Mozilla\\Firefox\\Profiles"@, '\\'), entries), answers_for(path_exists, cache2_dirs(entries), ans)]
        listed_by(list_dir, join_spec(lad, "Mozilla\\Firefox\\Profiles"@, '\\'), entries) && answers_for(
            path_exists,
            cache2_dirs(entries),
            ans,
        ) && roots == picked(cache2_dirs(entries), ans, true)
}

pub open spec fn wu_path(program_data: Seq<char>) -> Seq<char> {
    join_spec(program_data, "Microsoft\\Windows\\SoftwareDistribution\\Download"@, '\\')
}

pub open spec fn do_path(lad: Seq<char>) -> Seq<char> {
    join_spec(lad, "Microsoft\\Windows\\DeliveryOptimization"@, '\\')
}

/// The categories Windows discovery makes under `%LOCALAPPDATA%` = `lad`,
/// given the browser categories, whether npm's and pip's caches, the
/// Windows Update downloads and the Delivery Optimization cache were
/// reported existing, and the Firefox cache folders found: the user temp
/// folder, the crash dumps, the browsers, npm, pip, Firefox, then (deep only)
/// Windows Update and Delivery Optimization; each only with a registered id.
pub open spec fn windows_pairs(
    lad: Seq<char>,
    program_data: Option<Seq<char>>,
    deep: bool,
    chromium: Seq<(Seq<char>, Seq<Seq<char>>)>,
    npm: bool,
    pip: bool,
    firefox: Seq<Seq<char>>,
    wu: bool,
    docache: bool,
) -> Seq<(Seq<char>, Seq<Seq<char>>)> {
    reg("user-temp"@, seq![join_spec(lad, "Temp"@, '\\')]) + reg("crash-dumps"@, seq![join_spec(lad, "CrashDumps"@, '\\')])
        + chromium + reg_if(npm, "npm-cache"@, join_spec(lad, "npm-cache"@, '\\')) + reg_if(
        pip,
        "pip-cache"@,
        join_spec(lad, "pip\\cache"@, '\\'),
    ) + (if firefox.len() > 0 {
        reg("firefox-cache"@, firefox)
    } else {
        Seq::empty()
    }) + (match program_data {
        Some(pd) => reg_if(deep && wu, "wu-downloads"@, wu_path(pd)),
        None => Seq::empty(),
    }) + reg_if(deep && docache, "do-cache"@, do_path(lad))
}

/// What the probes of a Windows discovery answered (see [`windows_pairs`]).
pub open spec fn windows_answers<E: Fn(&str) -> bool, D: Fn(&str) -> bool, F: Fn(&str) -> bool, L: Fn(&str) -> Vec<String>>(
    lad: Seq<char>,
    program_data: Option<Seq<char>>,
    deep: bool,
    path_exists: E,
    is_dir: D,
    is_file: F,
    list_dir: L,
    chromium: Seq<(Seq<char>, Seq<Seq<char>>)>,
    npm: bool,
    pip: bool,
    firefox: Seq<Seq<char>>,
    wu: bool,
    docache: bool,
) -> bool {
    &&& chromium_found(lad, is_dir, is_file, list_dir, chromium)
    &&& answered(path_exists, join_spec(lad, "npm-cache"@, '\\'), npm)
    &&& answered(path_exists, join_spec(lad, "pip\\cache"@, '\\'), pip)
    &&& firefox_found(lad, path_exists, list_dir, firefox)
    &&& deep ==> match program_data {
        Some(pd) => answered(path_exists, wu_path(pd), wu),
        None => true,
    }
    &&& deep ==> answered(path_exists, do_path(lad), docache)
}

/// Append what `c` holds to `cats`: its model joins `cat_models` of what
/// follows the first `n` categories.
fn push_opt<E: Fn(&str) -> bool, D: Fn(&str) -> bool>(
    cats: &mut Vec<CleanCategory>,
    c: Option<CleanCategory>,
    Ghost(n): Ghost<int>,
    Ghost(lad): Ghost<Seq<char>>,
    Ghost(deep): Ghost<bool>,
    path_exists: &E,
    is_dir: &D,
)
    requires
        0 <= n <= old(cats)@.len(),
        c matches Some(x) ==> windows_found(x, lad, deep, *path_exists, *is_dir),
        forall|i: int| n <= i < old(cats)@.len() ==> windows_found(#[trigger] old(cats)@[i], lad, deep, *path_exists, *is_dir),
    ensures
        final(cats)@.len() >= old(cats)@.len(),
        final(cats)@.take(n) == old(cats)@.take(n),
        forall|i: int| n <= i < final(cats)@.len() ==> windows_found(#[trigger] final(cats)@[i], lad, deep, *path_exists, *is_dir),
        cat_models(final(cats)@.skip(n)) == cat_models(old(cats)@.skip(n)) + match c {
            Some(x) => seq![(x.id@, x.roots.deep_view())],
            None => Seq::empty(),
        },
{
    let ghost before = cats@;
    match c {
        Some(x) => {
            push_windows(cats, x, Ghost(n), Ghost(lad), Ghost(deep), path_exists, is_dir);
            assert(cats@.take(n) =~= before.take(n));
            assert(cat_models(cats@.skip(n)) =~= cat_models(before.skip(n)).push((x.id@, x.roots.deep_view())));
        },
        None => {
            assert(cat_models(before.skip(n)) + Seq::<(Seq<char>, Seq<Seq<char>>)>::empty() =~= cat_models(before.skip(n)));
        },
    }
}

/// The categories found on a Windows machine whose `%LOCALAPPDATA%` is
/// `local_app_data` (none without it): the developer caches `dev` first,
/// then the user temp folder, the crash dumps, every browser cache, npm's and
/// pip's caches that exist, Firefox's profile caches that exist, and with
/// `deep` the Windows Update downloads (under `%ProgramData%`) and the
/// Delivery Optimization cache that exist.
pub fn windows_categories<E: Fn(&str) -> bool, D: Fn(&str) -> bool, F: Fn(&str) -> bool, L: Fn(&str) -> Vec<String>>(
    local_app_data: Option<&str>,
    program_data: Option<&str>,
    deep: bool,
    dev: Vec<CleanCategory>,
    path_exists: &E,
    is_dir: &D,
    is_file: &F,
    list_dir: &L,
) -> (r: Vec<CleanCategory>)
    requires
        forall|p: &str| #[trigger] path_exists.requires((p,)),
        forall|p: &str| #[trigger] is_dir.requires((p,)),
        forall|p: &str| #[trigger] is_file.requires((p,)),
        forall|p: &str| #[trigger] list_dir.requires((p,)),
    ensures
        match local_app_data {
            None => r@.len() == 0,
            Some(lad) => {
                &&& r@.len() >= dev@.len()
                &&& r@.take(dev@.len() as int) == dev@
                &&& forall|i: int| dev@.len() <= i < r@.len() ==> windows_found(#[trigger] r@[i], lad@, deep, *path_exists, *is_dir)
                &&& exists|chromium: Seq<(Seq<char>, Seq<Seq<char>>)>, npm: bool, pip: bool, firefox: Seq<Seq<char>>, wu: bool, docache: bool|
                    #[trigger] windows_answers(
                        lad@,
                        crate::paths::opt_str(program_data),
                        deep,
                        *path_exists,
                        *is_dir,
                        *is_file,
                        *list_dir,
                        chromium,
                        npm,
                        pip,
                        firefox,
                        wu,
                        docache,
                    ) && cat_models(r@.skip(dev@.len() as int)) == windows_pairs(
                        lad@,
                        crate::paths::opt_str(program_data),
                        deep,
                        chromium,
                        npm,
                        pip,
                        firefox,
                        wu,
                        docache,
                    )
            },
        },
{
    let lad = match local_app_data {
        Some(l) => l,
        None => return Vec::new(),
    };
    let ghost n = dev@.len() as int;
    let ghost dv = dev@;
    let ghost l = lad@;
    let ghost pdv = crate::paths::opt_str(program_data);
    let mut cats = dev;
    assert(cats@.take(n) =~= dv);
    assert(cat_models(cats@.skip(n)) =~= Seq::<(Seq<char>, Seq<Seq<char>>)>::empty());
    proof {
        reveal_strlit("user-temp");
        reveal_strlit("crash-dumps");
    }
    let temp = join_path(lad, "Temp", '\\');
    let ghost tv = temp@;
    let t = builtin("user-temp", vec![temp]);
    proof {
        if t is Some {
                let c = t->0;
            assert(c.roots.deep_view() =~= seq![tv]);
            assert(single_root(c, "user-temp"@, join_spec(l, "Temp"@, '\\')));
        }
    }
    push_opt(&mut cats, t, Ghost(n), Ghost(l), Ghost(deep), path_exists, is_dir);
    let ghost m1 = cat_models(cats@.skip(n));
    assert(m1 =~= reg("user-temp"@, seq![join_spec(l, "Temp"@, '\\')]));
    let dumps = join_path(lad, "CrashDumps", '\\');
    let ghost dpv = dumps@;
    let d = builtin("crash-dumps", vec![dumps]);
    proof {
        if d is Some {
                let c = d->0;
            assert(c.roots.deep_view() =~= seq![dpv]);
            assert(single_root(c, "crash-dumps"@, join_spec(l, "CrashDumps"@, '\\')));
        }
    }
    push_opt(&mut cats, d, Ghost(n), Ghost(l), Ghost(deep), path_exists, is_dir);
    let ghost m2 = cat_models(cats@.skip(n));
    assert(m2 =~= m1 + reg("crash-dumps"@, seq![join_spec(l, "CrashDumps"@, '\\')]));
    let browsers = chromium_categories(lad, is_dir, is_file, list_dir);
    let ghost all = browsers@;
    let ghost chromium = cat_models(all);
    let nb = browsers.len();
    let mut rest = browsers;
    let mut b: usize = 0;
    assert(all.take(0) =~= Seq::<CleanCategory>::empty());
    assert(m2 + cat_models(all.take(0)) =~= m2);
    while b < nb
        invariant
            nb == all.len(),
            b <= nb,
            rest@ == all.skip(b as int),
            browser_found(all, *is_dir),
            0 <= n,
            dv.len() == n,
            cats@.len() >= n,
            cats@.take(n) == dv,
            forall|i: int| n <= i < cats@.len() ==> windows_found(#[trigger] cats@[i], l, deep, *path_exists, *is_dir),
            cat_models(cats@.skip(n)) == m2 + cat_models(all.take(b as int)),
        decreases nb - b,
    {
        let c = rest.remove(0);
        assert(all[b as int] == c);
        let ghost before = cats@;
        push_windows(&mut cats, c, Ghost(n), Ghost(l), Ghost(deep), path_exists, is_dir);
        assert(cats@.take(n) =~= before.take(n));
        assert(cat_models(cats@.skip(n)) =~= cat_models(before.skip(n)).push((c.id@, c.roots.deep_view())));
        assert(cat_models(all.take(b + 1)) =~= cat_models(all.take(b as int)).push((c.id@, c.roots.deep_view())));
        b = b + 1;
        assert(rest@ =~= all.skip(b as int));
    }
    assert(all.take(nb as int) =~= all);
    let ghost m3 = cat_models(cats@.skip(n));
    let (npm, npm_cat) = if_exists("npm-cache", join_path(lad, "npm-cache", '\\'), path_exists);
    proof {
        if npm_cat is Some {
                let c = npm_cat->0;
            assert(existed(*path_exists, c.roots@[0]@));
        }
    }
    push_opt(&mut cats, npm_cat, Ghost(n), Ghost(l), Ghost(deep), path_exists, is_dir);
    let ghost m4 = cat_models(cats@.skip(n));
    assert(m4 =~= m3 + reg_if(npm, "npm-cache"@, join_spec(l, "npm-cache"@, '\\')));
    let (pip, pip_cat) = if_exists("pip-cache", join_path(lad, "pip\\cache", '\\'), path_exists);
    proof {
        if pip_cat is Some {
                let c = pip_cat->0;
            assert(existed(*path_exists, c.roots@[0]@));
        }
    }
    push_opt(&mut cats, pip_cat, Ghost(n), Ghost(l), Ghost(deep), path_exists, is_dir);
    let ghost m5 = cat_models(cats@.skip(n));
    assert(m5 =~= m4 + reg_if(pip, "pip-cache"@, join_spec(l, "pip\\cache"@, '\\')));
    let profiles = join_path(lad, "Mozilla\\Firefox\\Profiles", '\\');
    let pp = profiles.as_str();
    let entries = list_dir(pp);
    let ghost es = entries.deep_view();
    assert(listed_by(*list_dir, profiles@, es)) by {
        assert(call_ensures(*list_dir, (pp,), entries));
    }
    let mut cands: Vec<String> = Vec::new();
    let mut i: usize = 0;
    while i < entries.len()
        invariant
            i <= entries@.len(),
            es == entries.deep_view(),
            cands.deep_view() == cache2_dirs(es).take(i as int),
        decreases entries@.len() - i,
    {
        let ghost prev = cands.deep_view();
        cands.push(join_path(entries[i].as_str(), "cache2", '\\'));
        assert(cands.deep_view() =~= prev.push(join_spec(es[i as int], "cache2"@, '\\')));
        assert(cache2_dirs(es).take(i + 1) =~= cache2_dirs(es).take(i as int).push(join_spec(es[i as int], "cache2"@, '\\')));
        i = i + 1;
    }
    assert(cache2_dirs(es).take(i as int) =~= cache2_dirs(es));
    let ghost cv = cands.deep_view();
    let roots = keep_answered(cands, path_exists);
    let ghost fa = choose|a: Seq<bool>| #[trigger] answers_for(*path_exists, cv, a) && roots.deep_view() == picked(cv, a, true);
    let ghost firefox = roots.deep_view();
    assert(firefox_found(l, *path_exists, *list_dir, firefox));
    let ghost rs = roots@;
    if roots.len() > 0 {
        let f = builtin("firefox-cache", roots);
        proof {
            if f is Some {
                let c = f->0;
                assert(c.roots@ == rs);
                assert forall|k: int| 0 <= k < c.roots@.len() implies existed(*path_exists, #[trigger] c.roots@[k]@) || existed(
                    *is_dir,
                    c.roots@[k]@,
                ) by {
                    assert(answered(*path_exists, rs[k]@, true));
                }
                assert(c.roots.deep_view() =~= firefox);
            }
        }
        push_opt(&mut cats, f, Ghost(n), Ghost(l), Ghost(deep), path_exists, is_dir);
    }
    let ghost m6 = cat_models(cats@.skip(n));
    assert(m6 =~= m5 + (if firefox.len() > 0 {
        reg("firefox-cache"@, firefox)
    } else {
        Seq::empty()
    }));
    let mut wu = false;
    let mut docache = false;
    if deep {
        match program_data {
            Some(pd) => {
                let (w, wc) = if_exists("wu-downloads", join_path(pd, "Microsoft\\Windows\\SoftwareDistribution\\Download", '\\'), path_exists);
                wu = w;
                proof {
                    if wc is Some {
                let c = wc->0;
                        assert(existed(*path_exists, c.roots@[0]@));
                    }
                }
                push_opt(&mut cats, wc, Ghost(n), Ghost(l), Ghost(deep), path_exists, is_dir);
            },
            None => {},
        }
    }
    let ghost m7 = cat_models(cats@.skip(n));
    assert(m7 =~= m6 + match pdv {
        Some(pd) => reg_if(deep && wu, "wu-downloads"@, wu_path(pd)),
        None => Seq::empty(),
    });
    if deep {
        let (dc, dcat) = if_exists("do-cache", join_path(lad, "Microsoft\\Windows\\DeliveryOptimization", '\\'), path_exists);
        docache = dc;
        proof {
            if dcat is Some {
                let c = dcat->0;
                assert(existed(*path_exists, c.roots@[0]@));
            }
        }
        push_opt(&mut cats, dcat, Ghost(n), Ghost(l), Ghost(deep), path_exists, is_dir);
    }
    let ghost m8 = cat_models(cats@.skip(n));
    assert(m8 =~= m7 + reg_if(deep && docache, "do-cache"@, do_path(l)));
    proof {
        assert(chromium_found(l, *is_dir, *is_file, *list_dir, chromium));
        assert(windows_answers(l, pdv, deep, *path_exists, *is_dir, *is_file, *list_dir, chromium, npm, pip, firefox, wu, docache));
        assert(m8 =~= windows_pairs(l, pdv, deep, chromium, npm, pip, firefox, wu, docache));
    }
    cats
}

} // verus!
