//! Applying user exclusions to discovered clean categories.
//!
//! Exclusions are honored across every cleaning path (diagnose, clean, guard):
//! a category whose id is excluded, or whose roots fall under an excluded path
//! or glob, is dropped *before* size calculation so excluded space is never
//! counted or touched.
use vstd::prelude::*;

use crate::domain::models::{
    CleanCategory, CleanCategoryModel, ExclusionConfig, RiskLevel, RulePackCategory, copy_opt_string,
    copy_strings, opt_view,
};
use crate::text::{
    chars_eq, chars_of, lemma_split_nonempty, replace_char, replace_chars, split_chars, split_on,
    to_lowercase, unicode_lower, views,
};

verus! {

// ---------------------------------------------------------------------------
// Glob matching
// ---------------------------------------------------------------------------

/// What a glob pattern matches, after case folding and separator
/// normalization: `**` matches any run of characters, `*` any run without a
/// `/`, and every other character itself.
pub open spec fn glob(p: Seq<char>, t: Seq<char>) -> bool
    decreases p.len(), t.len() + 1,
{
    if p.len() == 0 {
        t.len() == 0
    } else if p[0] == '*' && p.len() > 1 && p[1] == '*' {
        any_suffix(p.skip(2), t, t.len() as int)
    } else if p[0] == '*' {
        sep_free_suffix(p.skip(1), t, t.len() as int)
    } else {
        t.len() > 0 && t[0] == p[0] && glob(p.skip(1), t.skip(1))
    }
}

/// `q` matches `t` with some prefix of length at most `k` removed.
pub open spec fn any_suffix(q: Seq<char>, t: Seq<char>, k: int) -> bool
    decreases q.len() + 1, k,
{
    if k < 0 {
        false
    } else {
        glob(q, t.skip(k)) || (k > 0 && any_suffix(q, t, k - 1))
    }
}

/// `q` matches `t` with some prefix of length at most `k`, containing no
/// `/`, removed.
pub open spec fn sep_free_suffix(q: Seq<char>, t: Seq<char>, k: int) -> bool
    decreases q.len() + 1, k,
{
    if k < 0 {
        false
    } else {
        (!t.take(k).contains('/') && glob(q, t.skip(k))) || (k > 0 && sep_free_suffix(q, t, k - 1))
    }
}

proof fn lemma_any_suffix_mono(q: Seq<char>, t: Seq<char>, j: int, k: int)
    requires
        0 <= j <= k,
        any_suffix(q, t, j),
    ensures
        any_suffix(q, t, k),
    decreases k - j,
{
    if j < k {
        lemma_any_suffix_mono(q, t, j, k - 1);
    }
}

proof fn lemma_sep_free_mono(q: Seq<char>, t: Seq<char>, j: int, k: int)
    requires
        0 <= j <= k,
        sep_free_suffix(q, t, j),
    ensures
        sep_free_suffix(q, t, k),
    decreases k - j,
{
    if j < k {
        lemma_sep_free_mono(q, t, j, k - 1);
    }
}

/// Past the first `/`, no longer prefix is separator-free.
proof fn lemma_sep_free_stops(q: Seq<char>, t: Seq<char>, s: int, k: int)
    requires
        1 <= s <= k,
        k <= t.len(),
        t[s - 1] == '/',
    ensures
        sep_free_suffix(q, t, k) == sep_free_suffix(q, t, s - 1),
    decreases k - s,
{
    assert(t.take(k).contains('/')) by {
        assert(t.take(k)[s - 1] == '/');
    }
    if k > s {
        lemma_sep_free_stops(q, t, s, k - 1);
    } else {
        assert(k == s);
    }
}

/// Lowercased text with `\` rewritten to `/`.
pub open spec fn glob_form(s: Seq<char>) -> Seq<char> {
    replace_char(unicode_lower(s), '\\', '/')
}

/// Case-insensitive, separator-agnostic glob match.
pub open spec fn glob_ci(pattern: Seq<char>, text: Seq<char>) -> bool {
    glob(glob_form(pattern), glob_form(text))
}

/// Glob matching ignores case: texts (and patterns) with the same lowercase
/// form match alike.
pub proof fn lemma_glob_ignores_case(p1: Seq<char>, p2: Seq<char>, t1: Seq<char>, t2: Seq<char>)
    requires
        unicode_lower(p1) == unicode_lower(p2),
        unicode_lower(t1) == unicode_lower(t2),
    ensures
        glob_ci(p1, t1) <==> glob_ci(p2, t2),
{
}

fn glob_match_impl(p: &Vec<char>, pi: usize, t: &Vec<char>, ti: usize) -> (r: bool)
    requires
        pi <= p@.len(),
        ti <= t@.len(),
    ensures
        r == glob(p@.skip(pi as int), t@.skip(ti as int)),
    decreases p@.len() - pi,
{
    let ghost ps = p@.skip(pi as int);
    let ghost ts = t@.skip(ti as int);
    let plen = p.len();
    let tlen = t.len();
    if pi == plen {
        return ti == tlen;
    }
    assert(ps[0] == p@[pi as int]);
    if p[pi] == '*' {
        let n = tlen - ti;
        if pi + 1 < plen && p[pi + 1] == '*' {
            assert(ps[1] == p@[pi + 1]);
            assert(ps.skip(2) =~= p@.skip(pi + 2));
            let ghost q = ps.skip(2);
            assert(glob(ps, ts) == any_suffix(q, ts, n as int));
            let mut skip: usize = 0;
            while skip <= n
                invariant
                    plen == p@.len(),
                    tlen == t@.len(),
                    n == tlen - ti,
                    ti <= tlen,
                    pi + 2 <= plen,
                    ts.len() == n,
                    ts == t@.skip(ti as int),
                    q == p@.skip(pi + 2),
                    ps == p@.skip(pi as int),
                    glob(ps, ts) == any_suffix(q, ts, n as int),
                    skip <= n + 1,
                    !any_suffix(q, ts, skip - 1),
                decreases n + 1 - skip,
            {
                assert(ts.skip(skip as int) =~= t@.skip(ti + skip));
                if glob_match_impl(p, pi + 2, t, ti + skip) {
                    assert(any_suffix(q, ts, skip as int));
                    proof {
                        lemma_any_suffix_mono(q, ts, skip as int, n as int);
                    }
                    return true;
                }
                assert(!any_suffix(q, ts, skip as int));
                if skip == n {
                    return false;
                }
                skip = skip + 1;
            }
            return false;
        }
        assert(ps.skip(1) =~= p@.skip(pi + 1));
        let ghost q = ps.skip(1);
        assert(!(ps.len() > 1 && ps[1] == '*'));
        assert(glob(ps, ts) == sep_free_suffix(q, ts, n as int));
        let mut skip: usize = 0;
        while skip <= n
            invariant
                plen == p@.len(),
                tlen == t@.len(),
                n == tlen - ti,
                ti <= tlen,
                pi + 1 <= plen,
                ts.len() == n,
                ts == t@.skip(ti as int),
                q == p@.skip(pi + 1),
                ps == p@.skip(pi as int),
                glob(ps, ts) == sep_free_suffix(q, ts, n as int),
                skip <= n + 1,
                forall|j: int| 0 <= j < skip - 1 ==> ts[j] != '/',
                !sep_free_suffix(q, ts, skip - 1),
            decreases n + 1 - skip,
        {
            if skip > 0 && t[ti + skip - 1] == '/' {
                assert(ts[skip - 1] == '/');
                proof {
                    lemma_sep_free_stops(q, ts, skip as int, n as int);
                }
                return false;
            }
            assert(!ts.take(skip as int).contains('/')) by {
                assert forall|j: int| 0 <= j < skip implies ts.take(skip as int)[j] != '/' by {
                    assert(ts.take(skip as int)[j] == ts[j]);
                }
            }
            assert(ts.skip(skip as int) =~= t@.skip(ti + skip));
            if glob_match_impl(p, pi + 1, t, ti + skip) {
                assert(sep_free_suffix(q, ts, skip as int));
                proof {
                    lemma_sep_free_mono(q, ts, skip as int, n as int);
                }
                return true;
            }
            assert(!sep_free_suffix(q, ts, skip as int));
            if skip == n {
                return false;
            }
            skip = skip + 1;
        }
        return false;
    }
    if ti < tlen && p[pi] == t[ti] {
        assert(ps.skip(1) =~= p@.skip(pi + 1));
        assert(ts.skip(1) =~= t@.skip(ti + 1));
        assert(ts[0] == t@[ti as int]);
        return glob_match_impl(p, pi + 1, t, ti + 1);
    }
    proof {
        if ti < tlen {
            assert(ts[0] == t@[ti as int]);
        }
    }
    false
}

/// Case-insensitive glob match of `pattern` against `text`, with `\` and `/`
/// treated alike (so `**/node_modules/**` matches a Windows path).
pub fn glob_match(pattern: &str, text: &str) -> (r: bool)
    ensures
        r == glob_ci(pattern@, text@),
{
    let pl = to_lowercase(pattern);
    let tl = to_lowercase(text);
    let pc = chars_of(pl.as_str());
    let tc = chars_of(tl.as_str());
    let p = replace_chars(&pc, '\\', '/');
    let t = replace_chars(&tc, '\\', '/');
    assert(p@.skip(0) =~= p@);
    assert(t@.skip(0) =~= t@);
    glob_match_impl(&p, 0, &t, 0)
}

/// A pattern with no `*` matches exactly the text equal to it.
pub proof fn lemma_literal_glob(p: Seq<char>, t: Seq<char>)
    requires
        !p.contains('*'),
    ensures
        glob(p, t) <==> p == t,
    decreases p.len(),
{
    if p.len() > 0 {
        assert(p[0] != '*') by {
            assert(p.contains(p[0]));
        }
        assert(!p.skip(1).contains('*')) by {
            if p.skip(1).contains('*') {
                let j = choose|j: int| 0 <= j < p.skip(1).len() && p.skip(1)[j] == '*';
                assert(p[j + 1] == '*');
            }
        }
        if t.len() > 0 {
            lemma_literal_glob(p.skip(1), t.skip(1));
            if p == t {
                assert(p.skip(1) =~= t.skip(1));
            }
            if t[0] == p[0] && p.skip(1) == t.skip(1) {
                assert(p =~= t) by {
                    assert forall|i: int| 0 <= i < p.len() implies p[i] == t[i] by {
                        if i > 0 {
                            assert(p[i] == p.skip(1)[i - 1]);
                            assert(t[i] == t.skip(1)[i - 1]);
                        }
                    }
                }
            }
        }
    } else {
        if t.len() == 0 {
            assert(p =~= t);
        }
    }
}

/// `**` on its own matches every text.
pub proof fn lemma_double_star_matches_all(t: Seq<char>)
    ensures
        glob(seq!['*', '*'], t),
{
    let p = seq!['*', '*'];
    assert(p.len() == 2 && p[0] == '*' && p[1] == '*');
    assert(p.skip(2) =~= Seq::<char>::empty());
    assert(t.skip(t.len() as int) =~= Seq::<char>::empty());
    assert(glob(p.skip(2), t.skip(t.len() as int)));
    assert(any_suffix(p.skip(2), t, t.len() as int));
}

// ---------------------------------------------------------------------------
// Path components and containment
// ---------------------------------------------------------------------------

pub open spec fn keep_segment(seg: Seq<char>) -> bool {
    seg.len() > 0 && seg != seq!['.']
}

/// `Path::components` for `/`-separated paths: a leading root, then the
/// non-empty segments other than `.`, except that a leading `.` is kept.
pub open spec fn path_components(s: Seq<char>) -> Seq<Seq<char>> {
    let pieces = split_on(s, '/');
    if s.len() > 0 && s[0] == '/' {
        seq![seq!['/']] + pieces.filter(|g: Seq<char>| keep_segment(g))
    } else if pieces[0] == seq!['.'] {
        seq![seq!['.']] + pieces.drop_first().filter(|g: Seq<char>| keep_segment(g))
    } else {
        pieces.filter(|g: Seq<char>| keep_segment(g))
    }
}

/// `Path::starts_with`: the components of `parent` are a prefix of those of
/// `child` (equal paths included).
pub open spec fn path_under(parent: Seq<char>, child: Seq<char>) -> bool {
    let a = path_components(parent);
    let b = path_components(child);
    a.len() <= b.len() && b.take(a.len() as int) == a
}

fn keep_piece(g: &Vec<char>) -> (r: bool)
    ensures
        r == keep_segment(g@),
{
    if g.len() == 0 {
        return false;
    }
    if g.len() == 1 && g[0] == '.' {
        assert(g@ =~= seq!['.']);
        return false;
    }
    proof {
        if g@ == seq!['.'] {
            assert(g@.len() == 1);
        }
    }
    true
}

/// Keep the pieces from index `from` on that pass [`keep_segment`], appended
/// to `out`.
fn filter_pieces(pieces: Vec<Vec<char>>, from: usize, out: &mut Vec<Vec<char>>)
    requires
        from <= pieces@.len(),
    ensures
        views(final(out)@) == views(old(out)@) + views(pieces@).skip(from as int).filter(
            |g: Seq<char>| keep_segment(g),
        ),
{
    let ghost all = views(pieces@).skip(from as int);
    let ghost base = views(out@);
    let mut i: usize = from;
    let mut pieces = pieces;
    while i < pieces.len()
        invariant
            from <= i <= pieces@.len(),
            all == views(pieces@).skip(from as int),
            views(out@) == base + all.take(i - from).filter(|g: Seq<char>| keep_segment(g)),
        decreases pieces@.len() - i,
    {
        let g = pieces[i].clone();
        assert(g@ == pieces@[i as int]@);
        let ghost pre = all.take(i - from);
        assert(all.take(i + 1 - from).drop_last() =~= pre);
        assert(all.take(i + 1 - from).last() == g@);
        reveal_with_fuel(Seq::filter, 1);
        if keep_piece(&g) {
            let ghost prev = views(out@);
            out.push(g);
            assert(views(out@) =~= prev.push(pieces@[i as int]@));
        }
        i = i + 1;
    }
    assert(all.take(pieces@.len() - from) =~= all);
}

/// The components of a `/`-separated path.
pub fn components(path: &Vec<char>) -> (r: Vec<Vec<char>>)
    ensures
        views(r@) == path_components(path@),
{
    let pieces = split_chars(path, '/');
    proof {
        lemma_split_nonempty(path@, '/');
    }
    let mut out: Vec<Vec<char>> = Vec::new();
    if path.len() > 0 && path[0] == '/' {
        let mut root: Vec<char> = Vec::new();
        root.push('/');
        out.push(root);
        assert(views(out@) =~= seq![seq!['/']]);
        filter_pieces(pieces, 0, &mut out);
        assert(views(pieces@).skip(0) =~= views(pieces@));
        return out;
    }
    let first_is_dot = pieces[0].len() == 1 && pieces[0][0] == '.';
    proof {
        assert(views(pieces@)[0] == pieces@[0]@);
        if first_is_dot {
            assert(pieces@[0]@ =~= seq!['.']);
        }
        if pieces@[0]@ == seq!['.'] {
            assert(pieces@[0]@.len() == 1);
        }
    }
    if first_is_dot {
        let mut dot: Vec<char> = Vec::new();
        dot.push('.');
        out.push(dot);
        assert(views(out@) =~= seq![seq!['.']]);
        filter_pieces(pieces, 1, &mut out);
        assert(views(pieces@).skip(1) =~= views(pieces@).drop_first());
        return out;
    }
    filter_pieces(pieces, 0, &mut out);
    assert(views(pieces@).skip(0) =~= views(pieces@));
    assert(views(out@) =~= Seq::<Seq<char>>::empty() + views(pieces@).filter(|g: Seq<char>| keep_segment(g)));
    out
}

fn components_prefix(a: &Vec<Vec<char>>, b: &Vec<Vec<char>>) -> (r: bool)
    ensures
        r == (views(a@).len() <= views(b@).len() && views(b@).take(views(a@).len() as int) == views(a@)),
{
    if a.len() > b.len() {
        return false;
    }
    let mut i: usize = 0;
    while i < a.len()
        invariant
            a@.len() <= b@.len(),
            i <= a@.len(),
            forall|j: int| 0 <= j < i ==> a@[j]@ == b@[j]@,
        decreases a@.len() - i,
    {
        if !chars_eq(&a[i], &b[i]) {
            assert(views(b@).take(views(a@).len() as int)[i as int] != views(a@)[i as int]);
            return false;
        }
        i = i + 1;
    }
    assert(views(b@).take(views(a@).len() as int) =~= views(a@));
    true
}

/// True when `child` is `parent` or nested under it, component-wise.
pub fn is_under(parent: &str, child: &str) -> (r: bool)
    ensures
        r == path_under(parent@, child@),
{
    let pc = components(&chars_of(parent));
    let cc = components(&chars_of(child));
    components_prefix(&pc, &cc)
}

// ---------------------------------------------------------------------------
// Exclusion policy
// ---------------------------------------------------------------------------

/// `path` is covered by an excluded path (in either direction: a category root
/// that contains an excluded path still has excluded children) or by a glob.
pub open spec fn path_excluded(path: Seq<char>, paths: Seq<Seq<char>>, globs: Seq<Seq<char>>) -> bool {
    ||| exists|i: int|
        0 <= i < paths.len() && (path_under(#[trigger] paths[i], path) || path_under(path, paths[i]))
    ||| exists|g: int| 0 <= g < globs.len() && glob_ci(#[trigger] globs[g], path)
}

/// True when `path` is covered by an excluded path or glob.
///
/// Used both to drop whole categories and to prune individual candidate items
/// before their size is measured.
pub fn is_path_excluded(path: &str, excl: &ExclusionConfig) -> (r: bool)
    ensures
        r == path_excluded(path@, excl.paths.deep_view(), excl.globs.deep_view()),
{
    if excl.paths.len() == 0 && excl.globs.len() == 0 {
        return false;
    }
    let mut i: usize = 0;
    while i < excl.paths.len()
        invariant
            i <= excl.paths@.len(),
            forall|j: int|
                0 <= j < i ==> !(path_under(#[trigger] excl.paths.deep_view()[j], path@)
                    || path_under(path@, excl.paths.deep_view()[j])),
        decreases excl.paths@.len() - i,
    {
        let p = excl.paths[i].as_str();
        assert(excl.paths.deep_view()[i as int] == excl.paths@[i as int]@);
        if is_under(p, path) || is_under(path, p) {
            return true;
        }
        i = i + 1;
    }
    let mut g: usize = 0;
    while g < excl.globs.len()
        invariant
            g <= excl.globs@.len(),
            forall|j: int| 0 <= j < g ==> !glob_ci(#[trigger] excl.globs.deep_view()[j], path@),
            forall|j: int|
                0 <= j < excl.paths@.len() ==> !(path_under(#[trigger] excl.paths.deep_view()[j], path@)
                    || path_under(path@, excl.paths.deep_view()[j])),
        decreases excl.globs@.len() - g,
    {
        assert(excl.globs.deep_view()[g as int] == excl.globs@[g as int]@);
        if glob_match(excl.globs[g].as_str(), path) {
            return true;
        }
        g = g + 1;
    }
    false
}

/// A category is excluded by id, or when it has roots and every one of them
/// is excluded. A category with some roots left keeps them: the excluded
/// ones lose their items when the category is scanned.
pub open spec fn category_excluded(c: CleanCategoryModel, excl: ExclusionConfig) -> bool {
    ||| excl.category_ids.deep_view().contains(c.id)
    ||| (c.roots.len() > 0 && forall|i: int|
        0 <= i < c.roots.len() ==> path_excluded(#[trigger] c.roots[i], excl.paths.deep_view(), excl.globs.deep_view()))
}

/// True when `s` is one of the strings in `v`.
pub fn contains_string(v: &Vec<String>, s: &str) -> (r: bool)
    ensures
        r == v.deep_view().contains(s@),
{
    let mut i: usize = 0;
    while i < v.len()
        invariant
            i <= v@.len(),
            forall|j: int| 0 <= j < i ==> v.deep_view()[j] != s@,
        decreases v@.len() - i,
    {
        assert(v.deep_view()[i as int] == v@[i as int]@);
        if crate::text::str_eq(v[i].as_str(), s) {
            return true;
        }
        i = i + 1;
    }
    false
}

fn is_category_excluded(cat: &CleanCategory, excl: &ExclusionConfig) -> (r: bool)
    ensures
        r == category_excluded(cat.deep_view(), *excl),
{
    if contains_string(&excl.category_ids, cat.id.as_str()) {
        return true;
    }
    if cat.roots.len() == 0 {
        return false;
    }
    let mut i: usize = 0;
    while i < cat.roots.len()
        invariant
            i <= cat.roots@.len(),
            !excl.category_ids.deep_view().contains(cat.id@),
            forall|j: int|
                0 <= j < i ==> path_excluded(
                    #[trigger] cat.roots.deep_view()[j],
                    excl.paths.deep_view(),
                    excl.globs.deep_view(),
                ),
        decreases cat.roots@.len() - i,
    {
        assert(cat.roots.deep_view()[i as int] == cat.roots@[i as int]@);
        if !is_path_excluded(cat.roots[i].as_str(), excl) {
            assert(cat.deep_view().roots[i as int] == cat.roots.deep_view()[i as int]);
            return false;
        }
        i = i + 1;
    }
    assert(cat.deep_view().roots =~= cat.roots.deep_view());
    true
}

pub open spec fn models_of(v: Seq<CleanCategory>) -> Seq<CleanCategoryModel> {
    v.map_values(|c: CleanCategory| c.deep_view())
}

/// The categories that survive `excl`, in their original order.
pub open spec fn surviving(cats: Seq<CleanCategoryModel>, excl: ExclusionConfig) -> Seq<CleanCategoryModel> {
    cats.filter(|c: CleanCategoryModel| !category_excluded(c, excl))
}

/// Filter `categories` down to those not excluded by `excl`.
///
/// Returns the surviving categories and the count of excluded ones (for logging).
pub fn apply_exclusions(categories: &[CleanCategory], excl: &ExclusionConfig) -> (r: (
    Vec<CleanCategory>,
    usize,
))
    ensures
        models_of(r.0@) == surviving(models_of(categories@), *excl),
        r.1 + r.0@.len() == categories@.len(),
{
    let ghost all = models_of(categories@);
    let mut kept: Vec<CleanCategory> = Vec::new();
    let mut excluded: usize = 0;
    let mut i: usize = 0;
    while i < categories.len()
        invariant
            i <= categories@.len(),
            all == models_of(categories@),
            models_of(kept@) == surviving(all.take(i as int), *excl),
            excluded + kept@.len() == i,
        decreases categories@.len() - i,
    {
        let ghost pre = all.take(i as int);
        assert(all.take(i + 1).drop_last() =~= pre);
        assert(all.take(i + 1).last() == categories@[i as int].deep_view());
        reveal_with_fuel(Seq::filter, 1);
        if is_category_excluded(&categories[i], excl) {
            excluded = excluded + 1;
        } else {
            let c = categories[i].duplicate();
            let ghost prev = models_of(kept@);
            kept.push(c);
            assert(models_of(kept@) =~= prev.push(c.deep_view()));
        }
        i = i + 1;
    }
    assert(all.take(categories@.len() as int) =~= all);
    (kept, excluded)
}

/// With no exclusions configured, every category survives.
pub proof fn lemma_empty_config_keeps_all(cats: Seq<CleanCategoryModel>, excl: ExclusionConfig)
    requires
        excl.paths@.len() == 0,
        excl.category_ids@.len() == 0,
        excl.globs@.len() == 0,
    ensures
        surviving(cats, excl) == cats,
    decreases cats.len(),
{
    reveal_with_fuel(Seq::filter, 1);
    if cats.len() > 0 {
        lemma_empty_config_keeps_all(cats.drop_last(), excl);
        assert(!excl.category_ids.deep_view().contains(cats.last().id));
        if cats.last().roots.len() > 0 {
            assert(excl.paths.deep_view().len() == 0 && excl.globs.deep_view().len() == 0);
            assert(!path_excluded(cats.last().roots[0], excl.paths.deep_view(), excl.globs.deep_view()));
        }
        assert(!category_excluded(cats.last(), excl));
        assert(cats.drop_last().push(cats.last()) =~= cats);
    } else {
        assert(cats.filter(|c: CleanCategoryModel| !category_excluded(c, excl)) =~= cats);
    }
}

proof fn lemma_filter_member<A>(s: Seq<A>, pred: spec_fn(A) -> bool, x: A)
    ensures
        s.filter(pred).contains(x) ==> s.contains(x) && pred(x),
    decreases s.len(),
{
    reveal_with_fuel(Seq::filter, 1);
    if s.len() > 0 {
        lemma_filter_member(s.drop_last(), pred, x);
        if s.filter(pred).contains(x) {
            let sub = s.drop_last().filter(pred);
            if pred(s.last()) {
                let j = choose|j: int| 0 <= j < s.filter(pred).len() && s.filter(pred)[j] == x;
                if j < sub.len() {
                    assert(sub[j] == x);
                    let k = choose|k: int| 0 <= k < s.drop_last().len() && s.drop_last()[k] == x;
                    assert(s[k] == x);
                } else {
                    assert(s[s.len() - 1] == x);
                }
            } else {
                let k = choose|k: int| 0 <= k < s.drop_last().len() && s.drop_last()[k] == x;
                assert(s[k] == x);
            }
        }
    }
}

/// A category survives exactly when it is one of the inputs and is not
/// excluded.
pub proof fn lemma_survivors_are_exactly_the_unexcluded(
    cats: Seq<CleanCategoryModel>,
    excl: ExclusionConfig,
    c: CleanCategoryModel,
)
    ensures
        surviving(cats, excl).contains(c) <==> (cats.contains(c) && !category_excluded(c, excl)),
{
    let pred = |x: CleanCategoryModel| !category_excluded(x, excl);
    lemma_filter_member(cats, pred, c);
    if cats.contains(c) && !category_excluded(c, excl) {
        let i = choose|i: int| 0 <= i < cats.len() && cats[i] == c;
        cats.filter_lemma(pred);
        assert(pred(cats[i]));
    }
}

// ---------------------------------------------------------------------------
// Rule packs
// ---------------------------------------------------------------------------

pub struct RulePackModel {
    pub id: Seq<char>,
    pub roots: Seq<Seq<char>>,
    pub risk: RiskLevel,
    pub cleanup_command: Option<Seq<char>>,
}

impl DeepView for RulePackCategory {
    type V = RulePackModel;

    open spec fn deep_view(&self) -> RulePackModel {
        RulePackModel {
            id: self.id@,
            roots: self.roots.deep_view(),
            risk: self.risk,
            cleanup_command: opt_view(self.cleanup_command),
        }
    }
}

/// The category a rule pack contributes: its id doubles as its title.
pub open spec fn pack_category(p: RulePackModel) -> CleanCategoryModel {
    CleanCategoryModel {
        id: p.id,
        title: p.id,
        roots: p.roots,
        risk: p.risk,
        cleanup_command: p.cleanup_command,
        reclaimable: true,
    }
}

/// Rule packs in order: System packs are hidden unless `deep`, an id already
/// seen (built-in or an earlier accepted pack) is skipped, and a pack with no
/// root is dropped without claiming its id.
pub open spec fn packs_to_categories(seen: Seq<Seq<char>>, packs: Seq<RulePackModel>, deep: bool) -> Seq<
    CleanCategoryModel,
>
    decreases packs.len(),
{
    if packs.len() == 0 {
        Seq::empty()
    } else {
        let p = packs[0];
        if (p.risk == RiskLevel::System && !deep) || seen.contains(p.id) || p.roots.len() == 0 {
            packs_to_categories(seen, packs.drop_first(), deep)
        } else {
            seq![pack_category(p)] + packs_to_categories(seen.push(p.id), packs.drop_first(), deep)
        }
    }
}

pub open spec fn ids_of(v: Seq<CleanCategoryModel>) -> Seq<Seq<char>> {
    v.map_values(|c: CleanCategoryModel| c.id)
}

pub open spec fn pack_models(v: Seq<RulePackCategory>) -> Seq<RulePackModel> {
    v.map_values(|p: RulePackCategory| p.deep_view())
}

/// The policy from what was read: `sweep.toml`'s exclusions and rule packs,
/// then the packs of the extra `--rules` file, if one was given, after them
/// (duplicate ids are dropped later, by [`rule_packs_to_categories`]).
pub fn load_policy_with_rules(
    excl: ExclusionConfig,
    packs: Vec<RulePackCategory>,
    extra: Option<Vec<RulePackCategory>>,
) -> (r: (ExclusionConfig, Vec<RulePackCategory>))
    ensures
        r.0 == excl,
        r.1@ == match extra {
            Some(e) => packs@ + e@,
            None => packs@,
        },
{
    let mut all = packs;
    match extra {
        Some(e) => {
            let mut rest = e;
            all.append(&mut rest);
        },
        None => {},
    }
    (excl, all)
}

/// Convert user rule packs into discoverable [`CleanCategory`] entries.
///
/// The packs' roots are expected already expanded and limited to the ones that
/// exist; the visibility, collision and empty-root rules are applied here.
pub fn rule_packs_to_categories(packs: &[RulePackCategory], builtin: &[CleanCategory], deep: bool) -> (r:
    Vec<CleanCategory>)
    ensures
        models_of(r@) == packs_to_categories(ids_of(models_of(builtin@)), pack_models(packs@), deep),
{
    let mut seen: Vec<String> = Vec::new();
    let mut b: usize = 0;
    while b < builtin.len()
        invariant
            b <= builtin@.len(),
            seen.deep_view() == ids_of(models_of(builtin@)).take(b as int),
        decreases builtin@.len() - b,
    {
        let ghost prev = seen.deep_view();
        seen.push(builtin[b].id.clone());
        assert(seen.deep_view() =~= prev.push(builtin@[b as int].id@));
        b = b + 1;
        assert(ids_of(models_of(builtin@)).take(b as int) =~= prev.push(builtin@[b - 1].id@));
    }
    assert(ids_of(models_of(builtin@)).take(builtin@.len() as int) =~= ids_of(models_of(builtin@)));
    let ghost all = pack_models(packs@);
    let ghost target = packs_to_categories(seen.deep_view(), all, deep);
    let mut out: Vec<CleanCategory> = Vec::new();
    let mut i: usize = 0;
    assert(all.skip(0) =~= all);
    while i < packs.len()
        invariant
            i <= packs@.len(),
            all == pack_models(packs@),
            models_of(out@) + packs_to_categories(seen.deep_view(), all.skip(i as int), deep) == target,
        decreases packs@.len() - i,
    {
        let p = &packs[i];
        let ghost rest = all.skip(i as int);
        assert(rest[0] == p.deep_view());
        assert(rest.drop_first() =~= all.skip(i + 1));
        let hidden = match p.risk {
            RiskLevel::System => !deep,
            RiskLevel::Safe => false,
        };
        if hidden || contains_string(&seen, p.id.as_str()) || p.roots.len() == 0 {
        } else {
            let c = CleanCategory {
                id: p.id.clone(),
                title: p.id.clone(),
                roots: copy_strings(&p.roots),
                risk: p.risk,
                cleanup_command: copy_opt_string(&p.cleanup_command),
                reclaimable: true,
            };
            let ghost prev_out = models_of(out@);
            let ghost prev_seen = seen.deep_view();
            out.push(c);
            seen.push(p.id.clone());
            assert(models_of(out@) =~= prev_out.push(pack_category(p.deep_view())));
            assert(seen.deep_view() =~= prev_seen.push(p.id@));
            assert(models_of(out@) + packs_to_categories(seen.deep_view(), all.skip(i + 1), deep)
                =~= prev_out + (seq![pack_category(p.deep_view())] + packs_to_categories(
                seen.deep_view(),
                all.skip(i + 1),
                deep,
            )));
        }
        i = i + 1;
    }
    assert(models_of(out@) =~= models_of(out@) + packs_to_categories(
        seen.deep_view(),
        all.skip(packs@.len() as int),
        deep,
    ));
    out
}

/// Without `--deep`, no System-risk rule pack becomes a category.
pub proof fn lemma_system_packs_hidden_unless_deep(seen: Seq<Seq<char>>, packs: Seq<RulePackModel>)
    ensures
        forall|i: int|
            0 <= i < packs_to_categories(seen, packs, false).len() ==> (#[trigger] packs_to_categories(
                seen,
                packs,
                false,
            )[i]).risk == RiskLevel::Safe,
    decreases packs.len(),
{
    if packs.len() > 0 {
        lemma_system_packs_hidden_unless_deep(seen, packs.drop_first());
        lemma_system_packs_hidden_unless_deep(seen.push(packs[0].id), packs.drop_first());
    }
}

/// No rule pack takes the id of a category already seen, and no two rule
/// packs share an id.
pub proof fn lemma_pack_ids_fresh(seen: Seq<Seq<char>>, packs: Seq<RulePackModel>, deep: bool)
    ensures
        forall|i: int|
            0 <= i < packs_to_categories(seen, packs, deep).len() ==> !seen.contains(
                (#[trigger] packs_to_categories(seen, packs, deep)[i]).id,
            ),
        forall|i: int, j: int|
            0 <= i < j < packs_to_categories(seen, packs, deep).len() ==> (
            #[trigger] packs_to_categories(seen, packs, deep)[i]).id != (
            #[trigger] packs_to_categories(seen, packs, deep)[j]).id,
    decreases packs.len(),
{
    if packs.len() > 0 {
        let p = packs[0];
        lemma_pack_ids_fresh(seen, packs.drop_first(), deep);
        lemma_pack_ids_fresh(seen.push(p.id), packs.drop_first(), deep);
        if !((p.risk == RiskLevel::System && !deep) || seen.contains(p.id) || p.roots.len() == 0) {
            let rest = packs_to_categories(seen.push(p.id), packs.drop_first(), deep);
            let all = packs_to_categories(seen, packs, deep);
            assert(all == seq![pack_category(p)] + rest);
            assert forall|i: int| 0 <= i < all.len() implies !seen.contains(
                (#[trigger] all[i]).id,
            ) by {
                if i > 0 {
                    assert(all[i] == rest[i - 1]);
                    if seen.contains(rest[i - 1].id) {
                        let k = choose|k: int| 0 <= k < seen.len() && seen[k] == rest[i - 1].id;
                        assert(seen.push(p.id)[k] == seen[k]);
                    }
                }
            }
            assert forall|i: int, j: int| 0 <= i < j < all.len() implies (#[trigger] all[i]).id != (
            #[trigger] all[j]).id by {
                assert(all[j] == rest[j - 1]);
                if i == 0 {
                    assert(seen.push(p.id)[seen.len() as int] == p.id);
                } else {
                    assert(all[i] == rest[i - 1]);
                }
            }
        }
    }
}

/// A path covered by an excluded path is excluded, whichever contains the
/// other: a path below an excluded one, and a directory that holds an
/// excluded path (so it is never trashed whole), whatever the globs.
pub proof fn lemma_excluded_either_way(path: Seq<char>, paths: Seq<Seq<char>>, globs: Seq<Seq<char>>, i: int)
    requires
        0 <= i < paths.len(),
        path_under(paths[i], path) || path_under(path, paths[i]),
    ensures
        path_excluded(path, paths, globs),
{
    assert(path_under(paths[i], path) || path_under(path, paths[i]));
}

/// A path that no excluded path contains or lies in, and that no glob
/// matches, is not excluded.
pub proof fn lemma_unrelated_not_excluded(path: Seq<char>, paths: Seq<Seq<char>>, globs: Seq<Seq<char>>)
    requires
        forall|i: int| 0 <= i < paths.len() ==> !path_under(#[trigger] paths[i], path) && !path_under(path, paths[i]),
        forall|g: int| 0 <= g < globs.len() ==> !glob_ci(#[trigger] globs[g], path),
    ensures
        !path_excluded(path, paths, globs),
{
}

/// A path matched by an excluded glob is excluded.
pub proof fn lemma_glob_excludes(path: Seq<char>, paths: Seq<Seq<char>>, globs: Seq<Seq<char>>, g: int)
    requires
        0 <= g < globs.len(),
        glob_ci(globs[g], path),
    ensures
        path_excluded(path, paths, globs),
{
}

/// Every path lies under itself, so an excluded path is itself excluded.
pub proof fn lemma_path_under_itself(p: Seq<char>)
    ensures
        path_under(p, p),
{
    let a = path_components(p);
    assert(a.take(a.len() as int) =~= a);
}

/// Path segments that stand as written: non-empty, not `.`, without `/`.
pub open spec fn plain_segments(parts: Seq<Seq<char>>) -> bool {
    forall|i: int| 0 <= i < parts.len() ==> keep_segment(#[trigger] parts[i]) && !parts[i].contains('/')
}

/// The absolute path `/p1/p2/.../pn` of the segments `parts`.
pub open spec fn absolute(parts: Seq<Seq<char>>) -> Seq<char> {
    seq!['/'] + crate::text::join_with(parts, '/')
}

proof fn lemma_filter_keeps_all(s: Seq<Seq<char>>)
    requires
        forall|i: int| 0 <= i < s.len() ==> keep_segment(#[trigger] s[i]),
    ensures
        s.filter(|g: Seq<char>| keep_segment(g)) == s,
    decreases s.len(),
{
    reveal_with_fuel(Seq::filter, 1);
    if s.len() > 0 {
        let pre = s.drop_last();
        assert forall|i: int| 0 <= i < pre.len() implies keep_segment(#[trigger] pre[i]) by {
            assert(pre[i] == s[i]);
        }
        lemma_filter_keeps_all(pre);
        assert(keep_segment(s.last()));
        assert(pre.push(s.last()) =~= s);
    } else {
        assert(s.filter(|g: Seq<char>| keep_segment(g)) =~= s);
    }
}

proof fn lemma_join_after_root(parts: Seq<Seq<char>>)
    requires
        parts.len() > 0,
    ensures
        crate::text::join_with(seq![Seq::<char>::empty()] + parts, '/') == absolute(parts),
    decreases parts.len(),
{
    let e = Seq::<char>::empty();
    let all = seq![e] + parts;
    if parts.len() == 1 {
        assert(all.drop_last() =~= seq![e]);
        assert(all.last() == parts[0]);
        assert(crate::text::join_with(seq![e], '/') == e);
        assert(e.push('/') + parts[0] =~= seq!['/'] + parts[0]);
    } else {
        lemma_join_after_root(parts.drop_last());
        assert(all.drop_last() =~= seq![e] + parts.drop_last());
        assert(all.last() == parts.last());
        assert((seq!['/'] + crate::text::join_with(parts.drop_last(), '/')).push('/') + parts.last() =~= seq!['/']
            + (crate::text::join_with(parts.drop_last(), '/').push('/') + parts.last()));
    }
}

/// An absolute path of plain segments has exactly those segments, after
/// the root, as its components.
pub proof fn lemma_absolute_components(parts: Seq<Seq<char>>)
    requires
        parts.len() > 0,
        plain_segments(parts),
    ensures
        path_components(absolute(parts)) == seq![seq!['/']] + parts,
{
    let e = Seq::<char>::empty();
    let all = seq![e] + parts;
    lemma_join_after_root(parts);
    assert forall|i: int, j: int| 0 <= i < all.len() && 0 <= j < all[i].len() implies all[i][j] != '/' by {
        assert(i > 0);
        assert(all[i] == parts[i - 1]);
        if all[i][j] == '/' {
            assert(parts[i - 1].contains('/'));
        }
    }
    crate::text::lemma_split_join(all, '/');
    let s = absolute(parts);
    assert(s[0] == '/');
    assert(split_on(s, '/') == all);
    vstd::seq::Seq::filter_distributes_over_add(seq![e], parts, |g: Seq<char>| keep_segment(g));
    reveal_with_fuel(Seq::filter, 2);
    assert(seq![e].drop_last() =~= Seq::<Seq<char>>::empty());
    assert(seq![e].filter(|g: Seq<char>| keep_segment(g)) =~= Seq::<Seq<char>>::empty());
    assert forall|i: int| 0 <= i < parts.len() implies keep_segment(#[trigger] parts[i]) by {}
    lemma_filter_keeps_all(parts);
    assert(all.filter(|g: Seq<char>| keep_segment(g)) =~= parts);
}

/// Between absolute paths of plain segments, containment goes by whole
/// segments: `/a/b` holds `/a/b/c` but not `/a/bc`.
pub proof fn lemma_under_by_segments(a: Seq<Seq<char>>, b: Seq<Seq<char>>)
    requires
        a.len() > 0,
        b.len() > 0,
        plain_segments(a),
        plain_segments(b),
    ensures
        path_under(absolute(a), absolute(b)) <==> (a.len() <= b.len() && b.take(a.len() as int) == a),
{
    lemma_absolute_components(a);
    lemma_absolute_components(b);
    let ca = seq![seq!['/']] + a;
    let cb = seq![seq!['/']] + b;
    if a.len() <= b.len() {
        if cb.take(ca.len() as int) == ca {
            assert forall|i: int| 0 <= i < a.len() implies b.take(a.len() as int)[i] == a[i] by {
                assert(cb.take(ca.len() as int)[i + 1] == ca[i + 1]);
            }
            assert(b.take(a.len() as int) =~= a);
        }
        if b.take(a.len() as int) == a {
            assert forall|i: int| 0 <= i < ca.len() implies cb.take(ca.len() as int)[i] == ca[i] by {
                if i > 0 {
                    assert(b.take(a.len() as int)[i - 1] == a[i - 1]);
                }
            }
            assert(cb.take(ca.len() as int) =~= ca);
        }
    }
}

} // verus!
