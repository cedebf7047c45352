//! `%VAR%` and `$VAR` references in rule-pack roots.
//!
//! The environment is handed in as a list of (name, value) pairs; a reference
//! to a variable that is not in it is left as written, so the resulting path
//! simply will not exist and is skipped like any other missing root.
use vstd::prelude::*;

use crate::discover::{existed, missing};
use crate::domain::models::{copy_opt_string, opt_view, RulePackCategory};
use crate::text::{chars_eq, chars_of, is_ascii_alpha, is_ascii_digit, push_chars, slice_chars, string_of};

verus! {

/// A character that may continue a `$NAME` reference.
pub open spec fn is_name_char(c: char) -> bool {
    is_ascii_alpha(c) || is_ascii_digit(c) || c == '_'
}

/// The first index at or after `from` holding `ch`, or the length.
pub open spec fn find_from(c: Seq<char>, from: int, ch: char) -> int
    decreases c.len() - from,
{
    if from >= c.len() {
        c.len() as int
    } else if c[from] == ch {
        from
    } else {
        find_from(c, from + 1, ch)
    }
}

/// The first index at or after `from` that does not continue a name, or the
/// length.
pub open spec fn name_end(c: Seq<char>, from: int) -> int
    decreases c.len() - from,
{
    if from >= c.len() {
        c.len() as int
    } else if !is_name_char(c[from]) {
        from
    } else {
        name_end(c, from + 1)
    }
}

/// Where `find_from` lands, and that nothing before it is `ch`.
pub proof fn lemma_find_from_bounds(c: Seq<char>, from: int, ch: char)
    requires
        0 <= from,
    ensures
        from <= find_from(c, from, ch) || from > c.len(),
        find_from(c, from, ch) <= c.len() || from > c.len(),
        find_from(c, from, ch) < c.len() ==> c[find_from(c, from, ch)] == ch,
        forall|k: int| from <= k < find_from(c, from, ch) ==> c[k] != ch,
    decreases c.len() - from,
{
    if from < c.len() && c[from] != ch {
        lemma_find_from_bounds(c, from + 1, ch);
    }
}

/// Where `name_end` lands, and that everything before it continues the name.
pub proof fn lemma_name_end_bounds(c: Seq<char>, from: int)
    requires
        0 <= from,
    ensures
        from <= name_end(c, from) || from > c.len(),
        name_end(c, from) <= c.len() || from > c.len(),
        forall|k: int| from <= k < name_end(c, from) ==> is_name_char(c[k]),
    decreases c.len() - from,
{
    if from < c.len() && is_name_char(c[from]) {
        lemma_name_end_bounds(c, from + 1);
    }
}

/// The value of variable `name` in the environment `vars` (the first pair
/// with that name).
pub open spec fn env_value(vars: Seq<(Seq<char>, Seq<char>)>, name: Seq<char>) -> Option<Seq<char>>
    decreases vars.len(),
{
    if vars.len() == 0 {
        None
    } else if vars[0].0 == name {
        Some(vars[0].1)
    } else {
        env_value(vars.drop_first(), name)
    }
}

/// `c` from index `i` on, with each `%NAME%` and `$NAME` reference replaced by
/// the variable's value where it is set, and kept as written where not.
pub open spec fn expand_from(c: Seq<char>, i: int, vars: Seq<(Seq<char>, Seq<char>)>) -> Seq<char>
    decreases c.len() - i,
{
    if i < 0 || i >= c.len() {
        Seq::empty()
    } else if c[i] == '%' && find_from(c, i + 1, '%') < c.len() {
        let close = find_from(c, i + 1, '%');
        proof {
            lemma_find_from_bounds(c, i + 1, '%');
        }
        let name = c.subrange(i + 1, close);
        let value = match env_value(vars, name) {
            Some(v) => v,
            None => seq!['%'] + name + seq!['%'],
        };
        value + expand_from(c, close + 1, vars)
    } else if c[i] == '$' && name_end(c, i + 1) > i + 1 {
        let end = name_end(c, i + 1);
        proof {
            lemma_name_end_bounds(c, i + 1);
        }
        let name = c.subrange(i + 1, end);
        let value = match env_value(vars, name) {
            Some(v) => v,
            None => seq!['$'] + name,
        };
        value + expand_from(c, end, vars)
    } else {
        seq![c[i]] + expand_from(c, i + 1, vars)
    }
}

pub open spec fn var_models(vars: Seq<(String, String)>) -> Seq<(Seq<char>, Seq<char>)> {
    vars.map_values(|p: (String, String)| (p.0@, p.1@))
}

/// The first index at or after `from` holding `ch`, or the length.
fn find_char(c: &Vec<char>, from: usize, ch: char) -> (r: usize)
    requires
        from <= c@.len(),
    ensures
        r == find_from(c@, from as int, ch),
{
    let mut j: usize = from;
    while j < c.len()
        invariant
            from <= j <= c@.len(),
            find_from(c@, from as int, ch) == find_from(c@, j as int, ch),
        decreases c@.len() - j,
    {
        if c[j] == ch {
            return j;
        }
        j = j + 1;
    }
    j
}

/// `is_name_char`.
fn name_char(c: char) -> (r: bool)
    ensures
        r == is_name_char(c),
{
    ('a' <= c && c <= 'z') || ('A' <= c && c <= 'Z') || ('0' <= c && c <= '9') || c == '_'
}

/// The end of the name starting at `from`.
fn find_name_end(c: &Vec<char>, from: usize) -> (r: usize)
    requires
        from <= c@.len(),
    ensures
        r == name_end(c@, from as int),
{
    let mut j: usize = from;
    while j < c.len()
        invariant
            from <= j <= c@.len(),
            name_end(c@, from as int) == name_end(c@, j as int),
        decreases c@.len() - j,
    {
        if !name_char(c[j]) {
            return j;
        }
        j = j + 1;
    }
    j
}

/// The value of variable `name` in `vars`.
fn lookup_var(vars: &Vec<(String, String)>, name: &Vec<char>) -> (r: Option<Vec<char>>)
    ensures
        match r {
            Some(v) => env_value(var_models(vars@), name@) == Some(v@),
            None => env_value(var_models(vars@), name@) is None,
        },
{
    let ghost m = var_models(vars@);
    let mut k: usize = 0;
    assert(m.subrange(0, m.len() as int) =~= m);
    while k < vars.len()
        invariant
            m == var_models(vars@),
            k <= vars@.len(),
            env_value(m, name@) == env_value(m.subrange(k as int, m.len() as int), name@),
        decreases vars@.len() - k,
    {
        let key = chars_of(vars[k].0.as_str());
        let ghost rest = m.subrange(k as int, m.len() as int);
        assert(rest[0] == m[k as int]);
        if chars_eq(key.as_slice(), name.as_slice()) {
            return Some(chars_of(vars[k].1.as_str()));
        }
        assert(rest.drop_first() =~= m.subrange(k + 1, m.len() as int));
        k = k + 1;
    }
    None
}

/// Expand `%VAR%` and `$VAR` references in `path` with the variables of
/// `vars`; a reference to a variable that is not set stays as written.
pub fn expand_env(path: &str, vars: &Vec<(String, String)>) -> (r: String)
    ensures
        r@ == expand_from(path@, 0, var_models(vars@)),
{
    let ghost m = var_models(vars@);
    let c = chars_of(path);
    let mut out: Vec<char> = Vec::new();
    let mut i: usize = 0;
    while i < c.len()
        invariant
            c@ == path@,
            m == var_models(vars@),
            i <= c@.len(),
            out@ + expand_from(c@, i as int, m) == expand_from(c@, 0, m),
        decreases c@.len() - i,
    {
        let ghost before = out@;
        if c[i] == '%' {
            let close = find_char(&c, i + 1, '%');
            if close < c.len() {
                proof {
                    lemma_find_from_bounds(c@, i + 1, '%');
                }
                let name = slice_chars(c.as_slice(), i + 1, close);
                match lookup_var(vars, &name) {
                    Some(v) => push_chars(&mut out, v.as_slice()),
                    None => {
                        out.push('%');
                        push_chars(&mut out, name.as_slice());
                        out.push('%');
                    },
                }
                assert(out@ + expand_from(c@, close + 1, m) =~= before + expand_from(c@, i as int, m));
                i = close + 1;
                continue;
            }
        }
        if c[i] == '$' {
            let end = find_name_end(&c, i + 1);
            if end > i + 1 {
                proof {
                    lemma_name_end_bounds(c@, i + 1);
                }
                let name = slice_chars(c.as_slice(), i + 1, end);
                match lookup_var(vars, &name) {
                    Some(v) => push_chars(&mut out, v.as_slice()),
                    None => {
                        out.push('$');
                        push_chars(&mut out, name.as_slice());
                    },
                }
                assert(out@ + expand_from(c@, end as int, m) =~= before + expand_from(c@, i as int, m));
                i = end;
                continue;
            }
        }
        out.push(c[i]);
        assert(out@ + expand_from(c@, i + 1, m) =~= before + expand_from(c@, i as int, m));
        i = i + 1;
    }
    assert(out@ =~= expand_from(c@, 0, m));
    string_of(out.as_slice())
}

/// Pack `p`'s roots after expansion: each is the expansion of one of `q`'s
/// roots and was reported existing, and each expansion of `q`'s roots is
/// among them or was reported missing.
pub open spec fn roots_resolved<E: Fn(&str) -> bool>(
    p: RulePackCategory,
    q: RulePackCategory,
    vars: Seq<(Seq<char>, Seq<char>)>,
    path_exists: E,
) -> bool {
    &&& p.id@ == q.id@
    &&& p.risk == q.risk
    &&& opt_view(p.cleanup_command) == opt_view(q.cleanup_command)
    &&& forall|k: int|
        #![trigger p.roots@[k]]
        0 <= k < p.roots@.len() ==> existed(path_exists, p.roots@[k]@) && exists|j: int|
            0 <= j < q.roots@.len() && p.roots@[k]@ == expand_from(#[trigger] q.roots@[j]@, 0, vars)
    &&& forall|j: int|
        #![trigger q.roots@[j]]
        0 <= j < q.roots@.len() ==> missing(path_exists, expand_from(q.roots@[j]@, 0, vars)) || exists|k: int|
            0 <= k < p.roots@.len() && #[trigger] p.roots@[k]@ == expand_from(q.roots@[j]@, 0, vars)
}

/// Each rule pack with its roots expanded (see [`expand_env`]) and limited to
/// those that exist, in order.
pub fn expand_pack_roots<E: Fn(&str) -> bool>(packs: &[RulePackCategory], vars: &Vec<(String, String)>, path_exists: E) -> (r: Vec<
    RulePackCategory,
>)
    requires
        forall|p: &str| #[trigger] path_exists.requires((p,)),
    ensures
        r@.len() == packs@.len(),
        forall|i: int| 0 <= i < r@.len() ==> roots_resolved(#[trigger] r@[i], packs@[i], var_models(vars@), path_exists),
{
    let ghost m = var_models(vars@);
    let mut out: Vec<RulePackCategory> = Vec::new();
    let mut i: usize = 0;
    while i < packs.len()
        invariant
            m == var_models(vars@),
            i <= packs@.len(),
            out@.len() == i,
            forall|p: &str| #[trigger] path_exists.requires((p,)),
            forall|x: int| 0 <= x < i ==> roots_resolved(#[trigger] out@[x], packs@[x], m, path_exists),
        decreases packs@.len() - i,
    {
        let q = &packs[i];
        let mut roots: Vec<String> = Vec::new();
        let mut j: usize = 0;
        while j < q.roots.len()
            invariant
                m == var_models(vars@),
                q == packs@[i as int],
                j <= q.roots@.len(),
                forall|p: &str| #[trigger] path_exists.requires((p,)),
                forall|k: int|
                    #![trigger roots@[k]]
                    0 <= k < roots@.len() ==> existed(path_exists, roots@[k]@) && exists|y: int|
                        0 <= y < q.roots@.len() && roots@[k]@ == expand_from(#[trigger] q.roots@[y]@, 0, m),
                forall|y: int|
                    #![trigger q.roots@[y]]
                    0 <= y < j ==> missing(path_exists, expand_from(q.roots@[y]@, 0, m)) || exists|k: int|
                        0 <= k < roots@.len() && #[trigger] roots@[k]@ == expand_from(q.roots@[y]@, 0, m),
            decreases q.roots@.len() - j,
        {
            let e = expand_env(q.roots[j].as_str(), vars);
            let ghost ev = e@;
            let ghost before = roots@;
            if path_exists(e.as_str()) {
                assert(existed(path_exists, ev));
                roots.push(e);
                assert(roots@[before.len() as int]@ == ev);
                assert forall|k: int| #![trigger roots@[k]] 0 <= k < roots@.len() implies existed(path_exists, roots@[k]@) && exists|y: int|
                    0 <= y < q.roots@.len() && roots@[k]@ == expand_from(#[trigger] q.roots@[y]@, 0, m) by {
                    if k < before.len() {
                        assert(roots@[k] == before[k]);
                    } else {
                        assert(roots@[k]@ == expand_from(q.roots@[j as int]@, 0, m));
                    }
                }
                assert forall|y: int| #![trigger q.roots@[y]] 0 <= y < j + 1 implies missing(path_exists, expand_from(q.roots@[y]@, 0, m))
                    || exists|k: int| 0 <= k < roots@.len() && #[trigger] roots@[k]@ == expand_from(q.roots@[y]@, 0, m) by {
                    if y < j {
                        if !missing(path_exists, expand_from(q.roots@[y]@, 0, m)) {
                            let k = choose|k: int| 0 <= k < before.len() && #[trigger] before[k]@ == expand_from(q.roots@[y]@, 0, m);
                            assert(roots@[k] == before[k]);
                        }
                    } else {
                        assert(roots@[before.len() as int]@ == expand_from(q.roots@[y]@, 0, m));
                    }
                }
            } else {
                assert(missing(path_exists, ev));
            }
            j = j + 1;
        }
        let ghost p_roots = roots@;
        let p = RulePackCategory { id: q.id.clone(), roots, risk: q.risk, cleanup_command: copy_opt_string(&q.cleanup_command) };
        let ghost before_out = out@;
        out.push(p);
        assert forall|x: int| 0 <= x < i + 1 implies roots_resolved(#[trigger] out@[x], packs@[x], m, path_exists) by {
            if x < i {
                assert(out@[x] == before_out[x]);
            } else {
                assert(out@[x].id@ == q.id@);
                assert(out@[x].roots@ == p_roots);
                assert(opt_view(out@[x].cleanup_command) == opt_view(q.cleanup_command));
            }
        }
        i = i + 1;
    }
    out
}

/// With no variable set, expansion gives the text back unchanged.
pub proof fn lemma_expand_without_vars_is_identity(c: Seq<char>, vars: Seq<(Seq<char>, Seq<char>)>)
    requires
        forall|name: Seq<char>| #[trigger] env_value(vars, name) is None,
    ensures
        expand_from(c, 0, vars) == c,
{
    lemma_expand_tail_unchanged(c, 0, vars);
    assert(c.subrange(0, c.len() as int) =~= c);
}

proof fn lemma_expand_tail_unchanged(c: Seq<char>, i: int, vars: Seq<(Seq<char>, Seq<char>)>)
    requires
        0 <= i <= c.len(),
        forall|name: Seq<char>| #[trigger] env_value(vars, name) is None,
    ensures
        expand_from(c, i, vars) == c.subrange(i, c.len() as int),
    decreases c.len() - i,
{
    if i < c.len() {
        if c[i] == '%' && find_from(c, i + 1, '%') < c.len() {
            let close = find_from(c, i + 1, '%');
            lemma_find_from_bounds(c, i + 1, '%');
            lemma_expand_tail_unchanged(c, close + 1, vars);
            let name = c.subrange(i + 1, close);
            assert(env_value(vars, name) is None);
            assert(seq!['%'] + name + seq!['%'] + c.subrange(close + 1, c.len() as int) =~= c.subrange(i, c.len() as int));
        } else if c[i] == '$' && name_end(c, i + 1) > i + 1 {
            let end = name_end(c, i + 1);
            lemma_name_end_bounds(c, i + 1);
            lemma_expand_tail_unchanged(c, end, vars);
            let name = c.subrange(i + 1, end);
            assert(env_value(vars, name) is None);
            assert(seq!['$'] + name + c.subrange(end, c.len() as int) =~= c.subrange(i, c.len() as int));
        } else {
            lemma_expand_tail_unchanged(c, i + 1, vars);
            assert(seq![c[i]] + c.subrange(i + 1, c.len() as int) =~= c.subrange(i, c.len() as int));
        }
    } else {
        assert(c.subrange(i, c.len() as int) =~= Seq::<char>::empty());
    }
}

} // verus!
