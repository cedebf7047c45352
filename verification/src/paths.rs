//! Where sweep keeps its files, computed from the environment values the
//! caller read.
use vstd::prelude::*;

use crate::text::{chars_of, concat, string_of};

verus! {

/// `PathBuf::join` with separator `sep`: an empty base yields `name`, a name
/// that starts with the separator replaces the base, and a separator is
/// inserted unless the base already ends with one.
pub open spec fn join_spec(base: Seq<char>, name: Seq<char>, sep: char) -> Seq<char> {
    if base.len() == 0 || (name.len() > 0 && name[0] == sep) {
        name
    } else if base.last() == sep {
        base + name
    } else {
        base.push(sep) + name
    }
}

pub fn join_path(base: &str, name: &str, sep: char) -> (r: String)
    ensures
        r@ == join_spec(base@, name@, sep),
{
    let b = chars_of(base);
    let n = chars_of(name);
    if b.len() == 0 || (n.len() > 0 && n[0] == sep) {
        return string_of(&n);
    }
    if b[b.len() - 1] == sep {
        let r = concat(&b, &n);
        return string_of(&r);
    }
    let mut b2 = b;
    b2.push(sep);
    let r = concat(&b2, &n);
    string_of(&r)
}

/// The sweep data directory: `$XDG_DATA_HOME/sweep` when that variable is set
/// and non-empty, otherwise `$HOME/.local/share/sweep` (`.` standing in for an
/// unset `HOME`).
pub open spec fn data_dir_spec(xdg_data_home: Option<Seq<char>>, home: Option<Seq<char>>) -> Seq<char> {
    match xdg_data_home {
        Some(x) if x.len() > 0 => join_spec(x, "sweep"@, '/'),
        _ => match home {
            Some(h) => join_spec(h, ".local/share/sweep"@, '/'),
            None => join_spec("."@, ".local/share/sweep"@, '/'),
        },
    }
}

pub open spec fn opt_str(o: Option<&str>) -> Option<Seq<char>> {
    match o {
        Some(s) => Some(s@),
        None => None,
    }
}

pub fn data_dir(xdg_data_home: Option<&str>, home: Option<&str>) -> (r: String)
    ensures
        r@ == data_dir_spec(opt_str(xdg_data_home), opt_str(home)),
{
    if let Some(x) = xdg_data_home {
        if !x.is_empty() {
            return join_path(x, "sweep", '/');
        }
    }
    match home {
        Some(h) => join_path(h, ".local/share/sweep", '/'),
        None => join_path(".", ".local/share/sweep", '/'),
    }
}

/// The user's home directory: the variable's value, or nothing when it is unset
/// or empty.
pub fn home_dir(var: Option<&str>) -> (r: Option<String>)
    ensures
        match var {
            Some(v) => if v@.len() > 0 { r matches Some(s) && s@ == v@ } else { r is None },
            None => r is None,
        },
{
    match var {
        Some(v) => {
            if v.is_empty() {
                None
            } else {
                Some(v.to_owned())
            }
        },
        None => None,
    }
}

/// `Path::parent` for `/`-separated paths: everything before the last
/// separator (trailing separators ignored); `None` for a path with no
/// separator-delimited parent.
pub open spec fn last_sep(s: Seq<char>, i: int) -> int
    decreases i,
{
    if i <= 0 {
        -1
    } else if s[i - 1] == '/' {
        i - 1
    } else {
        last_sep(s, i - 1)
    }
}

pub open spec fn trailing_seps(s: Seq<char>) -> nat
    decreases s.len(),
{
    if s.len() > 0 && s.last() == '/' {
        1 + trailing_seps(s.drop_last())
    } else {
        0
    }
}

pub open spec fn parent_spec(s: Seq<char>) -> Option<Seq<char>> {
    let t = s.take(s.len() - trailing_seps(s));
    if t.len() == 0 {
        None
    } else {
        let k = last_sep(t, t.len() as int);
        if k < 0 {
            Some(Seq::empty())
        } else if k == 0 {
            Some(seq!['/'])
        } else {
            Some(t.take(k))
        }
    }
}

proof fn lemma_trailing(s: Seq<char>, k: int)
    requires
        0 <= k <= s.len(),
        forall|j: int| s.len() - k <= j < s.len() ==> s[j] == '/',
        k == s.len() || s[s.len() - k - 1] != '/',
    ensures
        trailing_seps(s) == k,
    decreases k,
{
    if k > 0 {
        lemma_trailing(s.drop_last(), k - 1);
    }
}

proof fn lemma_last_sep(s: Seq<char>, i: int, k: int)
    requires
        0 <= i <= s.len(),
        -1 <= k < i,
        k >= 0 ==> s[k] == '/',
        forall|j: int| k < j < i ==> s[j] != '/',
    ensures
        last_sep(s, i) == k,
    decreases i,
{
    if i > 0 && s[i - 1] != '/' {
        lemma_last_sep(s, i - 1, k);
    }
}

/// The parent directory of a `/`-separated path.
pub fn parent_of(path: &str) -> (r: Option<String>)
    ensures
        match r {
            Some(p) => parent_spec(path@) == Some(p@),
            None => parent_spec(path@) is None,
        },
{
    let v = chars_of(path);
    let mut n = v.len();
    while n > 0 && v[n - 1] == '/'
        invariant
            n <= v@.len(),
            forall|j: int| n <= j < v@.len() ==> v@[j] == '/',
        decreases n,
    {
        n = n - 1;
    }
    proof {
        lemma_trailing(v@, v@.len() - n);
    }
    if n == 0 {
        return None;
    }
    let mut k = n;
    while k > 0 && v[k - 1] != '/'
        invariant
            k <= n <= v@.len(),
            forall|j: int| k <= j < n ==> v@[j] != '/',
        decreases k,
    {
        k = k - 1;
    }
    let ghost t = v@.take(n as int);
    proof {
        if k > 0 {
            lemma_last_sep(t, n as int, k - 1);
        } else {
            lemma_last_sep(t, n as int, -1);
        }
    }
    if k == 0 {
        return Some(String::new());
    }
    if k == 1 {
        let mut r: Vec<char> = Vec::new();
        r.push('/');
        assert(r@ =~= seq!['/']);
        return Some(string_of(&r));
    }
    let r = crate::text::slice_chars(&v, 0, k - 1);
    assert(r@ =~= t.take(k - 1));
    Some(string_of(&r))
}

/// Path of the guard daemon's log in the data dir.
pub fn guard_log_path(data_dir: &str) -> (r: String)
    ensures
        r@ == join_spec(data_dir@, "guard.log"@, '/'),
{
    join_path(data_dir, "guard.log", '/')
}

/// Path of the guard daemon's single-instance lock in the data dir.
pub fn guard_lock_path(data_dir: &str) -> (r: String)
    ensures
        r@ == join_spec(data_dir@, "guard.lock"@, '/'),
{
    join_path(data_dir, "guard.lock", '/')
}

/// Path of the user `sweep.toml` config in the data dir (the
/// lowest-precedence fallback after `--config` and the working directory).
pub fn sweep_toml_path(data_dir: &str) -> (r: String)
    ensures
        r@ == join_spec(data_dir@, "sweep.toml"@, '/'),
{
    join_path(data_dir, "sweep.toml", '/')
}

/// Path of the undo journal in the data dir.
pub fn journal_path(data_dir: &str) -> (r: String)
    ensures
        r@ == join_spec(data_dir@, "undo_journal.toml"@, '/'),
{
    join_path(data_dir, "undo_journal.toml", '/')
}

/// The index database: `$SWEEP_DB` when set and non-empty, otherwise
/// `index.db` in the data dir.
pub fn index_db_path(sweep_db: Option<&str>, data_dir: &str) -> (r: String)
    ensures
        match sweep_db {
            Some(v) if v@.len() > 0 => r@ == v@,
            _ => r@ == join_spec(data_dir@, "index.db"@, '/'),
        },
{
    if let Some(v) = sweep_db {
        if !v.is_empty() {
            return v.to_owned();
        }
    }
    join_path(data_dir, "index.db", '/')
}

/// The reserve file: `reserve.bin` beside a non-empty `$SWEEP_DB` that has a
/// parent, otherwise in the data dir.
pub fn reserve_path(sweep_db: Option<&str>, data_dir: &str) -> (r: String)
    ensures
        match sweep_db {
            Some(v) if v@.len() > 0 && parent_spec(v@) is Some => r@ == join_spec(
                parent_spec(v@)->0,
                "reserve.bin"@,
                '/',
            ),
            _ => r@ == join_spec(data_dir@, "reserve.bin"@, '/'),
        },
{
    if let Some(v) = sweep_db {
        if !v.is_empty() {
            if let Some(parent) = parent_of(v) {
                return join_path(parent.as_str(), "reserve.bin", '/');
            }
        }
    }
    join_path(data_dir, "reserve.bin", '/')
}

/// Resolve the `sweep.toml` path to load: the `--config` override, else
/// `sweep.toml` in the working directory when it exists there, else the copy
/// in the data dir.
pub fn resolve_toml_path(config_override: Option<&str>, cwd_has_toml: bool, data_dir: &str) -> (r: String)
    ensures
        match config_override {
            Some(p) => r@ == p@,
            None => if cwd_has_toml { r@ == "sweep.toml"@ } else { r@ == join_spec(data_dir@, "sweep.toml"@, '/') },
        },
{
    if let Some(p) = config_override {
        return p.to_owned();
    }
    if cwd_has_toml {
        return "sweep.toml".to_owned();
    }
    sweep_toml_path(data_dir)
}

} // verus!
