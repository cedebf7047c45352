//! Application usage evidence: the UserAssist registry values (ROT13-encoded
//! paths with a binary run-count blob) and Prefetch file names, and the merge
//! of every probe's findings into one record per executable.
use vstd::prelude::*;

use crate::domain::models::{AppUsage, AppUsageModel, UsageSource};
use crate::domain::traits::UsageProbe;
use crate::text::{
    chars_of, ends_with, has_char, has_suffix, owned, replace_char, replace_chars, slice_chars, split_chars,
    split_on, string_of, to_lowercase, unicode_lower, views,
};

verus! {

// ---------------------------------------------------------------------------
// UserAssist
// ---------------------------------------------------------------------------

pub const BLOB_MIN_LEN: usize = 0x44;

pub const RUNTIME_OFFSET: usize = 0x3C;

pub const FT_TO_UNIX_SECS: i64 = 11_644_473_600;

/// ROT13 of one character: ASCII letters rotate by 13, everything else stays.
pub open spec fn rot13_char(c: char) -> char {
    if 'A' <= c && c <= 'Z' {
        ((((c as u8) - 65 + 13) % 26) + 65) as char
    } else if 'a' <= c && c <= 'z' {
        ((((c as u8) - 97 + 13) % 26) + 97) as char
    } else {
        c
    }
}

pub open spec fn rot13_spec(s: Seq<char>) -> Seq<char> {
    s.map_values(|c: char| rot13_char(c))
}

fn rot13_one(c: char) -> (r: char)
    ensures
        r == rot13_char(c),
{
    if 'A' <= c && c <= 'Z' {
        let b: u8 = c as u8;
        (((b - 65 + 13) % 26) + 65) as char
    } else if 'a' <= c && c <= 'z' {
        let b: u8 = c as u8;
        (((b - 97 + 13) % 26) + 97) as char
    } else {
        c
    }
}

/// ROT13-decode (or encode) a UserAssist value name.
pub fn rot13(s: &str) -> (r: String)
    ensures
        r@ == rot13_spec(s@),
{
    let v = chars_of(s);
    let mut out: Vec<char> = Vec::new();
    let mut i: usize = 0;
    while i < v.len()
        invariant
            i <= v@.len(),
            out@ == rot13_spec(v@.take(i as int)),
        decreases v@.len() - i,
    {
        out.push(rot13_one(v[i]));
        assert(rot13_spec(v@.take(i + 1)) =~= rot13_spec(v@.take(i as int)).push(rot13_char(v@[i as int])));
        i = i + 1;
    }
    assert(v@.take(v@.len() as int) =~= v@);
    string_of(&out)
}

proof fn lemma_rot13_char_involution(c: char)
    ensures
        rot13_char(rot13_char(c)) == c,
{
    if 'A' <= c && c <= 'Z' {
        let b = c as u8;
        assert(((((((b - 65 + 13) % 26) + 65) as u8) - 65 + 13) % 26) + 65 == b);
    } else if 'a' <= c && c <= 'z' {
        let b = c as u8;
        assert(((((((b - 97 + 13) % 26) + 97) as u8) - 97 + 13) % 26) + 97 == b);
    }
}

/// ROT13 undoes itself: decoding an encoded name gives the name back.
pub proof fn lemma_rot13_involution(s: Seq<char>)
    ensures
        rot13_spec(rot13_spec(s)) == s,
{
    assert forall|i: int| 0 <= i < s.len() implies rot13_spec(rot13_spec(s))[i] == s[i] by {
        lemma_rot13_char_involution(s[i]);
    }
    assert(rot13_spec(rot13_spec(s)) =~= s);
}

/// Rust's truncating division of a signed value by a positive divisor.
pub open spec fn trunc_div(a: int, d: int) -> int {
    if a >= 0 {
        a / d
    } else {
        -((-a) / d)
    }
}

/// Convert a Windows FILETIME (100 ns ticks since 1601) to Unix seconds.
pub fn filetime_to_unix(ft: i64) -> (r: i64)
    ensures
        r == trunc_div(ft as int, 10_000_000) - FT_TO_UNIX_SECS,
{
    let q: i64 = if ft >= 0 {
        ft / 10_000_000
    } else {
        // -ft may not fit; divide -(ft + 1) and carry the last unit.
        let b: i64 = -(ft + 1);
        let q0: i64 = b / 10_000_000;
        let r0: i64 = b % 10_000_000;
        let m: i64 = if r0 == 9_999_999 {
            q0 + 1
        } else {
            q0
        };
        assert(m == (b as int + 1) / 10_000_000) by (nonlinear_arith)
            requires
                b >= 0,
                q0 == b / 10_000_000,
                r0 == b % 10_000_000,
                r0 == 9_999_999 ==> m == q0 + 1,
                r0 != 9_999_999 ==> m == q0,
        ;
        -m
    };
    q - FT_TO_UNIX_SECS
}

/// Little-endian `u32` at `at`.
pub open spec fn le_u32(d: Seq<u8>, at: int) -> int {
    d[at] + 256 * d[at + 1] + 65536 * d[at + 2] + 16777216 * d[at + 3]
}

/// Little-endian unsigned 64-bit value at `at`.
pub open spec fn le_u64(d: Seq<u8>, at: int) -> int {
    le_u32(d, at) + 4294967296 * le_u32(d, at + 4)
}

/// The run count (bytes 0..4) and the last-run FILETIME (bytes 0x3C..0x44,
/// signed) of a UserAssist `Count` value, as Unix seconds; `None` when the
/// blob is too short or records no run.
pub open spec fn parse_count_blob_spec(d: Seq<u8>) -> Option<(u32, i64)> {
    if d.len() < BLOB_MIN_LEN {
        None
    } else {
        let raw = le_u64(d, RUNTIME_OFFSET as int);
        if raw == 0 || raw > i64::MAX {
            None
        } else {
            Some((le_u32(d, 0) as u32, (trunc_div(raw, 10_000_000) - FT_TO_UNIX_SECS) as i64))
        }
    }
}

fn read_le_u32(d: &[u8], at: usize) -> (r: u32)
    requires
        at + 4 <= d@.len(),
    ensures
        r as int == le_u32(d@, at as int),
{
    (d[at] as u32) + 256 * (d[at + 1] as u32) + 65536 * (d[at + 2] as u32) + 16777216 * (d[at
        + 3] as u32)
}

pub fn parse_count_blob(data: &[u8]) -> (r: Option<(u32, i64)>)
    ensures
        r == parse_count_blob_spec(data@),
{
    if data.len() < BLOB_MIN_LEN {
        return None;
    }
    let run_count = read_le_u32(data, 0);
    let lo = read_le_u32(data, RUNTIME_OFFSET) as u64;
    let hi = read_le_u32(data, RUNTIME_OFFSET + 4) as u64;
    if hi > 0x7fff_ffff || (hi == 0 && lo == 0) {
        return None;
    }
    let raw: u64 = lo + 4294967296 * hi;
    let ft: i64 = raw as i64;
    Some((run_count, filetime_to_unix(ft)))
}

/// The path without a leading drive prefix such as `C:`.
pub open spec fn without_drive(p: Seq<char>) -> Seq<char> {
    if p.len() >= 2 && p[1] == ':' && crate::text::is_ascii_alpha(p[0]) {
        p.skip(2)
    } else {
        p
    }
}

/// The normal components of a Windows path (empty and `.` ones dropped).
pub open spec fn win_components(p: Seq<char>) -> Seq<Seq<char>> {
    split_on(replace_char(without_drive(p), '/', '\\'), '\\').filter(
        |c: Seq<char>| c.len() > 0 && c != seq!['.'],
    )
}

/// `Path::file_name` of a Windows path: its last normal component, unless
/// that is `..` or there is none.
pub open spec fn win_file_name(p: Seq<char>) -> Option<Seq<char>> {
    let cs = win_components(p);
    if cs.len() == 0 || cs.last() == seq!['.', '.'] {
        None
    } else {
        Some(cs.last())
    }
}

pub open spec fn exe_name_from_path_spec(path: Seq<char>) -> Option<Seq<char>> {
    match win_file_name(path) {
        Some(n) => if has_suffix(unicode_lower(n), ".exe"@) {
            Some(unicode_lower(n))
        } else {
            None
        },
        None => None,
    }
}

fn file_name_of(path: &str) -> (r: Option<Vec<char>>)
    ensures
        match r {
            Some(n) => win_file_name(path@) == Some(n@),
            None => win_file_name(path@) is None,
        },
{
    let p = chars_of(path);
    let body = if p.len() >= 2 && p[1] == ':' && (('a' <= p[0] && p[0] <= 'z') || ('A' <= p[0] && p[0]
        <= 'Z')) {
        slice_chars(&p, 2, p.len())
    } else {
        slice_chars(&p, 0, p.len())
    };
    assert(body@ =~= without_drive(path@));
    let norm = replace_chars(&body, '/', '\\');
    let pieces = split_chars(&norm, '\\');
    let ghost all = views(pieces@);
    let ghost keep = |c: Seq<char>| c.len() > 0 && c != seq!['.'];
    let mut last: Option<Vec<char>> = None;
    let mut i: usize = 0;
    while i < pieces.len()
        invariant
            i <= pieces@.len(),
            all == views(pieces@),
            all == split_on(replace_char(without_drive(path@), '/', '\\'), '\\'),
            keep == (|c: Seq<char>| c.len() > 0 && c != seq!['.']),
            match last {
                Some(l) => all.take(i as int).filter(keep).len() > 0 && all.take(i as int).filter(
                    keep,
                ).last() == l@,
                None => all.take(i as int).filter(keep).len() == 0,
            },
        decreases pieces@.len() - i,
    {
        assert(all[i as int] == pieces@[i as int]@);
        assert(all.take(i + 1).drop_last() =~= all.take(i as int));
        assert(all.take(i + 1).last() == all[i as int]);
        reveal_with_fuel(Seq::filter, 1);
        let c = &pieces[i];
        let is_dot = c.len() == 1 && c[0] == '.';
        assert(is_dot == (c@ == seq!['.'])) by {
            if c@.len() == 1 && c@[0] == '.' {
                assert(c@ =~= seq!['.']);
            }
        }
        if c.len() > 0 && !is_dot {
            last = Some(slice_chars(c, 0, c.len()));
            assert(c@.subrange(0, c@.len() as int) =~= c@);
        }
        i = i + 1;
    }
    assert(all.take(pieces@.len() as int) =~= all);
    match last {
        Some(l) => {
            let is_up = l.len() == 2 && l[0] == '.' && l[1] == '.';
            assert(is_up == (l@ == seq!['.', '.'])) by {
                if l@.len() == 2 && l@[0] == '.' && l@[1] == '.' {
                    assert(l@ =~= seq!['.', '.']);
                }
            }
            if is_up {
                None
            } else {
                Some(l)
            }
        },
        None => None,
    }
}

/// The lower-cased executable name at the end of a decoded UserAssist path,
/// or `None` when the path does not name an `.exe`.
pub fn exe_name_from_path(path: &str) -> (r: Option<String>)
    ensures
        match r {
            Some(n) => exe_name_from_path_spec(path@) == Some(n@),
            None => exe_name_from_path_spec(path@) is None,
        },
{
    let name = match file_name_of(path) {
        Some(n) => n,
        None => return None,
    };
    let lower = to_lowercase(string_of(&name).as_str());
    let lv = chars_of(lower.as_str());
    if !ends_with(&lv, &chars_of(".exe")) {
        return None;
    }
    Some(lower)
}

/// The UserAssist usage probe (Windows). The registry is read by the caller;
/// this decodes what it read.
pub struct UserAssistProbe;

/// The usage a UserAssist value records: its name decoded to an `.exe` path
/// and its blob parsed; `None` for empty, non-executable or unparsable values.
pub open spec fn user_assist_usage(name: Seq<char>, data: Seq<u8>) -> Option<AppUsageModel> {
    if data.len() == 0 {
        None
    } else {
        match exe_name_from_path_spec(rot13_spec(name)) {
            Some(exe) => match parse_count_blob_spec(data) {
                Some((count, ts)) => Some(
                    AppUsageModel {
                        exe_name: exe,
                        last_run_unix: ts,
                        run_count: count as u64,
                        source: UsageSource::UserAssist,
                    },
                ),
                None => None,
            },
            None => None,
        }
    }
}

pub open spec fn usage_models(v: Seq<AppUsage>) -> Seq<AppUsageModel> {
    v.map_values(|u: AppUsage| u.deep_view())
}

/// The values that yield a usage record, as records, in order.
pub open spec fn user_assist_records(values: Seq<(String, Vec<u8>)>) -> Seq<AppUsageModel> {
    values.map_values(|v: (String, Vec<u8>)| user_assist_usage(v.0@, v.1@)).filter(
        |o: Option<AppUsageModel>| o is Some,
    ).map_values(|o: Option<AppUsageModel>| o.unwrap())
}

impl UserAssistProbe {
    pub fn new() -> (r: UserAssistProbe) {
        UserAssistProbe
    }

    /// The usage records of the `Count` values read from the UserAssist keys
    /// (value name, value data), in order.
    pub fn usages_from_values(&self, values: &Vec<(String, Vec<u8>)>) -> (r: Vec<AppUsage>)
        ensures
            usage_models(r@) == user_assist_records(values@),
    {
        let ghost f = |v: (String, Vec<u8>)| user_assist_usage(v.0@, v.1@);
        let ghost some = |o: Option<AppUsageModel>| o is Some;
        let ghost un = |o: Option<AppUsageModel>| o.unwrap();
        let mut out: Vec<AppUsage> = Vec::new();
        let mut i: usize = 0;
        while i < values.len()
            invariant
                i <= values@.len(),
                f == (|v: (String, Vec<u8>)| user_assist_usage(v.0@, v.1@)),
                some == (|o: Option<AppUsageModel>| o is Some),
                un == (|o: Option<AppUsageModel>| o.unwrap()),
                usage_models(out@) == values@.take(i as int).map_values(f).filter(some).map_values(un),
            decreases values@.len() - i,
        {
            let ghost prev = usage_models(out@);
            assert(values@.take(i + 1).map_values(f) =~= values@.take(i as int).map_values(f).push(
                f(values@[i as int]),
            ));
            assert(values@.take(i + 1).map_values(f).drop_last() =~= values@.take(i as int).map_values(f));
            reveal_with_fuel(Seq::filter, 1);
            let v = &values[i];
            let mut rec: Option<AppUsage> = None;
            if v.1.len() > 0 {
                let decoded = rot13(v.0.as_str());
                match exe_name_from_path(decoded.as_str()) {
                    Some(exe) => match parse_count_blob(v.1.as_slice()) {
                        Some((count, ts)) => {
                            rec = Some(
                                AppUsage {
                                    exe_name: exe,
                                    last_run_unix: ts,
                                    run_count: count as u64,
                                    source: UsageSource::UserAssist,
                                },
                            );
                        },
                        None => {},
                    },
                    None => {},
                }
            }
            match rec {
                Some(u) => {
                    assert(f(values@[i as int]) == Some(u.deep_view()));
                    out.push(u);
                    assert(usage_models(out@) =~= prev.push(un(f(values@[i as int]))));
                    assert(values@.take(i + 1).map_values(f).filter(some) =~= values@.take(
                        i as int,
                    ).map_values(f).filter(some).push(f(values@[i as int])));
                },
                None => {
                    assert(f(values@[i as int]) is None);
                    assert(values@.take(i + 1).map_values(f).filter(some) =~= values@.take(
                        i as int,
                    ).map_values(f).filter(some));
                },
            }
            i = i + 1;
        }
        assert(values@.take(values@.len() as int) =~= values@);
        out
    }
}

// ---------------------------------------------------------------------------
// Prefetch
// ---------------------------------------------------------------------------

pub const PREFETCH_DIR: &'static str = "C:\\Windows\\Prefetch";

/// Index of the last `c` in `s`, or -1.
pub open spec fn last_pos(s: Seq<char>, c: char) -> int
    decreases s.len(),
{
    if s.len() == 0 {
        -1
    } else if s.last() == c {
        s.len() - 1
    } else {
        last_pos(s.drop_last(), c)
    }
}

/// The executable a Prefetch file is named after: `NAME.EXE-HASH.pf` gives
/// `name.exe`; `None` for other files or names without an extension.
pub open spec fn exe_from_pf_name_spec(file_name: Seq<char>) -> Option<Seq<char>> {
    if !has_suffix(file_name, ".pf"@) {
        None
    } else {
        let stem = file_name.take(file_name.len() - 3);
        let dash = last_pos(stem, '-');
        let exe = if dash >= 0 {
            stem.take(dash)
        } else {
            stem
        };
        if exe.len() == 0 || !exe.contains('.') {
            None
        } else {
            Some(unicode_lower(exe))
        }
    }
}

proof fn lemma_last_pos(s: Seq<char>, c: char, k: int)
    requires
        -1 <= k < s.len(),
        k >= 0 ==> s[k] == c,
        forall|j: int| k < j < s.len() ==> s[j] != c,
    ensures
        last_pos(s, c) == k,
    decreases s.len(),
{
    if s.len() > 0 && s.last() != c {
        lemma_last_pos(s.drop_last(), c, k);
    }
}

pub fn exe_from_pf_name(file_name: &str) -> (r: Option<String>)
    ensures
        match r {
            Some(n) => exe_from_pf_name_spec(file_name@) == Some(n@),
            None => exe_from_pf_name_spec(file_name@) is None,
        },
{
    let v = chars_of(file_name);
    if !ends_with(&v, &chars_of(".pf")) {
        return None;
    }
    proof {
        reveal_strlit(".pf");
    }
    let stem = slice_chars(&v, 0, v.len() - 3);
    assert(stem@ =~= file_name@.take(file_name@.len() - 3));
    let mut k: usize = stem.len();
    while k > 0 && stem[k - 1] != '-'
        invariant
            k <= stem@.len(),
            forall|j: int| k <= j < stem@.len() ==> stem@[j] != '-',
        decreases k,
    {
        k = k - 1;
    }
    proof {
        lemma_last_pos(stem@, '-', k - 1);
    }
    let exe = if k > 0 {
        slice_chars(&stem, 0, k - 1)
    } else {
        slice_chars(&stem, 0, stem.len())
    };
    assert(k > 0 ==> exe@ =~= stem@.take(k - 1));
    assert(k == 0 ==> exe@ =~= stem@);
    if exe.len() == 0 || !has_char(&exe, '.') {
        return None;
    }
    Some(to_lowercase(string_of(&exe).as_str()))
}

/// The Prefetch usage probe (Windows): `dir` is listed by the caller.
pub struct PrefetchProbe {
    pub dir: String,
}

/// A Prefetch file's usage: the executable it names, last run at the file's
/// modification time; nothing when either is missing.
pub open spec fn prefetch_usage(name: Seq<char>, mtime: Option<i64>) -> Option<AppUsageModel> {
    match exe_from_pf_name_spec(name) {
        Some(exe) => match mtime {
            Some(ts) => Some(
                AppUsageModel { exe_name: exe, last_run_unix: ts, run_count: 0, source: UsageSource::Prefetch },
            ),
            None => None,
        },
        None => None,
    }
}

pub open spec fn prefetch_records(entries: Seq<(String, Option<i64>)>) -> Seq<AppUsageModel> {
    entries.map_values(|e: (String, Option<i64>)| prefetch_usage(e.0@, e.1)).filter(
        |o: Option<AppUsageModel>| o is Some,
    ).map_values(|o: Option<AppUsageModel>| o.unwrap())
}

impl PrefetchProbe {
    pub fn new() -> (r: PrefetchProbe)
        ensures
            r.dir@ == "C:\\Windows\\Prefetch"@,
    {
        PrefetchProbe { dir: owned(PREFETCH_DIR) }
    }

    /// The usage records of the directory's entries (file name, modification
    /// time in Unix seconds when readable), in order.
    pub fn usages_from_entries(&self, entries: &Vec<(String, Option<i64>)>) -> (r: Vec<AppUsage>)
        ensures
            usage_models(r@) == prefetch_records(entries@),
    {
        let ghost f = |e: (String, Option<i64>)| prefetch_usage(e.0@, e.1);
        let ghost some = |o: Option<AppUsageModel>| o is Some;
        let ghost un = |o: Option<AppUsageModel>| o.unwrap();
        let mut out: Vec<AppUsage> = Vec::new();
        let mut i: usize = 0;
        while i < entries.len()
            invariant
                i <= entries@.len(),
                f == (|e: (String, Option<i64>)| prefetch_usage(e.0@, e.1)),
                some == (|o: Option<AppUsageModel>| o is Some),
                un == (|o: Option<AppUsageModel>| o.unwrap()),
                usage_models(out@) == entries@.take(i as int).map_values(f).filter(some).map_values(un),
            decreases entries@.len() - i,
        {
            let ghost prev = usage_models(out@);
            assert(entries@.take(i + 1).map_values(f) =~= entries@.take(i as int).map_values(f).push(
                f(entries@[i as int]),
            ));
            assert(entries@.take(i + 1).map_values(f).drop_last() =~= entries@.take(i as int).map_values(f));
            reveal_with_fuel(Seq::filter, 1);
            let e = &entries[i];
            let mut rec: Option<AppUsage> = None;
            match exe_from_pf_name(e.0.as_str()) {
                Some(exe) => match e.1 {
                    Some(ts) => {
                        rec = Some(
                            AppUsage { exe_name: exe, last_run_unix: ts, run_count: 0, source: UsageSource::Prefetch },
                        );
                    },
                    None => {},
                },
                None => {},
            }
            match rec {
                Some(u) => {
                    assert(f(entries@[i as int]) == Some(u.deep_view()));
                    out.push(u);
                    assert(usage_models(out@) =~= prev.push(un(f(entries@[i as int]))));
                    assert(entries@.take(i + 1).map_values(f).filter(some) =~= entries@.take(
                        i as int,
                    ).map_values(f).filter(some).push(f(entries@[i as int])));
                },
                None => {
                    assert(f(entries@[i as int]) is None);
                    assert(entries@.take(i + 1).map_values(f).filter(some) =~= entries@.take(
                        i as int,
                    ).map_values(f).filter(some));
                },
            }
            i = i + 1;
        }
        assert(entries@.take(entries@.len() as int) =~= entries@);
        out
    }
}

// ---------------------------------------------------------------------------
// Merging the probes
// ---------------------------------------------------------------------------

/// Position of the record for `name` in `m`, or -1.
pub open spec fn find_name(m: Seq<AppUsageModel>, name: Seq<char>) -> int
    decreases m.len(),
{
    if m.len() == 0 {
        -1
    } else if m.last().exe_name == name {
        m.len() - 1
    } else {
        find_name(m.drop_last(), name)
    }
}

/// Two records for one executable: the later run (with its source) and the
/// higher count.
pub open spec fn combine(e: AppUsageModel, u: AppUsageModel) -> AppUsageModel {
    AppUsageModel {
        exe_name: e.exe_name,
        last_run_unix: if u.last_run_unix > e.last_run_unix {
            u.last_run_unix
        } else {
            e.last_run_unix
        },
        run_count: if u.run_count > e.run_count {
            u.run_count
        } else {
            e.run_count
        },
        source: if u.last_run_unix > e.last_run_unix {
            u.source
        } else {
            e.source
        },
    }
}

/// Fold one record into the merged records (first-seen order).
pub open spec fn merge_spec(m: Seq<AppUsageModel>, u: AppUsageModel) -> Seq<AppUsageModel> {
    let i = find_name(m, u.exe_name);
    if i < 0 {
        m.push(u)
    } else {
        m.update(i, combine(m[i], u))
    }
}

pub open spec fn merge_all_spec(m: Seq<AppUsageModel>, us: Seq<AppUsageModel>) -> Seq<AppUsageModel>
    decreases us.len(),
{
    if us.len() == 0 {
        m
    } else {
        merge_all_spec(merge_spec(m, us[0]), us.drop_first())
    }
}

/// No executable has two records.
pub open spec fn distinct_names(m: Seq<AppUsageModel>) -> bool {
    forall|i: int, j: int| 0 <= i < j < m.len() ==> m[i].exe_name != m[j].exe_name
}

/// `m` records `u`'s executable at least as recently and as often as `u`.
pub open spec fn dominated(m: Seq<AppUsageModel>, u: AppUsageModel) -> bool {
    exists|i: int|
        0 <= i < m.len() && #[trigger] m[i].exe_name == u.exe_name && m[i].last_run_unix >= u.last_run_unix
            && m[i].run_count >= u.run_count
}

/// Every figure of `m`'s records was reported for that executable in `us`.
pub open spec fn attained(m: Seq<AppUsageModel>, us: Seq<AppUsageModel>) -> bool {
    forall|i: int|
        #![trigger m[i]]
        0 <= i < m.len() ==> (exists|a: int|
            0 <= a < us.len() && #[trigger] us[a].exe_name == m[i].exe_name && us[a].last_run_unix
                == m[i].last_run_unix) && (exists|b: int|
            0 <= b < us.len() && #[trigger] us[b].exe_name == m[i].exe_name && us[b].run_count
                == m[i].run_count)
}

proof fn lemma_find_name(m: Seq<AppUsageModel>, name: Seq<char>)
    ensures
        -1 <= find_name(m, name) < m.len(),
        find_name(m, name) >= 0 ==> m[find_name(m, name)].exe_name == name,
        find_name(m, name) < 0 ==> forall|k: int| 0 <= k < m.len() ==> m[k].exe_name != name,
    decreases m.len(),
{
    if m.len() > 0 {
        lemma_find_name(m.drop_last(), name);
        if m.last().exe_name != name {
            assert forall|k: int| 0 <= k < m.len() - 1 implies m[k] == m.drop_last()[k] by {}
        }
    }
}

proof fn lemma_merge_distinct(m: Seq<AppUsageModel>, u: AppUsageModel)
    requires
        distinct_names(m),
    ensures
        distinct_names(merge_spec(m, u)),
{
    lemma_find_name(m, u.exe_name);
}

proof fn lemma_merge_dominates(m: Seq<AppUsageModel>, u: AppUsageModel, seen: Seq<AppUsageModel>)
    requires
        forall|k: int| 0 <= k < seen.len() ==> dominated(m, #[trigger] seen[k]),
    ensures
        forall|k: int| 0 <= k < seen.len() + 1 ==> dominated(merge_spec(m, u), #[trigger] seen.push(u)[k]),
{
    lemma_find_name(m, u.exe_name);
    let i = find_name(m, u.exe_name);
    let r = merge_spec(m, u);
    let s2 = seen.push(u);
    assert forall|k: int| 0 <= k < seen.len() + 1 implies dominated(r, #[trigger] s2[k]) by {
        if k < seen.len() {
            assert(s2[k] == seen[k]);
            assert(dominated(m, seen[k]));
            let w = choose|w: int|
                0 <= w < m.len() && #[trigger] m[w].exe_name == seen[k].exe_name && m[w].last_run_unix
                    >= seen[k].last_run_unix && m[w].run_count >= seen[k].run_count;
            assert(r[w].exe_name == seen[k].exe_name);
        } else {
            if i < 0 {
                assert(r[m.len() as int] == u);
            } else {
                assert(r[i].exe_name == u.exe_name);
            }
        }
    }
}

proof fn lemma_merge_attained(m: Seq<AppUsageModel>, u: AppUsageModel, seen: Seq<AppUsageModel>)
    requires
        attained(m, seen),
    ensures
        attained(merge_spec(m, u), seen.push(u)),
{
    lemma_find_name(m, u.exe_name);
    let i = find_name(m, u.exe_name);
    let r = merge_spec(m, u);
    let s2 = seen.push(u);
    let last = seen.len() as int;
    assert(s2[last] == u);
    assert forall|x: int| #![trigger r[x]] 0 <= x < r.len() implies (exists|a: int|
        0 <= a < s2.len() && #[trigger] s2[a].exe_name == r[x].exe_name && s2[a].last_run_unix
            == r[x].last_run_unix) && (exists|b: int|
        0 <= b < s2.len() && #[trigger] s2[b].exe_name == r[x].exe_name && s2[b].run_count
            == r[x].run_count) by {
        if x < m.len() {
            assert(m[x] == m[x]);
            let a = choose|a: int|
                0 <= a < seen.len() && #[trigger] seen[a].exe_name == m[x].exe_name && seen[a].last_run_unix
                    == m[x].last_run_unix;
            let b = choose|b: int|
                0 <= b < seen.len() && #[trigger] seen[b].exe_name == m[x].exe_name && seen[b].run_count
                    == m[x].run_count;
            assert(s2[a] == seen[a]);
            assert(s2[b] == seen[b]);
        } else {
            assert(r[x] == u);
        }
    }
}

proof fn lemma_merge_step(m: Seq<AppUsageModel>, u: AppUsageModel, seen: Seq<AppUsageModel>)
    requires
        distinct_names(m),
        forall|k: int| 0 <= k < seen.len() ==> dominated(m, #[trigger] seen[k]),
        attained(m, seen),
    ensures
        distinct_names(merge_spec(m, u)),
        forall|k: int| 0 <= k < seen.len() + 1 ==> dominated(merge_spec(m, u), #[trigger] seen.push(u)[k]),
        attained(merge_spec(m, u), seen.push(u)),
{
    lemma_merge_distinct(m, u);
    lemma_merge_dominates(m, u, seen);
    lemma_merge_attained(m, u, seen);
}

/// Usage records by executable name: at most one record per name.
pub struct UsageMap {
    entries: Vec<AppUsage>,
}

impl UsageMap {
    #[verifier::type_invariant]
    spec fn names_distinct(&self) -> bool {
        distinct_names(usage_models(self.entries@))
    }

    /// The records, in the order their executables were first seen.
    pub closed spec fn records(&self) -> Seq<AppUsageModel> {
        usage_models(self.entries@)
    }

    pub fn new() -> (r: UsageMap)
        ensures
            r.records() == Seq::<AppUsageModel>::empty(),
    {
        let r = UsageMap { entries: Vec::new() };
        assert(r.records() =~= Seq::<AppUsageModel>::empty());
        r
    }

    pub fn len(&self) -> (n: usize)
        ensures
            n == self.records().len(),
    {
        self.entries.len()
    }

    /// The record for `exe_name`, if any.
    pub fn get(&self, exe_name: &str) -> (r: Option<&AppUsage>)
        ensures
            match r {
                Some(u) => find_name(self.records(), exe_name@) >= 0 && u.deep_view() == self.records()[find_name(
                    self.records(),
                    exe_name@,
                )],
                None => find_name(self.records(), exe_name@) < 0,
            },
    {
        let pos = self.position(exe_name);
        match pos {
            Some(i) => Some(&self.entries[i]),
            None => None,
        }
    }

    fn position(&self, exe_name: &str) -> (r: Option<usize>)
        ensures
            match r {
                Some(i) => i == find_name(self.records(), exe_name@) && i < self.entries@.len(),
                None => find_name(self.records(), exe_name@) < 0,
            },
    {
        let ghost m = self.records();
        let mut k: usize = self.entries.len();
        proof {
            assert(m.take(k as int) =~= m);
        }
        while k > 0
            invariant
                k <= self.entries@.len(),
                m == self.records(),
                find_name(m.take(k as int), exe_name@) == find_name(m, exe_name@),
            decreases k,
        {
            assert(m.take(k as int).last() == self.entries@[k - 1].deep_view());
            assert(m.take(k as int).drop_last() =~= m.take(k - 1));
            if crate::text::str_eq(self.entries[k - 1].exe_name.as_str(), exe_name) {
                return Some(k - 1);
            }
            k = k - 1;
        }
        None
    }

    /// Every record, in first-seen order.
    pub fn values(&self) -> (r: &Vec<AppUsage>)
        ensures
            usage_models(r@) == self.records(),
    {
        &self.entries
    }

    /// Fold one probe record in: a new executable is appended; a known one
    /// keeps the later run time (with that run's source) and the higher count.
    pub fn merge(&mut self, u: AppUsage)
        ensures
            final(self).records() == merge_spec(old(self).records(), u.deep_view()),
    {
        proof {
            use_type_invariant(&*self);
            lemma_merge_distinct(self.records(), u.deep_view());
            lemma_find_name(self.records(), u.exe_name@);
        }
        let pos = self.position(u.exe_name.as_str());
        match pos {
            Some(i) => {
                let e = &self.entries[i];
                let later = u.last_run_unix > e.last_run_unix;
                let updated = AppUsage {
                    exe_name: e.exe_name.clone(),
                    last_run_unix: if later {
                        u.last_run_unix
                    } else {
                        e.last_run_unix
                    },
                    run_count: if u.run_count > e.run_count {
                        u.run_count
                    } else {
                        e.run_count
                    },
                    source: if later {
                        u.source
                    } else {
                        e.source
                    },
                };
                let ghost before = self.records();
                let mut entries: Vec<AppUsage> = Vec::new();
                std::mem::swap(&mut entries, &mut self.entries);
                entries.set(i, updated);
                assert(usage_models(entries@) =~= merge_spec(before, u.deep_view()));
                self.entries = entries;
            },
            None => {
                let ghost before = self.records();
                let mut entries: Vec<AppUsage> = Vec::new();
                std::mem::swap(&mut entries, &mut self.entries);
                entries.push(u);
                assert(usage_models(entries@) =~= merge_spec(before, u.deep_view()));
                self.entries = entries;
            },
        }
    }
}

/// Merging keeps, for every executable, the latest run time and the highest
/// run count any record reported, and nothing that was not reported: every
/// input record is matched or beaten by the merged record for its
/// executable, and each merged figure is one that was reported.
pub proof fn lemma_merge_keeps_latest_and_max(us: Seq<AppUsageModel>)
    ensures
        distinct_names(merge_all_spec(Seq::empty(), us)),
        forall|k: int| 0 <= k < us.len() ==> dominated(merge_all_spec(Seq::empty(), us), #[trigger] us[k]),
        attained(merge_all_spec(Seq::empty(), us), us),
{
    lemma_merge_all_from(Seq::empty(), Seq::empty(), us);
    assert(Seq::<AppUsageModel>::empty() + us =~= us);
}

proof fn lemma_merge_all_from(m: Seq<AppUsageModel>, seen: Seq<AppUsageModel>, us: Seq<AppUsageModel>)
    requires
        distinct_names(m),
        forall|k: int| 0 <= k < seen.len() ==> dominated(m, #[trigger] seen[k]),
        attained(m, seen),
    ensures
        distinct_names(merge_all_spec(m, us)),
        forall|k: int| 0 <= k < (seen + us).len() ==> dominated(merge_all_spec(m, us), #[trigger] (seen + us)[k]),
        attained(merge_all_spec(m, us), seen + us),
    decreases us.len(),
{
    if us.len() == 0 {
        assert(seen + us =~= seen);
    } else {
        lemma_merge_step(m, us[0], seen);
        lemma_merge_all_from(merge_spec(m, us[0]), seen.push(us[0]), us.drop_first());
        assert(seen.push(us[0]) + us.drop_first() =~= seen + us);
    }
}

/// Merges the findings of every usage probe.
/// The records of the successful probe results merged, in order, into `acc`;
/// failed results add nothing.
pub open spec fn merge_results_spec(acc: Seq<AppUsageModel>, rs: Seq<Result<Vec<AppUsage>, String>>) -> Seq<AppUsageModel>
    decreases rs.len(),
{
    if rs.len() == 0 {
        acc
    } else {
        let prev = merge_results_spec(acc, rs.drop_last());
        match rs.last() {
            Ok(v) => merge_all_spec(prev, usage_models(v@)),
            Err(_) => prev,
        }
    }
}

/// Merge the probes' results by executable, skipping the failed ones.
pub fn merge_results(results: Vec<Result<Vec<AppUsage>, String>>) -> (r: UsageMap)
    ensures
        r.records() == merge_results_spec(Seq::empty(), results@),
{
    let ghost all = results@;
    let mut merged = UsageMap::new();
    let mut rest = results;
    let mut done: usize = 0;
    let n = rest.len();
    assert(all.take(0) =~= Seq::<Result<Vec<AppUsage>, String>>::empty());
    while rest.len() > 0
        invariant
            done + rest@.len() == n,
            n == all.len(),
            rest@ == all.skip(done as int),
            merged.records() == merge_results_spec(Seq::empty(), all.take(done as int)),
        decreases rest@.len(),
    {
        let ghost before = rest@;
        let res = rest.remove(0);
        assert(res == all[done as int]);
        proof {
            let t = all.take(done + 1);
            assert(t.drop_last() =~= all.take(done as int));
            assert(t.last() == res);
        }
        match res {
            Ok(usages) => UsageService::merge_into(&mut merged, usages),
            Err(_) => {},
        }
        done = done + 1;
        assert(rest@ =~= all.skip(done as int));
    }
    assert(all.take(n as int) =~= all);
    merged
}

pub struct UsageService {
    pub probes: Vec<Box<dyn UsageProbe>>,
}

impl UsageService {
    pub fn new(probes: Vec<Box<dyn UsageProbe>>) -> (r: UsageService)
        ensures
            r.probes == probes,
    {
        UsageService { probes }
    }

    /// Fold a batch of records into `map`, in order.
    pub fn merge_into(map: &mut UsageMap, usages: Vec<AppUsage>)
        ensures
            final(map).records() == merge_all_spec(old(map).records(), usage_models(usages@)),
    {
        let ghost all = usage_models(usages@);
        let mut rest = usages;
        let mut done: usize = 0;
        let n = rest.len();
        assert(all.skip(0) =~= all);
        while rest.len() > 0
            invariant
                done + rest@.len() == n,
                n == all.len(),
                usage_models(rest@) == all.skip(done as int),
                merge_all_spec(map.records(), usage_models(rest@)) == merge_all_spec(
                    old(map).records(),
                    all,
                ),
            decreases rest@.len(),
        {
            let ghost before = rest@;
            let u = rest.remove(0);
            assert(usage_models(rest@) =~= usage_models(before).drop_first());
            assert(usage_models(before)[0] == u.deep_view());
            map.merge(u);
            done = done + 1;
            assert(usage_models(rest@) =~= all.skip(done as int));
        }
    }

    /// Every probe's records merged by executable, one result per probe in
    /// probe order; a failing probe is skipped (see [`merge_results`]).
    pub fn collect_map(&self) -> (r: UsageMap)
        ensures
            exists|rs: Seq<Result<Vec<AppUsage>, String>>|
                rs.len() == self.probes@.len() && r.records() == #[trigger] merge_results_spec(Seq::empty(), rs),
    {
        let mut results: Vec<Result<Vec<AppUsage>, String>> = Vec::new();
        let mut i: usize = 0;
        while i < self.probes.len()
            invariant
                i <= self.probes@.len(),
                results@.len() == i,
            decreases self.probes@.len() - i,
        {
            results.push(self.probes[i].probe());
            i = i + 1;
        }
        let ghost rs = results@;
        let r = merge_results(results);
        assert(r.records() == merge_results_spec(Seq::empty(), rs));
        r
    }

    /// The record for an executable, whatever its case.
    pub fn lookup<'a>(&self, map: &'a UsageMap, exe_name: &str) -> (r: Option<&'a AppUsage>)
        ensures
            match r {
                Some(u) => find_name(map.records(), unicode_lower(exe_name@)) >= 0 && u.deep_view()
                    == map.records()[find_name(map.records(), unicode_lower(exe_name@))],
                None => find_name(map.records(), unicode_lower(exe_name@)) < 0,
            },
    {
        let key = to_lowercase(exe_name);
        map.get(key.as_str())
    }
}

/// A Prefetch file named `x-h.pf`, where the hash `h` has no `-` and the
/// executable name `x` has an extension, names the executable `x`,
/// lower-cased: only what follows the last `-` is dropped, so `x` may hold
/// dashes itself.
pub proof fn lemma_pf_name_drops_only_the_hash(x: Seq<char>, h: Seq<char>)
    requires
        x.contains('.'),
        !h.contains('-'),
    ensures
        exe_from_pf_name_spec(x + seq!['-'] + h + ".pf"@) == Some(unicode_lower(x)),
{
    reveal_strlit(".pf");
    let name = x + seq!['-'] + h + ".pf"@;
    let stem = x + seq!['-'] + h;
    assert(name.skip(name.len() - 3) =~= ".pf"@);
    assert(name.take(name.len() - 3) =~= stem);
    assert forall|j: int| x.len() < j < stem.len() implies stem[j] != '-' by {
        assert(stem[j] == h[j - x.len() - 1]);
        if stem[j] == '-' {
            assert(h.contains('-'));
        }
    }
    assert(stem[x.len() as int] == '-');
    lemma_last_pos(stem, '-', x.len() as int);
    assert(stem.take(x.len() as int) =~= x);
    assert(x.len() > 0);
}

/// A Prefetch file named `x.pf` with no `-` names `x`, lower-cased, when `x`
/// has an extension; a file not ending in `.pf` names nothing.
pub proof fn lemma_pf_name_plain(x: Seq<char>, other: Seq<char>)
    requires
        x.contains('.'),
        !x.contains('-'),
        !has_suffix(other, ".pf"@),
    ensures
        exe_from_pf_name_spec(x + ".pf"@) == Some(unicode_lower(x)),
        exe_from_pf_name_spec(other) is None,
{
    reveal_strlit(".pf");
    let name = x + ".pf"@;
    assert(name.skip(name.len() - 3) =~= ".pf"@);
    assert(name.take(name.len() - 3) =~= x);
    assert forall|j: int| -1 < j < x.len() implies x[j] != '-' by {
        if x[j] == '-' {
            assert(x.contains('-'));
        }
    }
    lemma_last_pos(x, '-', -1);
}

} // verus!
