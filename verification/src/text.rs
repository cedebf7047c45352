//! Character-level helpers shared by the parsers and matchers.
//!
//! Text is handled as `Seq<char>` in specifications and as `Vec<char>` in
//! executable code; `String` only appears at the public boundary.
use vstd::prelude::*;

verus! {

/// The characters of `s`, in order.
pub fn chars_of(s: &str) -> (v: Vec<char>)
    ensures
        v@ == s@,
{
    let mut v: Vec<char> = Vec::new();
    for c in it: s.chars()
        invariant
            v@ == it.seq().take(it.index() as int),
    {
        v.push(c);
    }
    proof {
        broadcast use vstd::string::group_string_axioms;
    }
    assert(v@ =~= s@);
    v
}

/// `std::string::String::push`: appends one character to the end of the string.
#[verifier::external_body]
fn push_char(s: &mut String, c: char)
    ensures
        final(s)@ == old(s)@.push(c),
{
    s.push(c);
}

/// A `String` holding exactly the characters of `v`.
pub fn string_of(v: &[char]) -> (s: String)
    ensures
        s@ == v@,
{
    let mut s = String::new();
    let mut i: usize = 0;
    while i < v.len()
        invariant
            i <= v@.len(),
            s@ == v@.take(i as int),
        decreases v@.len() - i,
    {
        push_char(&mut s, v[i]);
        assert(v@.take(i as int).push(v@[i as int]) =~= v@.take(i + 1));
        i = i + 1;
    }
    assert(v@.take(v@.len() as int) =~= v@);
    s
}

/// Owned copy of a string slice.
pub fn owned(s: &str) -> (r: String)
    ensures
        r@ == s@,
{
    s.to_owned()
}

/// Character-wise equality of two string slices.
pub fn str_eq(a: &str, b: &str) -> (r: bool)
    ensures
        r == (a@ == b@),
{
    let x = a.to_owned();
    let y = b.to_owned();
    x == y
}

/// Character-wise equality of two character vectors.
pub fn chars_eq(a: &[char], b: &[char]) -> (r: bool)
    ensures
        r == (a@ == b@),
{
    if a.len() != b.len() {
        return false;
    }
    let mut i: usize = 0;
    while i < a.len()
        invariant
            a@.len() == b@.len(),
            i <= a@.len(),
            forall|j: int| 0 <= j < i ==> a@[j] == b@[j],
        decreases a@.len() - i,
    {
        if a[i] != b[i] {
            return false;
        }
        i = i + 1;
    }
    assert(a@ =~= b@);
    true
}

// ---------------------------------------------------------------------------
// Unicode lowercase (std)
// ---------------------------------------------------------------------------

/// What `str::to_lowercase` gives for a string: the Unicode lowercase mapping.
pub uninterp spec fn unicode_lower(s: Seq<char>) -> Seq<char>;

/// `str::to_lowercase`: the lowercase equivalent of a string slice, as a new
/// `String`. Its result is named by [`unicode_lower`], a function of the
/// characters alone.
#[verifier::external_body]
pub(crate) fn to_lowercase(s: &str) -> (r: String)
    ensures
        r@ == unicode_lower(s@),
{
    s.to_lowercase()
}

/// What `char::is_alphanumeric` answers: Unicode Alphabetic or Numeric.
pub uninterp spec fn unicode_alnum(c: char) -> bool;

/// `char::is_alphanumeric`.
#[verifier::external_body]
pub(crate) fn is_alphanumeric(c: char) -> (r: bool)
    ensures
        r == unicode_alnum(c),
{
    c.is_alphanumeric()
}

// ---------------------------------------------------------------------------
// ASCII helpers
// ---------------------------------------------------------------------------

pub open spec fn ascii_lower_char(c: char) -> char {
    if 'A' <= c && c <= 'Z' {
        ((c as u32) + 32) as char
    } else {
        c
    }
}

pub open spec fn ascii_upper_char(c: char) -> char {
    if 'a' <= c && c <= 'z' {
        ((c as u32) - 32) as char
    } else {
        c
    }
}

pub open spec fn ascii_lower(s: Seq<char>) -> Seq<char> {
    s.map_values(|c: char| ascii_lower_char(c))
}

pub open spec fn is_ascii_digit(c: char) -> bool {
    '0' <= c && c <= '9'
}

pub open spec fn is_ascii_alpha(c: char) -> bool {
    ('a' <= c && c <= 'z') || ('A' <= c && c <= 'Z')
}

pub fn to_ascii_lower_char(c: char) -> (r: char)
    ensures
        r == ascii_lower_char(c),
{
    if 'A' <= c && c <= 'Z' {
        let b: u8 = c as u8;
        (b + 32) as char
    } else {
        c
    }
}

pub fn to_ascii_upper_char(c: char) -> (r: char)
    ensures
        r == ascii_upper_char(c),
{
    if 'a' <= c && c <= 'z' {
        let b: u8 = c as u8;
        (b - 32) as char
    } else {
        c
    }
}

pub fn to_ascii_lower(v: &[char]) -> (r: Vec<char>)
    ensures
        r@ == ascii_lower(v@),
{
    let mut r: Vec<char> = Vec::new();
    let mut i: usize = 0;
    while i < v.len()
        invariant
            i <= v@.len(),
            r@ =~= ascii_lower(v@.take(i as int)),
        decreases v@.len() - i,
    {
        let c = to_ascii_lower_char(v[i]);
        r.push(c);
        i = i + 1;
        assert(ascii_lower(v@.take(i as int)) =~= ascii_lower(v@.take(i - 1)).push(c));
    }
    assert(v@.take(v@.len() as int) =~= v@);
    r
}

// ---------------------------------------------------------------------------
// Whitespace (char::is_whitespace, the Unicode White_Space property)
// ---------------------------------------------------------------------------

pub open spec fn is_ws(c: char) -> bool {
    ||| c == ' '
    ||| ('\u{9}' <= c && c <= '\u{d}')
    ||| c == '\u{85}'
    ||| c == '\u{a0}'
    ||| c == '\u{1680}'
    ||| ('\u{2000}' <= c && c <= '\u{200a}')
    ||| c == '\u{2028}'
    ||| c == '\u{2029}'
    ||| c == '\u{202f}'
    ||| c == '\u{205f}'
    ||| c == '\u{3000}'
}

pub fn is_whitespace(c: char) -> (r: bool)
    ensures
        r == is_ws(c),
{
    c == ' ' || ('\u{9}' <= c && c <= '\u{d}') || c == '\u{85}' || c == '\u{a0}' || c
        == '\u{1680}' || ('\u{2000}' <= c && c <= '\u{200a}') || c == '\u{2028}' || c
        == '\u{2029}' || c == '\u{202f}' || c == '\u{205f}' || c == '\u{3000}'
}

/// Number of leading whitespace characters.
pub open spec fn lead_ws(s: Seq<char>) -> nat
    decreases s.len(),
{
    if s.len() > 0 && is_ws(s[0]) {
        1 + lead_ws(s.drop_first())
    } else {
        0
    }
}

/// Number of trailing whitespace characters.
pub open spec fn trail_ws(s: Seq<char>) -> nat
    decreases s.len(),
{
    if s.len() > 0 && is_ws(s.last()) {
        1 + trail_ws(s.drop_last())
    } else {
        0
    }
}

/// `str::trim`: the slice without leading and trailing whitespace.
pub open spec fn trim(s: Seq<char>) -> Seq<char> {
    let a = s.skip(lead_ws(s) as int);
    a.take(a.len() - trail_ws(a))
}

proof fn lemma_lead_ws(s: Seq<char>, k: int)
    requires
        0 <= k <= s.len(),
        forall|j: int| 0 <= j < k ==> is_ws(#[trigger] s[j]),
        k == s.len() || !is_ws(s[k]),
    ensures
        lead_ws(s) == k,
    decreases k,
{
    if k > 0 {
        lemma_lead_ws(s.drop_first(), k - 1);
    }
}

proof fn lemma_trail_ws(s: Seq<char>, k: int)
    requires
        0 <= k <= s.len(),
        forall|j: int| s.len() - k <= j < s.len() ==> is_ws(#[trigger] s[j]),
        k == s.len() || !is_ws(s[s.len() - k - 1]),
    ensures
        trail_ws(s) == k,
    decreases k,
{
    if k > 0 {
        lemma_trail_ws(s.drop_last(), k - 1);
    }
}

/// Bounds `(start, end)` of `trim(v)` inside `v`.
pub fn trim_bounds(v: &[char]) -> (r: (usize, usize))
    ensures
        r.0 <= r.1 <= v@.len(),
        v@.subrange(r.0 as int, r.1 as int) == trim(v@),
{
    let mut a: usize = 0;
    while a < v.len() && is_whitespace(v[a])
        invariant
            a <= v@.len(),
            forall|j: int| 0 <= j < a ==> is_ws(#[trigger] v@[j]),
        decreases v@.len() - a,
    {
        a = a + 1;
    }
    proof {
        lemma_lead_ws(v@, a as int);
    }
    let mut b: usize = v.len();
    while b > a && is_whitespace(v[b - 1])
        invariant
            a <= b <= v@.len(),
            forall|j: int| b <= j < v@.len() ==> is_ws(#[trigger] v@[j]),
        decreases b,
    {
        b = b - 1;
    }
    proof {
        let t = v@.skip(a as int);
        assert forall|j: int| t.len() - (v@.len() - b) <= j < t.len() implies is_ws(#[trigger] t[j]) by {
            assert(t[j] == v@[j + a]);
        }
        if b > a {
            assert(t[t.len() - (v@.len() - b) - 1] == v@[b - 1]);
        }
        lemma_trail_ws(t, v@.len() - b);
        assert(v@.subrange(a as int, b as int) =~= t.take(t.len() - trail_ws(t)));
    }
    (a, b)
}

/// `str::trim` on a character vector.
pub fn trim_chars(v: &[char]) -> (r: Vec<char>)
    ensures
        r@ == trim(v@),
{
    let (a, b) = trim_bounds(v);
    slice_chars(v, a, b)
}

/// Copy of `v[from..to]`.
pub fn slice_chars(v: &[char], from: usize, to: usize) -> (r: Vec<char>)
    requires
        from <= to <= v@.len(),
    ensures
        r@ == v@.subrange(from as int, to as int),
{
    let mut r: Vec<char> = Vec::new();
    let mut i = from;
    while i < to
        invariant
            from <= i <= to,
            to <= v@.len(),
            r@ == v@.subrange(from as int, i as int),
        decreases to - i,
    {
        r.push(v[i]);
        i = i + 1;
        assert(r@ =~= v@.subrange(from as int, i as int));
    }
    r
}

// ---------------------------------------------------------------------------
// Prefix / suffix / substring
// ---------------------------------------------------------------------------

pub open spec fn has_prefix(s: Seq<char>, p: Seq<char>) -> bool {
    p.len() <= s.len() && s.take(p.len() as int) == p
}

pub open spec fn has_suffix(s: Seq<char>, p: Seq<char>) -> bool {
    p.len() <= s.len() && s.skip(s.len() - p.len()) == p
}

pub open spec fn occurs_at(s: Seq<char>, p: Seq<char>, i: int) -> bool {
    0 <= i && i + p.len() <= s.len() && s.subrange(i, i + p.len()) == p
}

pub open spec fn has_infix(s: Seq<char>, p: Seq<char>) -> bool {
    exists|i: int| occurs_at(s, p, i)
}

/// True when `p` occurs in `s` at position `at`.
pub fn matches_at(s: &[char], p: &[char], at: usize) -> (r: bool)
    ensures
        r == occurs_at(s@, p@, at as int),
{
    if at > s.len() || p.len() > s.len() - at {
        return false;
    }
    let n = s.len();
    let mut j: usize = 0;
    while j < p.len()
        invariant
            n == s@.len(),
            at + p@.len() <= n,
            j <= p@.len(),
            forall|k: int| 0 <= k < j ==> s@[at + k] == p@[k],
        decreases p@.len() - j,
    {
        if s[at + j] != p[j] {
            assert(s@.subrange(at as int, at + p@.len())[j as int] != p@[j as int]);
            return false;
        }
        j = j + 1;
    }
    assert(s@.subrange(at as int, at + p@.len()) =~= p@);
    true
}

pub fn starts_with(s: &[char], p: &[char]) -> (r: bool)
    ensures
        r == has_prefix(s@, p@),
{
    let r = matches_at(s, p, 0);
    proof {
        if p@.len() <= s@.len() {
            assert(s@.take(p@.len() as int) =~= s@.subrange(0, p@.len() as int));
        }
    }
    r
}

pub fn ends_with(s: &[char], p: &[char]) -> (r: bool)
    ensures
        r == has_suffix(s@, p@),
{
    if p.len() > s.len() {
        return false;
    }
    let r = matches_at(s, p, s.len() - p.len());
    proof {
        assert(s@.skip(s@.len() - p@.len()) =~= s@.subrange(s@.len() - p@.len(), s@.len() as int));
    }
    r
}

/// First position at which `p` occurs in `s`, if any.
pub fn find_infix(s: &[char], p: &[char]) -> (r: Option<usize>)
    ensures
        match r {
            Some(i) => occurs_at(s@, p@, i as int) && forall|k: int|
                0 <= k < i ==> !occurs_at(s@, p@, k),
            None => !has_infix(s@, p@),
        },
{
    if p.len() > s.len() {
        return None;
    }
    let n = s.len();
    let m = n - p.len();
    let mut i: usize = 0;
    while i <= m
        invariant
            n == s@.len(),
            m == s@.len() - p@.len(),
            p@.len() <= s@.len(),
            i <= s@.len() - p@.len() + 1,
            forall|k: int| 0 <= k < i ==> !occurs_at(s@, p@, k),
        decreases s@.len() - p@.len() + 1 - i,
    {
        if matches_at(s, p, i) {
            return Some(i);
        }
        if i == m {
            return None;
        }
        i = i + 1;
    }
    None
}

pub fn contains(s: &[char], p: &[char]) -> (r: bool)
    ensures
        r == has_infix(s@, p@),
{
    find_infix(s, p).is_some()
}

/// `true` when `c` occurs in `s`.
pub fn has_char(s: &[char], c: char) -> (r: bool)
    ensures
        r == s@.contains(c),
{
    let mut i: usize = 0;
    while i < s.len()
        invariant
            i <= s@.len(),
            forall|k: int| 0 <= k < i ==> s@[k] != c,
        decreases s@.len() - i,
    {
        if s[i] == c {
            return true;
        }
        i = i + 1;
    }
    false
}

/// Replace every `from` with `to`.
pub open spec fn replace_char(s: Seq<char>, from: char, to: char) -> Seq<char> {
    s.map_values(|c: char| if c == from { to } else { c })
}

pub fn replace_chars(v: &[char], from: char, to: char) -> (r: Vec<char>)
    ensures
        r@ == replace_char(v@, from, to),
{
    let mut r: Vec<char> = Vec::new();
    let mut i: usize = 0;
    while i < v.len()
        invariant
            i <= v@.len(),
            r@ =~= replace_char(v@.take(i as int), from, to),
        decreases v@.len() - i,
    {
        let c = if v[i] == from {
            to
        } else {
            v[i]
        };
        r.push(c);
        i = i + 1;
        assert(replace_char(v@.take(i as int), from, to) =~= replace_char(
            v@.take(i - 1),
            from,
            to,
        ).push(c));
    }
    assert(v@.take(v@.len() as int) =~= v@);
    r
}

/// Concatenation of two character vectors.
pub fn concat(a: &[char], b: &[char]) -> (r: Vec<char>)
    ensures
        r@ == a@ + b@,
{
    let mut r = slice_chars(a, 0, a.len());
    let mut i: usize = 0;
    assert(a@.subrange(0, a@.len() as int) =~= a@);
    while i < b.len()
        invariant
            i <= b@.len(),
            r@ =~= a@ + b@.take(i as int),
        decreases b@.len() - i,
    {
        r.push(b[i]);
        i = i + 1;
        assert(a@ + b@.take(i as int) =~= (a@ + b@.take(i - 1)).push(b@[i - 1]));
    }
    assert(b@.take(b@.len() as int) =~= b@);
    r
}

// ---------------------------------------------------------------------------
// Splitting
// ---------------------------------------------------------------------------

/// `str::split` on a single character: the pieces between occurrences of
/// `c`, always at least one.
pub open spec fn split_on(s: Seq<char>, c: char) -> Seq<Seq<char>>
    decreases s.len(),
{
    if s.len() == 0 {
        seq![Seq::<char>::empty()]
    } else if s.last() == c {
        split_on(s.drop_last(), c).push(Seq::<char>::empty())
    } else {
        let pre = split_on(s.drop_last(), c);
        pre.update(pre.len() - 1, pre.last().push(s.last()))
    }
}

pub proof fn lemma_split_nonempty(s: Seq<char>, c: char)
    ensures
        split_on(s, c).len() >= 1,
    decreases s.len(),
{
    if s.len() > 0 {
        lemma_split_nonempty(s.drop_last(), c);
    }
}

/// The character sequences of a vector of character vectors.
pub open spec fn views(v: Seq<Vec<char>>) -> Seq<Seq<char>> {
    v.map_values(|x: Vec<char>| x@)
}

/// The pieces of `v` between occurrences of `c` (`str::split`).
pub fn split_chars(v: &[char], c: char) -> (r: Vec<Vec<char>>)
    ensures
        views(r@) == split_on(v@, c),
{
    let mut done: Vec<Vec<char>> = Vec::new();
    let mut cur: Vec<char> = Vec::new();
    let mut i: usize = 0;
    while i < v.len()
        invariant
            i <= v@.len(),
            views(done@).push(cur@) == split_on(v@.take(i as int), c),
        decreases v@.len() - i,
    {
        let ghost before = v@.take(i as int);
        assert(v@.take(i + 1).drop_last() =~= before);
        if v[i] == c {
            let finished = cur;
            let ghost prev_done = views(done@);
            done.push(finished);
            assert(views(done@) =~= prev_done.push(finished@));
            cur = Vec::new();
            assert(views(done@).push(cur@) =~= split_on(before, c).push(Seq::<char>::empty()));
        } else {
            let ghost old_cur = cur@;
            cur.push(v[i]);
            proof {
                lemma_split_nonempty(before, c);
                let pre = split_on(before, c);
                assert(pre.last() == old_cur);
                assert(views(done@).push(cur@) =~= pre.update(pre.len() - 1, pre.last().push(v@[i as int])));
            }
        }
        i = i + 1;
    }
    assert(v@.take(v@.len() as int) =~= v@);
    let ghost prev_done = views(done@);
    let ghost last = cur@;
    done.push(cur);
    assert(views(done@) =~= prev_done.push(last));
    done
}

/// Join pieces with a separator character.
pub open spec fn join_with(parts: Seq<Seq<char>>, c: char) -> Seq<char>
    decreases parts.len(),
{
    if parts.len() == 0 {
        Seq::empty()
    } else if parts.len() == 1 {
        parts[0]
    } else {
        join_with(parts.drop_last(), c).push(c) + parts.last()
    }
}

/// A piece without `c` splits into itself.
proof fn lemma_split_plain(s: Seq<char>, c: char)
    requires
        forall|j: int| 0 <= j < s.len() ==> s[j] != c,
    ensures
        split_on(s, c) == seq![s],
    decreases s.len(),
{
    if s.len() > 0 {
        lemma_split_plain(s.drop_last(), c);
        assert(split_on(s, c) =~= seq![s.drop_last().push(s.last())]);
        assert(s.drop_last().push(s.last()) =~= s);
    } else {
        assert(s =~= Seq::<char>::empty());
    }
}

/// Splitting `a`, then `c`, then a piece without `c`, splits `a` and adds
/// the piece.
proof fn lemma_split_after(a: Seq<char>, b: Seq<char>, c: char)
    requires
        forall|j: int| 0 <= j < b.len() ==> b[j] != c,
    ensures
        split_on(a.push(c) + b, c) == split_on(a, c).push(b),
    decreases b.len(),
{
    let s = a.push(c) + b;
    if b.len() == 0 {
        assert(s =~= a.push(c));
        assert(s.drop_last() =~= a);
        assert(b =~= Seq::<char>::empty());
    } else {
        lemma_split_after(a, b.drop_last(), c);
        assert(s.drop_last() =~= a.push(c) + b.drop_last());
        assert(s.last() == b.last());
        lemma_split_nonempty(a, c);
        let pre = split_on(s.drop_last(), c);
        assert(pre == split_on(a, c).push(b.drop_last()));
        assert(b.drop_last().push(b.last()) =~= b);
        assert(pre.last() == b.drop_last());
        assert(pre.update(pre.len() - 1, pre.last().push(s.last())) =~= split_on(a, c).push(b));
    }
}

/// Pieces without `c`, joined with `c`, split back into themselves.
pub proof fn lemma_split_join(parts: Seq<Seq<char>>, c: char)
    requires
        parts.len() > 0,
        forall|i: int, j: int| 0 <= i < parts.len() && 0 <= j < parts[i].len() ==> parts[i][j] != c,
    ensures
        split_on(join_with(parts, c), c) == parts,
    decreases parts.len(),
{
    if parts.len() == 1 {
        lemma_split_plain(parts[0], c);
        assert(parts =~= seq![parts[0]]);
    } else {
        let pre = parts.drop_last();
        assert forall|i: int, j: int| 0 <= i < pre.len() && 0 <= j < pre[i].len() implies pre[i][j] != c by {
            assert(pre[i] == parts[i]);
        }
        lemma_split_join(pre, c);
        assert forall|j: int| 0 <= j < parts.last().len() implies parts.last()[j] != c by {
            assert(parts.last() == parts[parts.len() - 1]);
        }
        lemma_split_after(join_with(pre, c), parts.last(), c);
        assert(pre.push(parts.last()) =~= parts);
    }
}

/// `parts.join(sep)` for a vector of strings.
pub fn join_strings(parts: &Vec<String>, c: char) -> (r: String)
    ensures
        r@ == join_with(parts.deep_view(), c),
{
    let mut acc: Vec<char> = Vec::new();
    let mut i: usize = 0;
    while i < parts.len()
        invariant
            i <= parts@.len(),
            acc@ == join_with(parts.deep_view().take(i as int), c),
        decreases parts@.len() - i,
    {
        let piece = chars_of(parts[i].as_str());
        assert(parts.deep_view().take(i + 1).drop_last() =~= parts.deep_view().take(i as int));
        if i > 0 {
            acc.push(c);
        }
        acc = concat(&acc, &piece);
        i = i + 1;
    }
    assert(parts.deep_view().take(parts@.len() as int) =~= parts.deep_view());
    string_of(&acc)
}

// ---------------------------------------------------------------------------
// Lines and words
// ---------------------------------------------------------------------------

/// The pieces of `s` between whitespace characters (empty pieces included).
pub open spec fn split_ws(s: Seq<char>) -> Seq<Seq<char>>
    decreases s.len(),
{
    if s.len() == 0 {
        seq![Seq::<char>::empty()]
    } else if is_ws(s.last()) {
        split_ws(s.drop_last()).push(Seq::<char>::empty())
    } else {
        let pre = split_ws(s.drop_last());
        pre.update(pre.len() - 1, pre.last().push(s.last()))
    }
}

proof fn lemma_split_ws_nonempty(s: Seq<char>)
    ensures
        split_ws(s).len() >= 1,
    decreases s.len(),
{
    if s.len() > 0 {
        lemma_split_ws_nonempty(s.drop_last());
    }
}

pub open spec fn nonempty(w: Seq<char>) -> bool {
    w.len() > 0
}

/// `str::split_whitespace`: the maximal runs of non-whitespace characters.
pub open spec fn words(s: Seq<char>) -> Seq<Seq<char>> {
    split_ws(s).filter(|w: Seq<char>| nonempty(w))
}

/// The whitespace-separated words of `v`.
pub fn words_of(v: &[char]) -> (r: Vec<Vec<char>>)
    ensures
        views(r@) == words(v@),
{
    let mut done: Vec<Vec<char>> = Vec::new();
    let mut cur: Vec<char> = Vec::new();
    let mut i: usize = 0;
    while i < v.len()
        invariant
            i <= v@.len(),
            views(done@) + seq![cur@] == split_ws(v@.take(i as int)),
        decreases v@.len() - i,
    {
        let ghost before = v@.take(i as int);
        assert(v@.take(i + 1).drop_last() =~= before);
        if is_whitespace(v[i]) {
            let finished = cur;
            let ghost prev_done = views(done@);
            done.push(finished);
            assert(views(done@) =~= prev_done.push(finished@));
            cur = Vec::new();
            assert(views(done@) + seq![cur@] =~= split_ws(before).push(Seq::<char>::empty()));
        } else {
            let ghost old_cur = cur@;
            cur.push(v[i]);
            proof {
                lemma_split_ws_nonempty(before);
                let pre = split_ws(before);
                assert(pre.last() == old_cur);
                assert(views(done@) + seq![cur@] =~= pre.update(pre.len() - 1, pre.last().push(v@[i as int])));
            }
        }
        i = i + 1;
    }
    assert(v@.take(v@.len() as int) =~= v@);
    let ghost prev_done = views(done@);
    let ghost last = cur@;
    done.push(cur);
    assert(views(done@) =~= prev_done + seq![last]);
    let ghost all = views(done@);
    let mut out: Vec<Vec<char>> = Vec::new();
    let mut j: usize = 0;
    while j < done.len()
        invariant
            j <= done@.len(),
            all == views(done@),
            views(out@) == all.take(j as int).filter(|w: Seq<char>| nonempty(w)),
        decreases done@.len() - j,
    {
        let w = crate::text::slice_chars(&done[j], 0, done[j].len());
        assert(w@ =~= all[j as int]);
        assert(all.take(j + 1).drop_last() =~= all.take(j as int));
        assert(all.take(j + 1).last() == w@);
        reveal_with_fuel(Seq::filter, 1);
        if w.len() > 0 {
            let ghost prev = views(out@);
            out.push(w);
            assert(views(out@) =~= prev.push(all[j as int]));
        }
        j = j + 1;
    }
    assert(all.take(done@.len() as int) =~= all);
    out
}

/// Strip one trailing `\r`.
pub open spec fn strip_cr(l: Seq<char>) -> Seq<char> {
    if l.len() > 0 && l.last() == '\r' {
        l.drop_last()
    } else {
        l
    }
}

/// `str::lines`: split at `\n`, without a final empty line, each line
/// stripped of one trailing `\r`.
pub open spec fn lines(s: Seq<char>) -> Seq<Seq<char>> {
    let pieces = split_on(s, '\n');
    let kept = if pieces.last().len() == 0 {
        pieces.drop_last()
    } else {
        pieces
    };
    kept.map_values(|l: Seq<char>| strip_cr(l))
}

/// The lines of `v`.
pub fn lines_of(v: &[char]) -> (r: Vec<Vec<char>>)
    ensures
        views(r@) == lines(v@),
{
    let pieces = split_chars(v, '\n');
    proof {
        lemma_split_nonempty(v@, '\n');
    }
    let last_empty = pieces[pieces.len() - 1].len() == 0;
    let n = if last_empty {
        pieces.len() - 1
    } else {
        pieces.len()
    };
    let ghost kept = if views(pieces@).last().len() == 0 {
        views(pieces@).drop_last()
    } else {
        views(pieces@)
    };
    assert(views(pieces@).last() == pieces@[pieces@.len() - 1]@);
    assert(kept.len() == n);
    let mut out: Vec<Vec<char>> = Vec::new();
    let mut i: usize = 0;
    while i < n
        invariant
            n <= pieces@.len(),
            i <= n,
            kept.len() == n,
            forall|k: int| 0 <= k < n ==> kept[k] == pieces@[k]@,
            views(out@) == kept.take(i as int).map_values(|l: Seq<char>| strip_cr(l)),
        decreases n - i,
    {
        let p = &pieces[i];
        let line = if p.len() > 0 && p[p.len() - 1] == '\r' {
            slice_chars(p, 0, p.len() - 1)
        } else {
            slice_chars(p, 0, p.len())
        };
        assert(line@ =~= strip_cr(kept[i as int]));
        let ghost prev = views(out@);
        out.push(line);
        assert(views(out@) =~= prev.push(strip_cr(kept[i as int])));
        i = i + 1;
        assert(kept.take(i as int).map_values(|l: Seq<char>| strip_cr(l)) =~= prev.push(
            strip_cr(kept[i - 1]),
        ));
    }
    assert(kept.take(n as int) =~= kept);
    out
}


// ---------------------------------------------------------------------------
// Decimal numbers
// ---------------------------------------------------------------------------

/// The ASCII digit for `d` (0..=9).
pub open spec fn digit_char(d: u64) -> char {
    ((d as u8) + 48u8) as char
}

/// Base-ten rendering of `n`, most significant digit first, without leading zeros.
pub open spec fn decimal_spec(n: u64) -> Seq<char>
    decreases n,
{
    if n < 10 {
        seq![digit_char(n)]
    } else {
        decimal_spec(n / 10).push(digit_char(n % 10))
    }
}

fn push_decimal(out: &mut Vec<char>, n: u64)
    ensures
        final(out)@ == old(out)@ + decimal_spec(n),
    decreases n,
{
    if n >= 10 {
        push_decimal(out, n / 10);
    }
    let d: u8 = (n % 10) as u8;
    out.push((d + 48u8) as char);
    proof {
        if n < 10 {
            assert(decimal_spec(n) =~= seq![digit_char(n)]);
        }
    }
    assert(final(out)@ =~= old(out)@ + decimal_spec(n)) by {
        if n >= 10 {
            assert(decimal_spec(n) =~= decimal_spec(n / 10).push(digit_char(n % 10)));
        }
    }
}

/// `n` in decimal.
pub fn decimal(n: u64) -> (r: Vec<char>)
    ensures
        r@ == decimal_spec(n),
{
    let mut out: Vec<char> = Vec::new();
    push_decimal(&mut out, n);
    assert(out@ =~= decimal_spec(n));
    out
}

/// Appends the characters of `s` to `out`.
pub fn push_str(out: &mut Vec<char>, s: &str)
    ensures
        final(out)@ == old(out)@ + s@,
{
    let v = chars_of(s);
    let mut i: usize = 0;
    while i < v.len()
        invariant
            i <= v@.len(),
            v@ == s@,
            out@ == old(out)@ + v@.take(i as int),
        decreases v@.len() - i,
    {
        out.push(v[i]);
        assert(v@.take(i as int).push(v@[i as int]) =~= v@.take(i + 1));
        i = i + 1;
    }
    assert(v@.take(v@.len() as int) =~= v@);
}

/// Appends the characters of `v` to `out`.
pub fn push_chars(out: &mut Vec<char>, v: &[char])
    ensures
        final(out)@ == old(out)@ + v@,
{
    let mut i: usize = 0;
    while i < v.len()
        invariant
            i <= v@.len(),
            out@ == old(out)@ + v@.take(i as int),
        decreases v@.len() - i,
    {
        out.push(v[i]);
        assert(v@.take(i as int).push(v@[i as int]) =~= v@.take(i + 1));
        i = i + 1;
    }
    assert(v@.take(v@.len() as int) =~= v@);
}

} // verus!


