//! Stable descending sort by an integer key.
//!
//! Several reports list rows largest-first (`sort_by(|a, b| b.x.cmp(&a.x))`);
//! they all go through [`sort_desc`], whose result is pinned by
//! [`sorted_desc`]: insertion, in input order, of each element after every
//! element whose key is at least as large, which is what a stable sort does.
use vstd::prelude::*;

verus! {

/// A value with an unsigned sort key.
pub trait SpecKey {
    spec fn key_of(&self) -> u64;
}

/// A value whose sort key can be read at run time.
pub trait SortKey: SpecKey {
    fn sort_key(&self) -> (k: u64)
        ensures
            k == self.key_of(),
    ;
}

/// Insert `x` before the first element with a strictly smaller key.
pub open spec fn insert_desc<T: SpecKey>(s: Seq<T>, x: T) -> Seq<T>
    decreases s.len(),
{
    if s.len() == 0 {
        seq![x]
    } else if s[0].key_of() < x.key_of() {
        seq![x] + s
    } else {
        seq![s[0]] + insert_desc(s.drop_first(), x)
    }
}

/// Insert the elements of `rest`, in order, into `acc`.
pub open spec fn sort_from<T: SpecKey>(acc: Seq<T>, rest: Seq<T>) -> Seq<T>
    decreases rest.len(),
{
    if rest.len() == 0 {
        acc
    } else {
        sort_from(insert_desc(acc, rest[0]), rest.drop_first())
    }
}

/// The stable descending sort of `s` by key.
pub open spec fn sorted_desc<T: SpecKey>(s: Seq<T>) -> Seq<T> {
    sort_from(Seq::empty(), s)
}

pub open spec fn is_desc<T: SpecKey>(s: Seq<T>) -> bool {
    forall|i: int, j: int| 0 <= i < j < s.len() ==> s[i].key_of() >= s[j].key_of()
}

proof fn lemma_insert_at<T: SpecKey>(s: Seq<T>, x: T, p: int)
    requires
        0 <= p <= s.len(),
        forall|j: int| 0 <= j < p ==> s[j].key_of() >= x.key_of(),
        p < s.len() ==> s[p].key_of() < x.key_of(),
    ensures
        insert_desc(s, x) == s.insert(p, x),
    decreases s.len(),
{
    if s.len() == 0 {
        assert(s.insert(p, x) =~= seq![x]);
    } else if p == 0 {
        assert(s.insert(p, x) =~= seq![x] + s);
    } else {
        lemma_insert_at(s.drop_first(), x, p - 1);
        assert(s.insert(p, x) =~= seq![s[0]] + s.drop_first().insert(p - 1, x));
    }
}

/// Sort `v` in place of a new vector: largest key first, ties in input order.
pub fn sort_desc<T: SortKey>(v: Vec<T>) -> (r: Vec<T>)
    ensures
        r@ == sorted_desc(v@),
{
    let ghost orig = v@;
    let mut input = v;
    let mut out: Vec<T> = Vec::new();
    while input.len() > 0
        invariant
            sort_from(out@, input@) == sorted_desc(orig),
        decreases input@.len(),
    {
        let ghost before = input@;
        let x = input.remove(0);
        assert(input@ =~= before.drop_first());
        let k = x.sort_key();
        let mut p: usize = 0;
        while p < out.len() && out[p].sort_key() >= k
            invariant
                p <= out@.len(),
                k == x.key_of(),
                forall|j: int| 0 <= j < p ==> out@[j].key_of() >= x.key_of(),
            decreases out@.len() - p,
        {
            p = p + 1;
        }
        proof {
            lemma_insert_at(out@, x, p as int);
        }
        out.insert(p, x);
    }
    out
}

/// Index of the first element with a key smaller than `x`'s.
pub open spec fn insert_pos<T: SpecKey>(s: Seq<T>, x: T) -> int
    decreases s.len(),
{
    if s.len() == 0 {
        0
    } else if s[0].key_of() < x.key_of() {
        0
    } else {
        1 + insert_pos(s.drop_first(), x)
    }
}

proof fn lemma_insert_pos<T: SpecKey>(s: Seq<T>, x: T)
    ensures
        0 <= insert_pos(s, x) <= s.len(),
        forall|j: int| 0 <= j < insert_pos(s, x) ==> s[j].key_of() >= x.key_of(),
        insert_pos(s, x) < s.len() ==> s[insert_pos(s, x)].key_of() < x.key_of(),
    decreases s.len(),
{
    if s.len() > 0 && s[0].key_of() >= x.key_of() {
        lemma_insert_pos(s.drop_first(), x);
        assert forall|j: int| 0 <= j < insert_pos(s, x) implies s[j].key_of() >= x.key_of() by {
            if j > 0 {
                assert(s[j] == s.drop_first()[j - 1]);
            }
        }
    }
}

proof fn lemma_insert_desc_props<T: SpecKey>(s: Seq<T>, x: T)
    requires
        is_desc(s),
    ensures
        is_desc(insert_desc(s, x)),
        insert_desc(s, x).to_multiset() == s.to_multiset().insert(x),
{
    lemma_insert_pos(s, x);
    let p = insert_pos(s, x);
    lemma_insert_at(s, x, p);
    vstd::seq_lib::to_multiset_insert(s, p, x);
    let r = s.insert(p, x);
    assert forall|i: int, j: int| 0 <= i < j < r.len() implies r[i].key_of() >= r[j].key_of() by {
        if j < p {
            assert(r[i] == s[i] && r[j] == s[j]);
        } else if j == p {
            assert(r[j] == x && r[i] == s[i]);
        } else if i < p {
            assert(r[i] == s[i] && r[j] == s[j - 1]);
        } else if i == p {
            assert(r[i] == x && r[j] == s[j - 1]);
            assert(s[p].key_of() >= s[j - 1].key_of());
        } else {
            assert(r[i] == s[i - 1] && r[j] == s[j - 1]);
        }
    }
}

proof fn lemma_sort_from_props<T: SpecKey>(acc: Seq<T>, rest: Seq<T>)
    requires
        is_desc(acc),
    ensures
        is_desc(sort_from(acc, rest)),
        sort_from(acc, rest).to_multiset() == acc.to_multiset().add(rest.to_multiset()),
    decreases rest.len(),
{
    broadcast use vstd::multiset::group_multiset_axioms;
    broadcast use vstd::seq_lib::group_to_multiset_ensures;
    if rest.len() == 0 {
        assert(acc.to_multiset().add(rest.to_multiset()) =~= acc.to_multiset());
    } else {
        lemma_insert_desc_props(acc, rest[0]);
        lemma_sort_from_props(insert_desc(acc, rest[0]), rest.drop_first());
        vstd::seq_lib::lemma_multiset_commutative(seq![rest[0]], rest.drop_first());
        assert(seq![rest[0]] + rest.drop_first() =~= rest);
        assert(Seq::<T>::empty().push(rest[0]) =~= seq![rest[0]]);
        assert(acc.to_multiset().insert(rest[0]).add(rest.drop_first().to_multiset())
            =~= acc.to_multiset().add(rest.to_multiset()));
    }
}

/// The stable descending sort orders its result largest key first and keeps
/// exactly the input's elements.
pub proof fn lemma_sorted_desc_is_ordered_permutation<T: SpecKey>(s: Seq<T>)
    ensures
        is_desc(sorted_desc(s)),
        sorted_desc(s).to_multiset() == s.to_multiset(),
{
    broadcast use vstd::multiset::group_multiset_axioms;
    broadcast use vstd::seq_lib::group_to_multiset_ensures;
    lemma_sort_from_props(Seq::<T>::empty(), s);
    assert(Seq::<T>::empty().to_multiset().add(s.to_multiset()) =~= s.to_multiset());
}

/// Among elements of equal key, `rank` never decreases along `s`.
pub open spec fn ties_ranked<T: SpecKey>(s: Seq<T>, rank: spec_fn(T) -> int) -> bool {
    forall|i: int, j: int|
        0 <= i < j < s.len() && #[trigger] s[i].key_of() == #[trigger] s[j].key_of() ==> rank(s[i]) <= rank(s[j])
}

/// `rank` never decreases along `s`.
pub open spec fn ranked_asc<T>(s: Seq<T>, rank: spec_fn(T) -> int) -> bool {
    forall|i: int, j: int| 0 <= i < j < s.len() ==> rank(#[trigger] s[i]) <= rank(#[trigger] s[j])
}

proof fn lemma_insert_desc_stable<T: SpecKey>(s: Seq<T>, x: T, rank: spec_fn(T) -> int)
    requires
        is_desc(s),
        ties_ranked(s, rank),
        forall|i: int| 0 <= i < s.len() ==> rank(#[trigger] s[i]) <= rank(x),
    ensures
        ties_ranked(insert_desc(s, x), rank),
        forall|i: int| 0 <= i < insert_desc(s, x).len() ==> #[trigger] insert_desc(s, x)[i] == x || s.contains(insert_desc(s, x)[i]),
{
    lemma_insert_pos(s, x);
    let p = insert_pos(s, x);
    lemma_insert_at(s, x, p);
    let r = s.insert(p, x);
    assert forall|i: int, j: int|
        0 <= i < j < r.len() && #[trigger] r[i].key_of() == #[trigger] r[j].key_of() implies rank(r[i]) <= rank(r[j]) by {
        if j < p {
            assert(r[i] == s[i] && r[j] == s[j]);
        } else if j == p {
            assert(r[j] == x && r[i] == s[i]);
        } else if i < p {
            assert(r[i] == s[i] && r[j] == s[j - 1]);
        } else if i == p {
            assert(r[i] == x && r[j] == s[j - 1]);
            assert(s[p].key_of() >= s[j - 1].key_of());
        } else {
            assert(r[i] == s[i - 1] && r[j] == s[j - 1]);
        }
    }
    assert forall|i: int| 0 <= i < r.len() implies #[trigger] r[i] == x || s.contains(r[i]) by {
        if i < p {
            assert(r[i] == s[i]);
        } else if i > p {
            assert(r[i] == s[i - 1]);
        }
    }
}

proof fn lemma_sort_from_stable<T: SpecKey>(acc: Seq<T>, rest: Seq<T>, rank: spec_fn(T) -> int)
    requires
        is_desc(acc),
        ties_ranked(acc, rank),
        ranked_asc(rest, rank),
        forall|i: int, j: int| 0 <= i < acc.len() && 0 <= j < rest.len() ==> rank(#[trigger] acc[i]) <= rank(#[trigger] rest[j]),
    ensures
        ties_ranked(sort_from(acc, rest), rank),
    decreases rest.len(),
{
    if rest.len() > 0 {
        let x = rest[0];
        let next = insert_desc(acc, x);
        let tail = rest.drop_first();
        assert forall|i: int| 0 <= i < acc.len() implies rank(#[trigger] acc[i]) <= rank(x) by {
            assert(rank(acc[i]) <= rank(rest[0]));
        }
        lemma_insert_desc_props(acc, x);
        lemma_insert_desc_stable(acc, x, rank);
        assert forall|i: int, j: int| 0 <= i < next.len() && 0 <= j < tail.len() implies rank(#[trigger] next[i]) <= rank(#[trigger] tail[j]) by {
            assert(tail[j] == rest[j + 1]);
            if next[i] == x {
                assert(rank(rest[0]) <= rank(rest[j + 1]));
            } else {
                assert(acc.contains(next[i]));
                let k = choose|k: int| 0 <= k < acc.len() && acc[k] == next[i];
                assert(rank(acc[k]) <= rank(rest[j + 1]));
            }
        }
        assert forall|i: int, j: int| 0 <= i < j < tail.len() implies rank(#[trigger] tail[i]) <= rank(#[trigger] tail[j]) by {
            assert(tail[i] == rest[i + 1] && tail[j] == rest[j + 1]);
        }
        lemma_sort_from_stable(next, tail, rank);
    }
}

/// The descending sort is stable: where `s` is ordered by `rank`, elements
/// of equal key stay in that order.
pub proof fn lemma_sorted_desc_stable<T: SpecKey>(s: Seq<T>, rank: spec_fn(T) -> int)
    requires
        ranked_asc(s, rank),
    ensures
        ties_ranked(sorted_desc(s), rank),
{
    lemma_sort_from_stable(Seq::<T>::empty(), s, rank);
}

proof fn lemma_insert_map<T: SpecKey, U: SpecKey>(s: Seq<T>, x: T, f: spec_fn(T) -> U)
    requires
        forall|y: T| #[trigger] f(y).key_of() == y.key_of(),
    ensures
        insert_desc(s, x).map_values(f) == insert_desc(s.map_values(f), f(x)),
    decreases s.len(),
{
    assert(f(x).key_of() == x.key_of());
    if s.len() == 0 {
        assert(seq![x].map_values(f) =~= seq![f(x)]);
    } else {
        assert(s.map_values(f)[0] == f(s[0]));
        assert(f(s[0]).key_of() == s[0].key_of());
        if s[0].key_of() < x.key_of() {
            assert((seq![x] + s).map_values(f) =~= seq![f(x)] + s.map_values(f));
        } else {
            lemma_insert_map(s.drop_first(), x, f);
            assert(s.drop_first().map_values(f) =~= s.map_values(f).drop_first());
            assert((seq![s[0]] + insert_desc(s.drop_first(), x)).map_values(f) =~= seq![f(s[0])]
                + insert_desc(s.drop_first(), x).map_values(f));
        }
    }
}

proof fn lemma_sort_from_map<T: SpecKey, U: SpecKey>(acc: Seq<T>, rest: Seq<T>, f: spec_fn(T) -> U)
    requires
        forall|y: T| #[trigger] f(y).key_of() == y.key_of(),
    ensures
        sort_from(acc, rest).map_values(f) == sort_from(acc.map_values(f), rest.map_values(f)),
    decreases rest.len(),
{
    if rest.len() > 0 {
        lemma_insert_map(acc, rest[0], f);
        lemma_sort_from_map(insert_desc(acc, rest[0]), rest.drop_first(), f);
        assert(rest.drop_first().map_values(f) =~= rest.map_values(f).drop_first());
    }
}

/// Sorting commutes with a map that keeps every key.
pub proof fn lemma_sort_map<T: SpecKey, U: SpecKey>(s: Seq<T>, f: spec_fn(T) -> U)
    requires
        forall|y: T| #[trigger] f(y).key_of() == y.key_of(),
    ensures
        sorted_desc(s).map_values(f) == sorted_desc(s.map_values(f)),
{
    lemma_sort_from_map(Seq::<T>::empty(), s, f);
    assert(Seq::<T>::empty().map_values(f) =~= Seq::<U>::empty());
}

// ---------------------------------------------------------------------------
// Ascending sort by a text key
// ---------------------------------------------------------------------------

/// Code-point lexicographic order, which is the order of `str` (UTF-8 bytes
/// compare as their code points do).
pub open spec fn text_lt(a: Seq<char>, b: Seq<char>) -> bool
    decreases a.len(),
{
    if b.len() == 0 {
        false
    } else if a.len() == 0 {
        true
    } else if a[0] != b[0] {
        (a[0] as u32) < (b[0] as u32)
    } else {
        text_lt(a.drop_first(), b.drop_first())
    }
}

/// Whether `a` sorts strictly before `b`.
pub fn text_less(a: &[char], b: &[char]) -> (r: bool)
    ensures
        r == text_lt(a@, b@),
{
    let mut i: usize = 0;
    assert(a@.skip(0) =~= a@);
    assert(b@.skip(0) =~= b@);
    while i < a.len() && i < b.len() && a[i] == b[i]
        invariant
            i <= a@.len(),
            i <= b@.len(),
            text_lt(a@, b@) == text_lt(a@.skip(i as int), b@.skip(i as int)),
        decreases a@.len() - i,
    {
        assert(a@.skip(i as int).drop_first() =~= a@.skip(i + 1));
        assert(b@.skip(i as int).drop_first() =~= b@.skip(i + 1));
        i = i + 1;
    }
    if i == b.len() {
        false
    } else if i == a.len() {
        true
    } else {
        (a[i] as u32) < (b[i] as u32)
    }
}

/// A value ordered by a text key.
pub trait SpecTextKey {
    spec fn text_key(&self) -> Seq<char>;
}

/// A value whose text key can be computed at run time.
pub trait TextKey: SpecTextKey {
    fn text_key_of(&self) -> (k: Vec<char>)
        ensures
            k@ == self.text_key(),
    ;
}

/// Insert `x` before the first element whose key sorts after `x`'s.
pub open spec fn insert_asc<T: SpecTextKey>(s: Seq<T>, x: T) -> Seq<T>
    decreases s.len(),
{
    if s.len() == 0 {
        seq![x]
    } else if text_lt(x.text_key(), s[0].text_key()) {
        seq![x] + s
    } else {
        seq![s[0]] + insert_asc(s.drop_first(), x)
    }
}

pub open spec fn sort_asc_from<T: SpecTextKey>(acc: Seq<T>, rest: Seq<T>) -> Seq<T>
    decreases rest.len(),
{
    if rest.len() == 0 {
        acc
    } else {
        sort_asc_from(insert_asc(acc, rest[0]), rest.drop_first())
    }
}

/// The stable ascending sort of `s` by text key.
pub open spec fn sorted_asc<T: SpecTextKey>(s: Seq<T>) -> Seq<T> {
    sort_asc_from(Seq::empty(), s)
}

proof fn lemma_insert_asc_at<T: SpecTextKey>(s: Seq<T>, x: T, p: int)
    requires
        0 <= p <= s.len(),
        forall|j: int| 0 <= j < p ==> !text_lt(x.text_key(), #[trigger] s[j].text_key()),
        p < s.len() ==> text_lt(x.text_key(), s[p].text_key()),
    ensures
        insert_asc(s, x) == s.insert(p, x),
    decreases s.len(),
{
    if s.len() == 0 {
        assert(s.insert(p, x) =~= seq![x]);
    } else if p == 0 {
        assert(s.insert(p, x) =~= seq![x] + s);
    } else {
        assert(!text_lt(x.text_key(), s[0].text_key()));
        assert forall|j: int| 0 <= j < p - 1 implies !text_lt(x.text_key(), #[trigger] s.drop_first()[j].text_key()) by {
            assert(s.drop_first()[j] == s[j + 1]);
        }
        lemma_insert_asc_at(s.drop_first(), x, p - 1);
        assert(s.insert(p, x) =~= seq![s[0]] + s.drop_first().insert(p - 1, x));
    }
}

/// Sort by text key, ascending; elements with equal keys keep their order.
pub fn sort_by_text<T: TextKey>(v: Vec<T>) -> (r: Vec<T>)
    ensures
        r@ == sorted_asc(v@),
{
    let ghost orig = v@;
    let mut input = v;
    let mut out: Vec<T> = Vec::new();
    let mut keys: Vec<Vec<char>> = Vec::new();
    while input.len() > 0
        invariant
            sort_asc_from(out@, input@) == sorted_asc(orig),
            keys@.len() == out@.len(),
            forall|j: int| 0 <= j < out@.len() ==> #[trigger] keys@[j]@ == out@[j].text_key(),
        decreases input@.len(),
    {
        let ghost before = input@;
        let x = input.remove(0);
        assert(input@ =~= before.drop_first());
        let k = x.text_key_of();
        let mut p: usize = 0;
        while p < out.len() && !text_less(&k, &keys[p])
            invariant
                p <= out@.len(),
                keys@.len() == out@.len(),
                forall|j: int| 0 <= j < out@.len() ==> #[trigger] keys@[j]@ == out@[j].text_key(),
                k@ == x.text_key(),
                forall|j: int| 0 <= j < p ==> !text_lt(x.text_key(), #[trigger] out@[j].text_key()),
            decreases out@.len() - p,
        {
            p = p + 1;
        }
        proof {
            lemma_insert_asc_at(out@, x, p as int);
        }
        let ghost out_before = out@;
        let ghost keys_before = keys@;
        out.insert(p, x);
        keys.insert(p, k);
        assert forall|j: int| 0 <= j < out@.len() implies #[trigger] keys@[j]@ == out@[j].text_key() by {
            if j < p {
                assert(keys@[j] == keys_before[j] && out@[j] == out_before[j]);
            } else if j > p {
                assert(keys@[j] == keys_before[j - 1] && out@[j] == out_before[j - 1]);
            }
        }
    }
    out
}

proof fn lemma_insert_asc_map<T: SpecTextKey, U: SpecTextKey>(s: Seq<T>, x: T, f: spec_fn(T) -> U)
    requires
        forall|y: T| #[trigger] f(y).text_key() == y.text_key(),
    ensures
        insert_asc(s, x).map_values(f) == insert_asc(s.map_values(f), f(x)),
    decreases s.len(),
{
    assert(f(x).text_key() == x.text_key());
    if s.len() == 0 {
        assert(seq![x].map_values(f) =~= seq![f(x)]);
    } else {
        assert(s.map_values(f)[0] == f(s[0]));
        assert(f(s[0]).text_key() == s[0].text_key());
        if text_lt(x.text_key(), s[0].text_key()) {
            assert((seq![x] + s).map_values(f) =~= seq![f(x)] + s.map_values(f));
        } else {
            lemma_insert_asc_map(s.drop_first(), x, f);
            assert(s.drop_first().map_values(f) =~= s.map_values(f).drop_first());
            assert((seq![s[0]] + insert_asc(s.drop_first(), x)).map_values(f) =~= seq![f(s[0])]
                + insert_asc(s.drop_first(), x).map_values(f));
        }
    }
}

proof fn lemma_sort_asc_from_map<T: SpecTextKey, U: SpecTextKey>(acc: Seq<T>, rest: Seq<T>, f: spec_fn(T) -> U)
    requires
        forall|y: T| #[trigger] f(y).text_key() == y.text_key(),
    ensures
        sort_asc_from(acc, rest).map_values(f) == sort_asc_from(acc.map_values(f), rest.map_values(f)),
    decreases rest.len(),
{
    if rest.len() > 0 {
        lemma_insert_asc_map(acc, rest[0], f);
        lemma_sort_asc_from_map(insert_asc(acc, rest[0]), rest.drop_first(), f);
        assert(rest.drop_first().map_values(f) =~= rest.map_values(f).drop_first());
    }
}

/// Sorting by text key commutes with a map that keeps every key.
pub proof fn lemma_sort_asc_map<T: SpecTextKey, U: SpecTextKey>(s: Seq<T>, f: spec_fn(T) -> U)
    requires
        forall|y: T| #[trigger] f(y).text_key() == y.text_key(),
    ensures
        sorted_asc(s).map_values(f) == sorted_asc(s.map_values(f)),
{
    lemma_sort_asc_from_map(Seq::<T>::empty(), s, f);
    assert(Seq::<T>::empty().map_values(f) =~= Seq::<U>::empty());
}

proof fn lemma_insert_asc_len<T: SpecTextKey>(s: Seq<T>, x: T)
    ensures
        insert_asc(s, x).len() == s.len() + 1,
    decreases s.len(),
{
    if s.len() > 0 && !text_lt(x.text_key(), s[0].text_key()) {
        lemma_insert_asc_len(s.drop_first(), x);
    }
}

proof fn lemma_sort_asc_from_len<T: SpecTextKey>(acc: Seq<T>, rest: Seq<T>)
    ensures
        sort_asc_from(acc, rest).len() == acc.len() + rest.len(),
    decreases rest.len(),
{
    if rest.len() > 0 {
        lemma_insert_asc_len(acc, rest[0]);
        lemma_sort_asc_from_len(insert_asc(acc, rest[0]), rest.drop_first());
    }
}

/// Sorting by text key keeps the number of elements.
pub proof fn lemma_sorted_asc_len<T: SpecTextKey>(s: Seq<T>)
    ensures
        sorted_asc(s).len() == s.len(),
{
    lemma_sort_asc_from_len(Seq::<T>::empty(), s);
}

proof fn lemma_insert_asc_members<T: SpecTextKey>(s: Seq<T>, x: T)
    ensures
        forall|k: int| 0 <= k < insert_asc(s, x).len() ==> #[trigger] insert_asc(s, x)[k] == x || s.contains(insert_asc(s, x)[k]),
    decreases s.len(),
{
    lemma_insert_asc_len(s, x);
    if s.len() > 0 && !text_lt(x.text_key(), s[0].text_key()) {
        lemma_insert_asc_members(s.drop_first(), x);
        let r = insert_asc(s, x);
        assert forall|k: int| 0 <= k < r.len() implies #[trigger] r[k] == x || s.contains(r[k]) by {
            if k == 0 {
                assert(r[0] == s[0]);
            } else {
                let t = insert_asc(s.drop_first(), x);
                assert(r[k] == t[k - 1]);
                if t[k - 1] != x {
                    let j = choose|j: int| 0 <= j < s.drop_first().len() && s.drop_first()[j] == t[k - 1];
                    assert(s[j + 1] == t[k - 1]);
                }
            }
        }
    } else if s.len() > 0 {
        let r = insert_asc(s, x);
        assert forall|k: int| 0 <= k < r.len() implies #[trigger] r[k] == x || s.contains(r[k]) by {
            if k > 0 {
                assert(r[k] == s[k - 1]);
            }
        }
    }
}

proof fn lemma_sort_asc_from_members<T: SpecTextKey>(acc: Seq<T>, rest: Seq<T>)
    ensures
        forall|k: int|
            0 <= k < sort_asc_from(acc, rest).len() ==> acc.contains(#[trigger] sort_asc_from(acc, rest)[k]) || rest.contains(
                sort_asc_from(acc, rest)[k],
            ),
    decreases rest.len(),
{
    if rest.len() > 0 {
        let acc2 = insert_asc(acc, rest[0]);
        lemma_insert_asc_members(acc, rest[0]);
        lemma_sort_asc_from_members(acc2, rest.drop_first());
        let r = sort_asc_from(acc, rest);
        assert(r == sort_asc_from(acc2, rest.drop_first()));
        assert forall|k: int| 0 <= k < r.len() implies acc.contains(#[trigger] r[k]) || rest.contains(r[k]) by {
            assert(acc2.contains(sort_asc_from(acc2, rest.drop_first())[k]) || rest.drop_first().contains(
                sort_asc_from(acc2, rest.drop_first())[k],
            ));
            if acc2.contains(r[k]) {
                let j = choose|j: int| 0 <= j < acc2.len() && acc2[j] == r[k];
                if acc2[j] == rest[0] {
                    assert(rest.contains(r[k]));
                }
            } else {
                let j = choose|j: int| 0 <= j < rest.drop_first().len() && rest.drop_first()[j] == r[k];
                assert(rest[j + 1] == r[k]);
            }
        }
    }
}

/// Sorting by text key lists only elements of its input.
pub proof fn lemma_sorted_asc_members<T: SpecTextKey>(s: Seq<T>)
    ensures
        forall|k: int| 0 <= k < sorted_asc(s).len() ==> s.contains(#[trigger] sorted_asc(s)[k]),
{
    lemma_sort_asc_from_members(Seq::<T>::empty(), s);
}

proof fn lemma_insert_asc_keeps<T: SpecTextKey>(s: Seq<T>, x: T)
    ensures
        insert_asc(s, x).contains(x),
        forall|k: int| 0 <= k < s.len() ==> insert_asc(s, x).contains(#[trigger] s[k]),
    decreases s.len(),
{
    let r = insert_asc(s, x);
    if s.len() == 0 {
        assert(r[0] == x);
    } else if text_lt(x.text_key(), s[0].text_key()) {
        assert(r[0] == x);
        assert forall|k: int| 0 <= k < s.len() implies r.contains(#[trigger] s[k]) by {
            assert(r[k + 1] == s[k]);
        }
    } else {
        let t = insert_asc(s.drop_first(), x);
        lemma_insert_asc_keeps(s.drop_first(), x);
        assert(r == seq![s[0]] + t);
        let j = choose|j: int| 0 <= j < t.len() && t[j] == x;
        assert(r[j + 1] == x);
        assert forall|k: int| 0 <= k < s.len() implies r.contains(#[trigger] s[k]) by {
            if k == 0 {
                assert(r[0] == s[0]);
            } else {
                assert(s.drop_first()[k - 1] == s[k]);
                let i = choose|i: int| 0 <= i < t.len() && t[i] == s[k];
                assert(r[i + 1] == s[k]);
            }
        }
    }
}

proof fn lemma_sort_asc_from_keeps<T: SpecTextKey>(acc: Seq<T>, rest: Seq<T>)
    ensures
        forall|k: int| 0 <= k < acc.len() ==> sort_asc_from(acc, rest).contains(#[trigger] acc[k]),
        forall|k: int| 0 <= k < rest.len() ==> sort_asc_from(acc, rest).contains(#[trigger] rest[k]),
    decreases rest.len(),
{
    if rest.len() > 0 {
        let acc2 = insert_asc(acc, rest[0]);
        lemma_insert_asc_keeps(acc, rest[0]);
        lemma_sort_asc_from_keeps(acc2, rest.drop_first());
        let r = sort_asc_from(acc, rest);
        assert(r == sort_asc_from(acc2, rest.drop_first()));
        assert forall|k: int| 0 <= k < acc.len() implies r.contains(#[trigger] acc[k]) by {
            assert(acc2.contains(acc[k]));
            let j = choose|j: int| 0 <= j < acc2.len() && acc2[j] == acc[k];
            assert(r.contains(acc2[j]));
        }
        assert forall|k: int| 0 <= k < rest.len() implies r.contains(#[trigger] rest[k]) by {
            if k == 0 {
                let j = choose|j: int| 0 <= j < acc2.len() && acc2[j] == rest[0];
                assert(r.contains(acc2[j]));
            } else {
                assert(rest.drop_first()[k - 1] == rest[k]);
            }
        }
    }
}

/// Sorting by text key drops no element of its input.
pub proof fn lemma_sorted_asc_keeps<T: SpecTextKey>(s: Seq<T>)
    ensures
        forall|k: int| 0 <= k < s.len() ==> sorted_asc(s).contains(#[trigger] s[k]),
{
    lemma_sort_asc_from_keeps(Seq::<T>::empty(), s);
}

/// No element sorts strictly before one that precedes it.
pub open spec fn is_asc<T: SpecTextKey>(s: Seq<T>) -> bool {
    forall|i: int, j: int| 0 <= i < j < s.len() ==> !text_lt(#[trigger] s[j].text_key(), #[trigger] s[i].text_key())
}

proof fn lemma_text_lt_irreflexive(a: Seq<char>)
    ensures
        !text_lt(a, a),
    decreases a.len(),
{
    if a.len() > 0 {
        lemma_text_lt_irreflexive(a.drop_first());
    }
}

proof fn lemma_text_lt_trans(a: Seq<char>, b: Seq<char>, c: Seq<char>)
    requires
        text_lt(a, b),
        text_lt(b, c),
    ensures
        text_lt(a, c),
    decreases a.len(),
{
    if a.len() > 0 && a[0] == b[0] && b[0] == c[0] {
        lemma_text_lt_trans(a.drop_first(), b.drop_first(), c.drop_first());
    }
}

proof fn lemma_insert_asc_sorted<T: SpecTextKey>(s: Seq<T>, x: T)
    requires
        is_asc(s),
    ensures
        is_asc(insert_asc(s, x)),
    decreases s.len(),
{
    let r = insert_asc(s, x);
    if s.len() == 0 {
    } else if text_lt(x.text_key(), s[0].text_key()) {
        assert(r == seq![x] + s);
        assert forall|i: int, j: int| 0 <= i < j < r.len() implies !text_lt(#[trigger] r[j].text_key(), #[trigger] r[i].text_key()) by {
            if i == 0 {
                let k = j - 1;
                assert(r[j] == s[k]);
                if text_lt(s[k].text_key(), x.text_key()) {
                    lemma_text_lt_trans(s[k].text_key(), x.text_key(), s[0].text_key());
                    if k == 0 {
                        lemma_text_lt_irreflexive(s[0].text_key());
                    } else {
                        assert(!text_lt(s[k].text_key(), s[0].text_key()));
                    }
                }
            } else {
                assert(r[i] == s[i - 1] && r[j] == s[j - 1]);
            }
        }
    } else {
        let t = insert_asc(s.drop_first(), x);
        assert(is_asc(s.drop_first())) by {
            assert forall|i: int, j: int| 0 <= i < j < s.drop_first().len() implies !text_lt(
                #[trigger] s.drop_first()[j].text_key(),
                #[trigger] s.drop_first()[i].text_key(),
            ) by {
                assert(s.drop_first()[i] == s[i + 1] && s.drop_first()[j] == s[j + 1]);
            }
        }
        lemma_insert_asc_sorted(s.drop_first(), x);
        lemma_insert_asc_members(s.drop_first(), x);
        assert(r == seq![s[0]] + t);
        assert forall|i: int, j: int| 0 <= i < j < r.len() implies !text_lt(#[trigger] r[j].text_key(), #[trigger] r[i].text_key()) by {
            if i == 0 {
                assert(r[j] == t[j - 1]);
                if t[j - 1] != x {
                    assert(s.drop_first().contains(t[j - 1]));
                    let k = choose|k: int| 0 <= k < s.drop_first().len() && s.drop_first()[k] == t[j - 1];
                    assert(s[k + 1] == t[j - 1]);
                }
            } else {
                assert(r[i] == t[i - 1] && r[j] == t[j - 1]);
            }
        }
    }
}

proof fn lemma_sort_asc_from_sorted<T: SpecTextKey>(acc: Seq<T>, rest: Seq<T>)
    requires
        is_asc(acc),
    ensures
        is_asc(sort_asc_from(acc, rest)),
    decreases rest.len(),
{
    if rest.len() > 0 {
        lemma_insert_asc_sorted(acc, rest[0]);
        lemma_sort_asc_from_sorted(insert_asc(acc, rest[0]), rest.drop_first());
    }
}

/// Sorting by text key gives an ascending sequence.
pub proof fn lemma_sorted_asc_is_asc<T: SpecTextKey>(s: Seq<T>)
    ensures
        is_asc(sorted_asc(s)),
{
    lemma_sort_asc_from_sorted(Seq::<T>::empty(), s);
}

} // verus!
