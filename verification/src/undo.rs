//! The undo journal: every clean that trashes something records a session,
//! and `sweep undo` restores the newest session from the recycle bin.
//!
//! Reading and writing the journal file, listing the bin and restoring an
//! entry are the caller's; this module keeps the journal's shape and decides
//! what is restored and how the outcome reads.
use vstd::prelude::*;

use crate::clean::{count_of, picked};
use crate::domain::models::{UndoItem, UndoJournal, UndoSession};
use crate::text::{chars_of, chars_eq, decimal, decimal_spec, push_chars, push_str, replace_char, replace_chars, string_of, to_lowercase, unicode_lower};

verus! {

/// The journal keeps at most this many sessions, dropping the oldest.
pub const MAX_SESSIONS: usize = 20;

/// A signed number in decimal, with a leading `-` when negative.
pub open spec fn signed_decimal_spec(n: i64) -> Seq<char> {
    if n < 0 {
        seq!['-'] + decimal_spec((-(n as int)) as u64)
    } else {
        decimal_spec(n as u64)
    }
}

fn signed_decimal(n: i64) -> (r: Vec<char>)
    ensures
        r@ == signed_decimal_spec(n),
{
    if n < 0 {
        let mag: u64 = ((-(n + 1)) as u64) + 1;
        let mut out: Vec<char> = Vec::new();
        out.push('-');
        let d = decimal(mag);
        push_chars(&mut out, &d);
        assert(out@ =~= signed_decimal_spec(n));
        out
    } else {
        decimal(n as u64)
    }
}

/// A signed number in decimal, as a `String`.
pub fn signed_decimal_string(n: i64) -> (r: String)
    ensures
        r@ == signed_decimal_spec(n),
{
    string_of(&signed_decimal(n))
}

/// A session's identifier: the Unix time and the number of sessions before it.
pub open spec fn session_id_spec(now_unix: i64, count: nat) -> Seq<char> {
    signed_decimal_spec(now_unix) + seq!['-'] + decimal_spec(count as u64)
}

/// Append a session holding `items`, recorded at `now_unix`, keeping the most
/// recent [`MAX_SESSIONS`]. An empty `items` is ignored so a no-op clean does
/// not shadow the last session `sweep undo` could still restore.
pub fn append_session(journal: &mut UndoJournal, items: Vec<UndoItem>, now_unix: i64)
    ensures
        items@.len() == 0 ==> final(journal).sessions@ == old(journal).sessions@,
        items@.len() > 0 ==> {
            let s = old(journal).sessions@;
            let n = s.len() + 1;
            let dropped = if n > MAX_SESSIONS {
                n - MAX_SESSIONS
            } else {
                0
            };
            let f = final(journal).sessions@;
            &&& f.len() == n - dropped
            &&& forall|i: int| 0 <= i < f.len() - 1 ==> #[trigger] f[i] == s[i + dropped]
            &&& f.last().session_id@ == session_id_spec(now_unix, s.len())
            &&& f.last().timestamp == now_unix
            &&& f.last().items == items
        },
{
    if items.len() == 0 {
        return;
    }
    let count = journal.sessions.len();
    let mut id: Vec<char> = signed_decimal(now_unix);
    id.push('-');
    let d = decimal(count as u64);
    push_chars(&mut id, &d);
    assert(id@ =~= session_id_spec(now_unix, count as nat));
    let session = UndoSession { session_id: string_of(&id), timestamp: now_unix, items };
    let mut all: Vec<UndoSession> = Vec::new();
    std::mem::swap(&mut all, &mut journal.sessions);
    let ghost s = all@;
    all.push(session);
    let n = all.len();
    let dropped: usize = if n > MAX_SESSIONS {
        n - MAX_SESSIONS
    } else {
        0
    };
    let mut kept: Vec<UndoSession> = Vec::new();
    let mut rest = all;
    let mut i: usize = 0;
    let ghost full = rest@;
    while rest.len() > 0
        invariant
            full == s.push(session),
            full.len() == n,
            dropped <= n,
            i + rest@.len() == n,
            rest@ == full.skip(i as int),
            i <= dropped ==> kept@.len() == 0,
            i > dropped ==> kept@ == full.subrange(dropped as int, i as int),
        decreases rest@.len(),
    {
        let ghost before = rest@;
        let x = rest.remove(0);
        assert(rest@ =~= full.skip(i + 1));
        assert(x == full[i as int]);
        if i >= dropped {
            let ghost prev = kept@;
            kept.push(x);
            assert(kept@ =~= full.subrange(dropped as int, i + 1));
        }
        i = i + 1;
    }
    assert(kept@ =~= full.subrange(dropped as int, n as int));
    journal.sessions = kept;
}

/// The key an item is matched by between the journal and the recycle bin:
/// separators folded to `\` and case folded, since a root can reach the
/// journal with forward slashes while the bin reports the canonical form.
pub open spec fn match_key_spec(path: Seq<char>) -> Seq<char> {
    unicode_lower(replace_char(path, '/', '\\'))
}

pub fn match_key(path: &str) -> (r: String)
    ensures
        r@ == match_key_spec(path@),
{
    let folded = replace_chars(&chars_of(path), '/', '\\');
    to_lowercase(string_of(&folded).as_str())
}

/// Position of the first bin entry whose key is `key`, or -1.
pub open spec fn find_key(keys: Seq<Seq<char>>, key: Seq<char>) -> int
    decreases keys.len(),
{
    if keys.len() == 0 {
        -1
    } else if keys[0] == key {
        0
    } else {
        let r = find_key(keys.drop_first(), key);
        if r < 0 {
            -1
        } else {
            r + 1
        }
    }
}

/// The bin entries' keys.
pub open spec fn bin_keys(bin_paths: Seq<String>) -> Seq<Seq<char>> {
    bin_paths.map_values(|p: String| match_key_spec(p@))
}

/// The items of a session found in the bin listing.
pub open spec fn in_bin(keys: Seq<Seq<char>>) -> spec_fn(UndoItem) -> bool {
    |it: UndoItem| find_key(keys, match_key_spec(it.trash_path@)) >= 0
}

pub open spec fn originals(items: Seq<UndoItem>) -> Seq<Seq<char>> {
    items.map_values(|it: UndoItem| it.original_path@)
}

/// The bin entry an item is restored from, with the item's original path.
pub open spec fn pair_of(keys: Seq<Seq<char>>) -> spec_fn(UndoItem) -> (Seq<char>, int) {
    |it: UndoItem| (it.original_path@, find_key(keys, match_key_spec(it.trash_path@)))
}

pub open spec fn pair_views(pairs: Seq<(String, usize)>) -> Seq<(Seq<char>, int)> {
    pairs.map_values(|pr: (String, usize)| (pr.0@, pr.1 as int))
}

/// `oks` holds what `restore` answered for each found item's bin entry.
pub open spec fn restore_answers<F: Fn(usize) -> bool>(restore: F, keys: Seq<Seq<char>>, found: Seq<UndoItem>, oks: Seq<bool>) -> bool {
    &&& oks.len() == found.len()
    &&& forall|q: int|
        0 <= q < found.len() ==> #[trigger] call_ensures(
            restore,
            ((find_key(keys, match_key_spec(found[q].trash_path@)) as usize),),
            oks[q],
        )
}

/// Outcome of restoring the newest session.
pub enum UndoResult {
    /// No session was journaled; nothing to undo.
    NoSession,
    /// `restored` items were moved back; `unrecoverable` could not be.
    Restored { session_id: String, restored: u64, unrecoverable: Vec<String> },
    /// The recycle bin's index could not be read.
    Error(String),
}

fn find_in(keys: &Vec<String>, key: &str) -> (r: Option<usize>)
    ensures
        match r {
            Some(k) => k < keys@.len() && find_key(keys.deep_view(), key@) == k,
            None => find_key(keys.deep_view(), key@) < 0,
        },
{
    let ghost all = keys.deep_view();
    let mut k: usize = 0;
    assert(all.skip(0) =~= all);
    while k < keys.len()
        invariant
            k <= keys@.len(),
            all == keys.deep_view(),
            forall|j: int| 0 <= j < k ==> all[j] != key@,
            find_key(all, key@) == (if find_key(all.skip(k as int), key@) < 0 {
                -1
            } else {
                find_key(all.skip(k as int), key@) + k
            }),
        decreases keys@.len() - k,
    {
        assert(all.skip(k as int)[0] == keys@[k as int]@);
        assert(all.skip(k as int).drop_first() =~= all.skip(k + 1));
        if chars_eq(&chars_of(keys[k].as_str()), &chars_of(key)) {
            return Some(k);
        }
        k = k + 1;
    }
    None
}

/// Restore the newest journaled session's items from the recycle bin.
///
/// `bin_paths` is the bin's listing (the original paths of its entries), or
/// the error reading it; `restore(k)` restores entry `k` and says whether that
/// worked. Each item is matched to the first entry with the same key; items
/// with no entry (the bin was purged) and entries that fail to restore are
/// reported as unrecoverable rather than failing the whole operation.
pub fn restore_latest<F: Fn(usize) -> bool>(journal: &UndoJournal, bin_paths: Result<Vec<String>, String>, restore: F) -> (r:
    UndoResult)
    requires
        forall|k: usize| #[trigger] restore.requires((k,)),
    ensures
        journal.sessions@.len() == 0 ==> r is NoSession,
        journal.sessions@.len() > 0 && bin_paths is Err ==> (r matches UndoResult::Error(e) && e@
            == "could not read Recycle Bin index"@),
        journal.sessions@.len() > 0 && bin_paths is Ok ==> (r matches UndoResult::Restored {
            session_id,
            restored,
            unrecoverable,
        } && {
            let last = journal.sessions@.last();
            let keys = bin_keys(bin_paths->Ok_0@);
            let found = last.items@.filter(in_bin(keys));
            let missing = originals(last.items@.filter(|it: UndoItem| !in_bin(keys)(it)));
            &&& session_id@ == last.session_id@
            &&& unrecoverable.deep_view().take(missing.len() as int) == missing
            &&& restored + unrecoverable@.len() == last.items@.len()
            &&& unrecoverable@.len() - missing.len() <= found.len()
            &&& exists|oks: Seq<bool>|
                #[trigger] restore_answers(restore, keys, found, oks) && unrecoverable.deep_view().skip(missing.len() as int)
                    == picked(originals(found), oks, false) && restored == count_of(oks, true)
        }),
{
    if journal.sessions.len() == 0 {
        return UndoResult::NoSession;
    }
    let paths = match bin_paths {
        Ok(p) => p,
        Err(_) => return UndoResult::Error(crate::text::owned("could not read Recycle Bin index")),
    };
    let latest = &journal.sessions[journal.sessions.len() - 1];
    let mut keys: Vec<String> = Vec::new();
    let mut j: usize = 0;
    while j < paths.len()
        invariant
            j <= paths@.len(),
            keys.deep_view() == bin_keys(paths@).take(j as int),
        decreases paths@.len() - j,
    {
        let ghost prev = keys.deep_view();
        keys.push(match_key(paths[j].as_str()));
        assert(keys.deep_view() =~= prev.push(bin_keys(paths@)[j as int]));
        assert(keys.deep_view() =~= bin_keys(paths@).take(j + 1));
        j = j + 1;
    }
    assert(bin_keys(paths@).take(paths@.len() as int) =~= bin_keys(paths@));
    let ghost ks = bin_keys(paths@);
    let ghost items = latest.items@;
    let ghost found_p = in_bin(ks);
    let ghost missing_p = |it: UndoItem| !in_bin(ks)(it);
    let mut pairs: Vec<(String, usize)> = Vec::new();
    let mut unrecoverable: Vec<String> = Vec::new();
    let mut i: usize = 0;
    while i < latest.items.len()
        invariant
            i <= items.len(),
            items == latest.items@,
            keys.deep_view() == ks,
            found_p == in_bin(ks),
            missing_p == (|it: UndoItem| !in_bin(ks)(it)),
            unrecoverable.deep_view() == originals(items.take(i as int).filter(missing_p)),
            pairs@.len() == items.take(i as int).filter(found_p).len(),
            pair_views(pairs@) == items.take(i as int).filter(found_p).map_values(pair_of(ks)),
            pairs@.len() + unrecoverable@.len() == i,
        decreases items.len() - i,
    {
        let it = &latest.items[i];
        assert(items.take(i + 1).drop_last() =~= items.take(i as int));
        assert(items.take(i + 1).last() == items[i as int]);
        reveal_with_fuel(Seq::filter, 1);
        let key = match_key(it.trash_path.as_str());
        match find_in(&keys, key.as_str()) {
            Some(k) => {
                assert(found_p(items[i as int]));
                let ghost prev_pairs = pair_views(pairs@);
                pairs.push((it.original_path.clone(), k));
                assert(items.take(i + 1).filter(found_p) == items.take(i as int).filter(found_p).push(items[i as int]));
                assert(pair_views(pairs@) =~= prev_pairs.push((it.original_path@, k as int)));
                assert(pair_of(ks)(items[i as int]) == (it.original_path@, k as int));
                assert(items.take(i as int).filter(found_p).push(items[i as int]).map_values(pair_of(ks)) =~= items.take(i as int).filter(
                    found_p,
                ).map_values(pair_of(ks)).push(pair_of(ks)(items[i as int])));
                assert(items.take(i + 1).filter(missing_p) == items.take(i as int).filter(missing_p));
            },
            None => {
                assert(!found_p(items[i as int]));
                let ghost prev = unrecoverable.deep_view();
                unrecoverable.push(it.original_path.clone());
                assert(items.take(i + 1).filter(missing_p) == items.take(i as int).filter(missing_p).push(items[i as int]));
                assert(items.take(i + 1).filter(found_p) == items.take(i as int).filter(found_p));
                assert(unrecoverable.deep_view() =~= prev.push(it.original_path@));
                assert(originals(items.take(i as int).filter(missing_p).push(items[i as int])) =~= originals(
                    items.take(i as int).filter(missing_p),
                ).push(it.original_path@));
                assert(unrecoverable.deep_view() =~= originals(items.take(i + 1).filter(missing_p)));
            },
        }
        i = i + 1;
    }
    assert(items.take(items.len() as int) =~= items);
    let ghost missing = unrecoverable.deep_view();
    let ghost found = items.filter(found_p);
    assert(items.take(items.len() as int).filter(found_p) == found);
    assert(found.len() == pairs@.len());
    let ghost fo = originals(found);
    let ghost mut oks: Seq<bool> = Seq::empty();
    let mut restored: u64 = 0;
    let mut p: usize = 0;
    assert(unrecoverable.deep_view().skip(missing.len() as int) =~= Seq::<Seq<char>>::empty());
    while p < pairs.len()
        invariant
            p <= pairs@.len(),
            pair_views(pairs@) == found.map_values(pair_of(ks)),
            found.len() == pairs@.len(),
            fo == originals(found),
            oks.len() == p,
            forall|q: int|
                0 <= q < p ==> #[trigger] call_ensures(restore, ((find_key(ks, match_key_spec(found[q].trash_path@)) as usize),), oks[q]),
            unrecoverable.deep_view().skip(missing.len() as int) == picked(fo.take(p as int), oks, false),
            restored == count_of(oks, true),
            forall|k: usize| #[trigger] restore.requires((k,)),
            restored as int + (unrecoverable@.len() - missing.len()) == p,
            pairs@.len() + missing.len() == items.len(),
            missing.len() <= unrecoverable@.len(),
            unrecoverable.deep_view().take(missing.len() as int) == missing,
            pairs@.len() <= items.len(),
        decreases pairs@.len() - p,
    {
        let ok = restore(pairs[p].1);
        proof {
            assert(pair_views(pairs@)[p as int] == (pairs@[p as int].0@, pairs@[p as int].1 as int));
            assert(found.map_values(pair_of(ks))[p as int] == pair_of(ks)(found[p as int]));
            assert(pair_views(pairs@)[p as int] == pair_of(ks)(found[p as int]));
            assert(fo[p as int] == found[p as int].original_path@);
            assert(pairs@[p as int].1 as int == find_key(ks, match_key_spec(found[p as int].trash_path@)));
            assert(call_ensures(restore, (pairs@[p as int].1,), ok));
            assert(pairs@[p as int].0@ == fo[p as int]);
        }
        let ghost prev_u = unrecoverable.deep_view();
        if ok {
            restored = restored + 1;
        } else {
            unrecoverable.push(pairs[p].0.clone());
            assert(unrecoverable.deep_view().take(missing.len() as int) =~= prev_u.take(missing.len() as int));
            assert(unrecoverable.deep_view().skip(missing.len() as int) =~= prev_u.skip(missing.len() as int).push(fo[p as int]));
        }
        proof {
            let no = oks.push(ok);
            let t = fo.take(p + 1);
            assert(no.drop_last() =~= oks);
            assert(t.drop_last() =~= fo.take(p as int));
            assert(t.last() == fo[p as int]);
            assert forall|q: int| 0 <= q < p + 1 implies #[trigger] call_ensures(
                restore,
                ((find_key(ks, match_key_spec(found[q].trash_path@)) as usize),),
                no[q],
            ) by {
                if q < p {
                    assert(no[q] == oks[q]);
                }
            }
            oks = no;
        }
        p = p + 1;
    }
    proof {
        assert(fo.take(p as int) =~= fo);
        assert(restore_answers(restore, ks, found, oks));
    }
    UndoResult::Restored {
        session_id: latest.session_id.clone(),
        restored,
        unrecoverable,
    }
}

/// User-facing result of an undo operation.
pub enum UndoOutcome {
    /// No session was journaled; nothing to undo.
    NoSession,
    /// `restored` items were moved back; `unrecoverable` could not be.
    Restored { session_id: String, restored: u64, unrecoverable: Vec<String> },
    /// The recycle bin's index could not be read.
    Error(String),
}

/// Service that performs `sweep undo`.
pub struct UndoService;

impl UndoService {
    /// Create an undo service. It holds no state; the journal is read per call.
    pub fn new() -> (r: UndoService) {
        UndoService
    }

    /// Restore the newest journaled session (see [`restore_latest`]) and
    /// report it in the same terms.
    pub fn undo<F: Fn(usize) -> bool>(&self, journal: &UndoJournal, bin_paths: Result<Vec<String>, String>, restore: F) -> (r:
        UndoOutcome)
        requires
            forall|k: usize| #[trigger] restore.requires((k,)),
        ensures
            journal.sessions@.len() == 0 ==> r is NoSession,
            journal.sessions@.len() > 0 && bin_paths is Err ==> (r matches UndoOutcome::Error(e) && e@
                == "could not read Recycle Bin index"@),
            journal.sessions@.len() > 0 && bin_paths is Ok ==> (r matches UndoOutcome::Restored {
                session_id,
                restored,
                unrecoverable,
            } && {
                let last = journal.sessions@.last();
                let keys = bin_keys(bin_paths->Ok_0@);
                let found = last.items@.filter(in_bin(keys));
                let missing = originals(last.items@.filter(|it: UndoItem| !in_bin(keys)(it)));
                &&& session_id@ == last.session_id@
                &&& unrecoverable.deep_view().take(missing.len() as int) == missing
                &&& restored + unrecoverable@.len() == last.items@.len()
                &&& unrecoverable@.len() - missing.len() <= found.len()
                &&& exists|oks: Seq<bool>|
                    #[trigger] restore_answers(restore, keys, found, oks) && unrecoverable.deep_view().skip(missing.len() as int)
                        == picked(originals(found), oks, false) && restored == count_of(oks, true)
            }),
    {
        match restore_latest(journal, bin_paths, restore) {
            UndoResult::NoSession => UndoOutcome::NoSession,
            UndoResult::Error(e) => UndoOutcome::Error(e),
            UndoResult::Restored { session_id, restored, unrecoverable } => UndoOutcome::Restored {
                session_id,
                restored,
                unrecoverable,
            },
        }
    }
}

} // verus!
