//! Installed applications: listing them, attaching last-run evidence by a
//! name-word heuristic, and filtering for the unused or the searched-for.
use vstd::prelude::*;

use crate::domain::models::{AppUsageModel, InstalledApp, InstalledAppModel};
use crate::domain::traits::AppInventory;
use crate::text::{chars_of, contains, has_infix, is_alphanumeric, string_of, to_lowercase, unicode_alnum, unicode_lower};
use crate::usage::{usage_models, UsageMap};

verus! {

/// The pieces of `s` between characters that are not alphanumeric.
pub open spec fn alnum_pieces(s: Seq<char>) -> Seq<Seq<char>>
    decreases s.len(),
{
    if s.len() == 0 {
        seq![Seq::<char>::empty()]
    } else if !unicode_alnum(s.last()) {
        alnum_pieces(s.drop_last()).push(Seq::<char>::empty())
    } else {
        let pre = alnum_pieces(s.drop_last());
        pre.update(pre.len() - 1, pre.last().push(s.last()))
    }
}

proof fn lemma_alnum_pieces_nonempty(s: Seq<char>)
    ensures
        alnum_pieces(s).len() >= 1,
    decreases s.len(),
{
    if s.len() > 0 {
        lemma_alnum_pieces_nonempty(s.drop_last());
    }
}

/// Bytes a character takes in UTF-8.
pub open spec fn utf8_width(c: char) -> nat {
    if (c as u32) < 0x80 {
        1
    } else if (c as u32) < 0x800 {
        2
    } else if (c as u32) < 0x10000 {
        3
    } else {
        4
    }
}

/// Length of `s` in UTF-8 bytes (what `str::len` reports).
pub open spec fn utf8_len(s: Seq<char>) -> nat
    decreases s.len(),
{
    if s.len() == 0 {
        0
    } else {
        utf8_len(s.drop_last()) + utf8_width(s.last())
    }
}

/// The words of an application name used to find its executable: runs of
/// alphanumeric characters at least three bytes long, lower-cased.
pub open spec fn name_words_spec(name: Seq<char>) -> Seq<Seq<char>> {
    alnum_pieces(name).filter(|w: Seq<char>| utf8_len(w) >= 3).map_values(|w: Seq<char>| unicode_lower(w))
}

pub open spec fn opt_max(a: Option<i64>, b: Option<i64>) -> Option<i64> {
    match a {
        Some(x) => match b {
            Some(y) => Some(if x >= y { x } else { y }),
            None => a,
        },
        None => b,
    }
}

/// The latest run among the records whose executable name contains `word`.
pub open spec fn latest_for_word(rs: Seq<AppUsageModel>, word: Seq<char>) -> Option<i64>
    decreases rs.len(),
{
    if rs.len() == 0 {
        None
    } else {
        opt_max(
            latest_for_word(rs.drop_last(), word),
            if has_infix(rs.last().exe_name, word) {
                Some(rs.last().last_run_unix)
            } else {
                None
            },
        )
    }
}

/// The latest run found for any of the words.
pub open spec fn latest_for_words(words: Seq<Seq<char>>, rs: Seq<AppUsageModel>) -> Option<i64>
    decreases words.len(),
{
    if words.len() == 0 {
        None
    } else {
        opt_max(latest_for_words(words.drop_last(), rs), latest_for_word(rs, words.last()))
    }
}

/// The last run guessed for an application name from the usage records.
pub open spec fn guess_last_run_spec(name: Seq<char>, rs: Seq<AppUsageModel>) -> Option<i64> {
    latest_for_words(name_words_spec(name), rs)
}

fn utf8_width_of(c: char) -> (r: usize)
    ensures
        r == utf8_width(c),
{
    let n = c as u32;
    if n < 0x80 {
        1
    } else if n < 0x800 {
        2
    } else if n < 0x10000 {
        3
    } else {
        4
    }
}

fn name_words(name: &str) -> (r: Vec<Vec<char>>)
    ensures
        crate::text::views(r@) == name_words_spec(name@),
{
    let v = chars_of(name);
    let ghost keep = |w: Seq<char>| utf8_len(w) >= 3;
    let ghost low = |w: Seq<char>| unicode_lower(w);
    let mut out: Vec<Vec<char>> = Vec::new();
    let mut cur: Vec<char> = Vec::new();
    let mut cur_len: usize = 0;
    let mut i: usize = 0;
    proof {
        lemma_alnum_pieces_nonempty(v@.take(0));
        assert(v@.take(0) =~= Seq::<char>::empty());
    }
    while i < v.len()
        invariant
            i <= v@.len(),
            v@ == name@,
            keep == (|w: Seq<char>| utf8_len(w) >= 3),
            low == (|w: Seq<char>| unicode_lower(w)),
            alnum_pieces(v@.take(i as int)).len() >= 1,
            cur@ == alnum_pieces(v@.take(i as int)).last(),
            cur_len == (if utf8_len(cur@) >= 3 {
                3
            } else {
                utf8_len(cur@)
            }),
            crate::text::views(out@) == alnum_pieces(v@.take(i as int)).drop_last().filter(keep).map_values(low),
        decreases v@.len() - i,
    {
        let c = v[i];
        let ghost pre = alnum_pieces(v@.take(i as int));
        assert(v@.take(i + 1).drop_last() =~= v@.take(i as int));
        assert(v@.take(i + 1).last() == c);
        if is_alphanumeric(c) {
            let ghost old_cur = cur@;
            cur.push(c);
            let w = utf8_width_of(c);
            cur_len = if cur_len + w >= 3 {
                3
            } else {
                cur_len + w
            };
            assert(cur@.drop_last() =~= old_cur);
            assert(alnum_pieces(v@.take(i + 1)) == pre.update(pre.len() - 1, old_cur.push(c)));
            assert(alnum_pieces(v@.take(i + 1)).drop_last() =~= pre.drop_last());
        } else {
            reveal_with_fuel(Seq::filter, 1);
            let ghost prev_out = crate::text::views(out@);
            assert(alnum_pieces(v@.take(i + 1)) == pre.push(Seq::<char>::empty()));
            assert(alnum_pieces(v@.take(i + 1)).drop_last() =~= pre);
            assert(pre.drop_last().push(pre.last()) =~= pre);
            if cur_len >= 3 {
                let w = chars_of(to_lowercase(string_of(&cur).as_str()).as_str());
                out.push(w);
                assert(crate::text::views(out@) =~= prev_out.push(unicode_lower(cur@)));
                assert(pre.filter(keep) == pre.drop_last().filter(keep).push(cur@));
                assert(pre.filter(keep).map_values(low) =~= pre.drop_last().filter(keep).map_values(low).push(
                    low(cur@),
                ));
            } else {
                assert(pre.filter(keep) == pre.drop_last().filter(keep));
            }
            cur = Vec::new();
            cur_len = 0;
            assert(cur@ =~= Seq::<char>::empty());
        }
        i = i + 1;
    }
    assert(v@.take(v@.len() as int) =~= v@);
    let ghost pre = alnum_pieces(v@);
    reveal_with_fuel(Seq::filter, 1);
    assert(pre.drop_last().push(pre.last()) =~= pre);
    let ghost prev_out = crate::text::views(out@);
    if cur_len >= 3 {
        let w = chars_of(to_lowercase(string_of(&cur).as_str()).as_str());
        out.push(w);
        assert(crate::text::views(out@) =~= prev_out.push(unicode_lower(cur@)));
        assert(pre.filter(keep) == pre.drop_last().filter(keep).push(cur@));
        assert(pre.filter(keep).map_values(low) =~= pre.drop_last().filter(keep).map_values(low).push(
            low(cur@),
        ));
    } else {
        assert(pre.filter(keep) == pre.drop_last().filter(keep));
    }
    out
}

fn latest_for(records: &Vec<crate::domain::models::AppUsage>, word: &Vec<char>) -> (r: Option<i64>)
    ensures
        r == latest_for_word(usage_models(records@), word@),
{
    let ghost rs = usage_models(records@);
    let mut best: Option<i64> = None;
    let mut i: usize = 0;
    while i < records.len()
        invariant
            i <= records@.len(),
            rs == usage_models(records@),
            best == latest_for_word(rs.take(i as int), word@),
        decreases records@.len() - i,
    {
        assert(rs.take(i + 1).drop_last() =~= rs.take(i as int));
        assert(rs.take(i + 1).last() == records@[i as int].deep_view());
        let u = &records[i];
        if contains(&chars_of(u.exe_name.as_str()), word) {
            best = match best {
                Some(b) => Some(if b >= u.last_run_unix { b } else { u.last_run_unix }),
                None => Some(u.last_run_unix),
            };
        }
        i = i + 1;
    }
    assert(rs.take(records@.len() as int) =~= rs);
    best
}

fn guess_last_run(app: &InstalledApp, usage: &UsageMap) -> (r: Option<i64>)
    ensures
        r == guess_last_run_spec(app.name@, usage.records()),
{
    let words = name_words(app.name.as_str());
    let records = usage.values();
    let ghost ws = crate::text::views(words@);
    let mut best: Option<i64> = None;
    let mut i: usize = 0;
    while i < words.len()
        invariant
            i <= words@.len(),
            ws == crate::text::views(words@),
            ws == name_words_spec(app.name@),
            usage_models(records@) == usage.records(),
            best == latest_for_words(ws.take(i as int), usage.records()),
        decreases words@.len() - i,
    {
        assert(ws.take(i + 1).drop_last() =~= ws.take(i as int));
        assert(ws.take(i + 1).last() == words@[i as int]@);
        let w = latest_for(records, &words[i]);
        best = match best {
            Some(b) => match w {
                Some(x) => Some(if b >= x { b } else { x }),
                None => Some(b),
            },
            None => w,
        };
        i = i + 1;
    }
    assert(ws.take(words@.len() as int) =~= ws);
    best
}

pub open spec fn with_last_run(a: InstalledAppModel, t: Option<i64>) -> InstalledAppModel {
    match t {
        Some(x) => InstalledAppModel { last_run_unix: Some(x), ..a },
        None => a,
    }
}

/// Applications that have not run since the cutoff (or never reported a run).
pub open spec fn unused_since(cutoff: int) -> spec_fn(InstalledAppModel) -> bool {
    |a: InstalledAppModel|
        match a.last_run_unix {
            Some(t) => t <= cutoff,
            None => true,
        }
}

pub open spec fn app_models(v: Seq<InstalledApp>) -> Seq<InstalledAppModel> {
    v.map_values(|a: InstalledApp| a.deep_view())
}

/// Applications whose lower-cased name contains the lower-cased query.
pub open spec fn name_matches(q: Seq<char>) -> spec_fn(InstalledAppModel) -> bool {
    |a: InstalledAppModel| unicode_lower(a.name) == q || has_infix(unicode_lower(a.name), q)
}

pub struct AppService<I: AppInventory> {
    pub inventory: I,
}

impl<I: AppInventory> AppService<I> {
    pub fn new(inventory: I) -> (r: Self)
        ensures
            r.inventory == inventory,
    {
        AppService { inventory }
    }

    /// The installed applications, as the inventory reports them.
    pub fn list(&self) -> (r: Result<Vec<InstalledApp>, String>)
        ensures
            call_ensures(I::installed_apps, (&self.inventory,), r),
    {
        self.inventory.installed_apps()
    }

    /// Give each application the latest run time found for any of its name
    /// words (an executable name containing the word); applications with no
    /// match keep what they had.
    pub fn attach_usage(&self, apps: &mut Vec<InstalledApp>, usage: &UsageMap)
        ensures
            final(apps)@.len() == old(apps)@.len(),
            forall|i: int|
                0 <= i < old(apps)@.len() ==> #[trigger] final(apps)@[i].deep_view() == with_last_run(
                    old(apps)@[i].deep_view(),
                    guess_last_run_spec(old(apps)@[i].name@, usage.records()),
                ),
    {
        let mut i: usize = 0;
        while i < apps.len()
            invariant
                i <= apps@.len(),
                apps@.len() == old(apps)@.len(),
                forall|k: int|
                    0 <= k < i ==> #[trigger] apps@[k].deep_view() == with_last_run(
                        old(apps)@[k].deep_view(),
                        guess_last_run_spec(old(apps)@[k].name@, usage.records()),
                    ),
                forall|k: int| i <= k < apps@.len() ==> #[trigger] apps@[k] == old(apps)@[k],
            decreases apps@.len() - i,
        {
            match guess_last_run(&apps[i], usage) {
                Some(t) => {
                    let mut a = apps[i].duplicate();
                    a.last_run_unix = Some(t);
                    apps.set(i, a);
                },
                None => {},
            }
            i = i + 1;
        }
    }

    /// The applications not run in the last `days` days before `now_unix`
    /// (or with no known last run), in order.
    pub fn filter_unused_since(&self, apps: Vec<InstalledApp>, days: u64, now_unix: i64) -> (r: Vec<InstalledApp>)
        requires
            (days as int) * 86400 <= i64::MAX,
            i64::MIN <= now_unix - (days as int) * 86400,
        ensures
            app_models(r@) == app_models(apps@).filter(unused_since(now_unix - (days as int) * 86400)),
    {
        let cutoff: i64 = now_unix - (days as i64) * 86400;
        let ghost all = app_models(apps@);
        let ghost keep = unused_since(cutoff as int);
        let n = apps.len();
        let mut rest = apps;
        let mut out: Vec<InstalledApp> = Vec::new();
        let mut i: usize = 0;
        while i < n
            invariant
                n == all.len(),
                i <= n,
                rest@.len() == n - i,
                app_models(rest@) == all.skip(i as int),
                keep == unused_since(cutoff as int),
                app_models(out@) == all.take(i as int).filter(keep),
            decreases n - i,
        {
            let ghost before = rest@;
            let a = rest.remove(0);
            assert(app_models(rest@) =~= app_models(before).drop_first());
            assert(app_models(before)[0] == a.deep_view());
            assert(all[i as int] == a.deep_view());
            assert(all.take(i + 1).drop_last() =~= all.take(i as int));
            assert(all.take(i + 1).last() == all[i as int]);
            reveal_with_fuel(Seq::filter, 1);
            let kept = match a.last_run_unix {
                Some(t) => t <= cutoff,
                None => true,
            };
            if kept {
                let ghost prev = app_models(out@);
                out.push(a);
                assert(app_models(out@) =~= prev.push(all[i as int]));
            }
            i = i + 1;
            assert(app_models(rest@) =~= all.skip(i as int));
        }
        assert(all.take(n as int) =~= all);
        out
    }

    /// The applications whose name contains the query, ignoring case.
    pub fn find<'a>(&self, apps: &'a Vec<InstalledApp>, query: &str) -> (r: Vec<&'a InstalledApp>)
        ensures
            r@.map_values(|a: &InstalledApp| a.deep_view()) == app_models(apps@).filter(
                name_matches(unicode_lower(query@)),
            ),
    {
        let q = chars_of(to_lowercase(query).as_str());
        let ghost all = app_models(apps@);
        let ghost keep = name_matches(unicode_lower(query@));
        let mut out: Vec<&'a InstalledApp> = Vec::new();
        let mut i: usize = 0;
        while i < apps.len()
            invariant
                i <= apps@.len(),
                all == app_models(apps@),
                q@ == unicode_lower(query@),
                keep == name_matches(unicode_lower(query@)),
                out@.map_values(|a: &InstalledApp| a.deep_view()) == all.take(i as int).filter(keep),
            decreases apps@.len() - i,
        {
            let a = &apps[i];
            assert(all.take(i + 1).drop_last() =~= all.take(i as int));
            assert(all.take(i + 1).last() == a.deep_view());
            reveal_with_fuel(Seq::filter, 1);
            let name = chars_of(to_lowercase(a.name.as_str()).as_str());
            let hit = crate::text::chars_eq(&name, &q) || contains(&name, &q);
            if hit {
                let ghost prev = out@.map_values(|a: &InstalledApp| a.deep_view());
                out.push(a);
                assert(out@.map_values(|a: &InstalledApp| a.deep_view()) =~= prev.push(a.deep_view()));
            }
            i = i + 1;
        }
        assert(all.take(apps@.len() as int) =~= all);
        out
    }
}

} // verus!
