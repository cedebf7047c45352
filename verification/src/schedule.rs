//! Scheduling the daily index run: the `schtasks` argument lists on Windows,
//! and the crontab line and crontab edits elsewhere. Running the tools is the
//! caller's part.
use vstd::prelude::*;

use crate::text::{chars_of, contains, has_infix, lines, lines_of, owned, push_chars, push_str, string_of, views};

verus! {

pub const TASK_NAME: &'static str = "SweepIndex";

pub const CRON_MARKER: &'static str = "#sweep-index";

pub open spec fn task_name() -> Seq<char> {
    "SweepIndex"@
}

pub open spec fn cron_marker() -> Seq<char> {
    "#sweep-index"@
}

/// The `/TR` value: the quoted executable followed by `index`.
pub open spec fn task_command(exe: Seq<char>) -> Seq<char> {
    "\""@ + exe + "\" index"@
}

pub open spec fn create_args_spec(exe: Seq<char>) -> Seq<Seq<char>> {
    seq![
        "/Create"@,
        "/F"@,
        "/TN"@,
        task_name(),
        "/SC"@,
        "DAILY"@,
        "/ST"@,
        "03:00"@,
        "/TR"@,
        task_command(exe),
    ]
}

/// `schtasks` arguments creating the daily 03:00 task that runs `exe index`.
pub fn create_args(exe: &str) -> (r: Vec<String>)
    ensures
        r.deep_view() == create_args_spec(exe@),
{
    let mut tr: Vec<char> = Vec::new();
    push_str(&mut tr, "\"");
    push_str(&mut tr, exe);
    push_str(&mut tr, "\" index");
    assert(tr@ =~= task_command(exe@));
    let mut r: Vec<String> = Vec::new();
    r.push(owned("/Create"));
    r.push(owned("/F"));
    r.push(owned("/TN"));
    r.push(owned(TASK_NAME));
    r.push(owned("/SC"));
    r.push(owned("DAILY"));
    r.push(owned("/ST"));
    r.push(owned("03:00"));
    r.push(owned("/TR"));
    r.push(string_of(&tr));
    assert(r.deep_view() =~= create_args_spec(exe@));
    r
}

/// `schtasks` arguments deleting the task.
pub fn delete_args() -> (r: Vec<String>)
    ensures
        r.deep_view() == seq!["/Delete"@, "/F"@, "/TN"@, task_name()],
{
    let mut r: Vec<String> = Vec::new();
    r.push(owned("/Delete"));
    r.push(owned("/F"));
    r.push(owned("/TN"));
    r.push(owned(TASK_NAME));
    assert(r.deep_view() =~= seq!["/Delete"@, "/F"@, "/TN"@, task_name()]);
    r
}

/// `schtasks` arguments querying the task.
pub fn query_args() -> (r: Vec<String>)
    ensures
        r.deep_view() == seq!["/Query"@, "/TN"@, task_name()],
{
    let mut r: Vec<String> = Vec::new();
    r.push(owned("/Query"));
    r.push(owned("/TN"));
    r.push(owned(TASK_NAME));
    assert(r.deep_view() =~= seq!["/Query"@, "/TN"@, task_name()]);
    r
}

pub open spec fn cron_line_spec(exe: Seq<char>) -> Seq<char> {
    "@daily "@ + exe + " index "@ + cron_marker()
}

/// The crontab line running `exe index` daily, tagged with the marker.
pub fn cron_line(exe: &str) -> (r: String)
    ensures
        r@ == cron_line_spec(exe@),
{
    let mut out: Vec<char> = Vec::new();
    push_str(&mut out, "@daily ");
    push_str(&mut out, exe);
    push_str(&mut out, " index ");
    push_str(&mut out, CRON_MARKER);
    assert(out@ =~= cron_line_spec(exe@));
    string_of(&out)
}

/// Whether a crontab listing already holds sweep's entry.
pub fn is_installed(crontab: &str) -> (r: bool)
    ensures
        r == has_infix(crontab@, cron_marker()),
{
    contains(&chars_of(crontab), &chars_of(CRON_MARKER))
}

/// The new crontab body when installing `line`, or `None` when an entry is
/// already present: the line is appended on a line of its own.
pub open spec fn with_cron_entry_spec(body: Seq<char>, line: Seq<char>) -> Option<Seq<char>> {
    if has_infix(body, cron_marker()) {
        None
    } else {
        let b = if body.len() > 0 && body.last() != '\n' {
            body.push('\n')
        } else {
            body
        };
        Some(b + line + seq!['\n'])
    }
}

pub fn with_cron_entry(body: &str, line: &str) -> (r: Option<String>)
    ensures
        match r {
            Some(s) => with_cron_entry_spec(body@, line@) == Some(s@),
            None => with_cron_entry_spec(body@, line@) is None,
        },
{
    let b = chars_of(body);
    if contains(&b, &chars_of(CRON_MARKER)) {
        return None;
    }
    let mut out: Vec<char> = Vec::new();
    push_chars(&mut out, &b);
    if b.len() > 0 && b[b.len() - 1] != '\n' {
        out.push('\n');
    }
    push_str(&mut out, line);
    out.push('\n');
    assert(out@ =~= with_cron_entry_spec(body@, line@).unwrap());
    Some(string_of(&out))
}

/// The lines of a crontab that are not sweep's.
pub open spec fn kept_lines(ls: Seq<Seq<char>>) -> Seq<Seq<char>> {
    ls.filter(|l: Seq<char>| !has_infix(l, cron_marker()))
}

/// Lines joined with `\n`, with a final `\n`.
pub open spec fn joined_lines(ls: Seq<Seq<char>>) -> Seq<char>
    decreases ls.len(),
{
    if ls.len() == 0 {
        seq!['\n']
    } else if ls.len() == 1 {
        ls[0] + seq!['\n']
    } else {
        ls[0] + seq!['\n'] + joined_lines(ls.drop_first())
    }
}

proof fn lemma_joined_push(ls: Seq<Seq<char>>, l: Seq<char>)
    requires
        ls.len() > 0,
    ensures
        joined_lines(ls.push(l)) == joined_lines(ls).drop_last() + seq!['\n'] + l + seq!['\n'],
    decreases ls.len(),
{
    if ls.len() == 1 {
        assert(ls.push(l).drop_first() =~= seq![l]);
        assert(joined_lines(seq![l]) == l + seq!['\n']);
        assert(joined_lines(ls) == ls[0] + seq!['\n']);
        assert((ls[0] + seq!['\n']).drop_last() =~= ls[0]);
        assert(joined_lines(ls.push(l)) =~= ls[0] + seq!['\n'] + (l + seq!['\n']));
    } else {
        lemma_joined_push(ls.drop_first(), l);
        assert(ls.push(l).drop_first() =~= ls.drop_first().push(l));
        let rest = joined_lines(ls.drop_first());
        assert(rest.len() > 0);
        assert((ls[0] + seq!['\n'] + rest).drop_last() =~= ls[0] + seq!['\n'] + rest.drop_last());
        assert(joined_lines(ls.push(l)) =~= ls[0] + seq!['\n'] + (rest.drop_last() + seq!['\n'] + l
            + seq!['\n']));
    }
}

proof fn lemma_joined_nonempty(ls: Seq<Seq<char>>)
    ensures
        joined_lines(ls).len() > 0,
        joined_lines(ls).last() == '\n',
    decreases ls.len(),
{
    if ls.len() > 1 {
        lemma_joined_nonempty(ls.drop_first());
    }
}

/// The crontab body with sweep's entry removed.
pub fn without_cron_entries(body: &str) -> (r: String)
    ensures
        r@ == joined_lines(kept_lines(lines(body@))),
{
    let ls = lines_of(&chars_of(body));
    let marker = chars_of(CRON_MARKER);
    let ghost all = views(ls@);
    let ghost keep = |l: Seq<char>| !has_infix(l, cron_marker());
    let mut out: Vec<char> = Vec::new();
    let mut count: usize = 0;
    let mut i: usize = 0;
    while i < ls.len()
        invariant
            i <= ls@.len(),
            all == views(ls@),
            all == lines(body@),
            marker@ == cron_marker(),
            keep == (|l: Seq<char>| !has_infix(l, cron_marker())),
            count == all.take(i as int).filter(keep).len(),
            count > 0 ==> out@ == joined_lines(all.take(i as int).filter(keep)).drop_last(),
            count == 0 ==> out@.len() == 0,
        decreases ls@.len() - i,
    {
        assert(all[i as int] == ls@[i as int]@);
        assert(all.take(i + 1).drop_last() =~= all.take(i as int));
        assert(all.take(i + 1).last() == all[i as int]);
        reveal_with_fuel(Seq::filter, 1);
        if !contains(&ls[i], &marker) {
            let ghost prev = all.take(i as int).filter(keep);
            assert(all.take(i + 1).filter(keep) == prev.push(all[i as int]));
            if count > 0 {
                out.push('\n');
                proof {
                    lemma_joined_push(prev, all[i as int]);
                    lemma_joined_nonempty(prev);
                }
            } else {
                assert(prev.push(all[i as int]) =~= seq![all[i as int]]);
            }
            push_chars(&mut out, &ls[i]);
            count = count + 1;
            proof {
                let now = prev.push(all[i as int]);
                lemma_joined_nonempty(now);
                if count == 1 {
                    assert(joined_lines(now) == all[i as int] + seq!['\n']);
                    assert((all[i as int] + seq!['\n']).drop_last() =~= all[i as int]);
                } else {
                    assert((joined_lines(prev).drop_last() + seq!['\n'] + all[i as int] + seq!['\n']).drop_last()
                        =~= joined_lines(prev).drop_last() + seq!['\n'] + all[i as int]);
                }
                assert(out@ =~= joined_lines(now).drop_last());
            }
        } else {
            assert(all.take(i + 1).filter(keep) == all.take(i as int).filter(keep));
        }
        i = i + 1;
    }
    assert(all.take(ls@.len() as int) =~= all);
    out.push('\n');
    proof {
        let k = kept_lines(lines(body@));
        assert(k == all.filter(keep));
        lemma_joined_nonempty(k);
        if count == 0 {
            assert(k.len() == 0);
            assert(out@ =~= seq!['\n']);
        } else {
            let j = joined_lines(k);
            assert(j.drop_last().push('\n') =~= j);
        }
    }
    string_of(&out)
}

} // verus!
