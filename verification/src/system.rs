//! System status, RAM optimisation and the release update check.
use vstd::prelude::*;

use crate::domain::models::{MemoryStats, ProcessMemInfo, SystemSnapshot, TrimOutcome};
use crate::domain::traits::{RamTrimmer, SystemMonitor};
use crate::text::{chars_of, owned, slice_chars, string_of};

verus! {

// ---------------------------------------------------------------------------
// Status
// ---------------------------------------------------------------------------

pub struct SystemService<M: SystemMonitor> {
    pub monitor: M,
    /// What the monitor answered for the last report (`None` before any).
    pub answered: Ghost<Option<Result<SystemSnapshot, String>>>,
}

impl<M: SystemMonitor> SystemService<M> {
    pub fn new(monitor: M) -> (r: Self)
        ensures
            r.monitor == monitor,
            r.answered@ is None,
    {
        SystemService { monitor, answered: Ghost(None) }
    }

    /// The monitor's snapshot with at most `top_processes` processes listed
    /// (the monitor's first ones, see [`limit_top`]); the monitor's error
    /// when it fails.
    pub fn status_report(&mut self, top_processes: usize) -> (r: Result<SystemSnapshot, String>)
        ensures
            final(self).answered@ matches Some(a) && match a {
                Ok(snap) => r matches Ok(s) && s.memory == snap.memory && s.disks@ == snap.disks@ && s.top_processes@
                    == snap.top_processes@.take(
                    if top_processes < snap.top_processes@.len() {
                        top_processes as int
                    } else {
                        snap.top_processes@.len() as int
                    },
                ),
                Err(e) => r == Err::<SystemSnapshot, String>(e),
            },
    {
        let answer = self.monitor.snapshot();
        match answer {
            Ok(s) => {
                self.answered = Ghost(Some(Ok(s)));
                Ok(limit_top(s, top_processes))
            },
            Err(e) => {
                self.answered = Ghost(Some(Err(e)));
                Err(e)
            },
        }
    }
}

/// `snap` with only its first `n` processes listed; memory and disks as they
/// were.
pub fn limit_top(snap: SystemSnapshot, n: usize) -> (r: SystemSnapshot)
    ensures
        r.memory == snap.memory,
        r.disks@ == snap.disks@,
        r.top_processes@ == snap.top_processes@.take(
            if n < snap.top_processes@.len() {
                n as int
            } else {
                snap.top_processes@.len() as int
            },
        ),
{
    let mut snap = snap;
    let ghost before = snap.top_processes@;
    snap.top_processes.truncate(n);
    assert(snap.top_processes@ =~= before.take(
        if n < before.len() {
            n as int
        } else {
            before.len() as int
        },
    ));
    snap
}

// ---------------------------------------------------------------------------
// RAM optimisation
// ---------------------------------------------------------------------------

pub struct RamReport {
    pub before: MemoryStats,
    pub after: MemoryStats,
    pub outcome: TrimOutcome,
}

/// The pids of the first `n` processes of a snapshot, in monitor order.
pub open spec fn top_pids_spec(procs: Seq<ProcessMemInfo>, n: usize) -> Seq<u32> {
    let k = if n < procs.len() {
        n as int
    } else {
        procs.len() as int
    };
    procs.take(k).map_values(|p: ProcessMemInfo| p.pid)
}

pub fn top_pids(snap: &SystemSnapshot, n: usize) -> (r: Vec<u32>)
    ensures
        r@ == top_pids_spec(snap.top_processes@, n),
{
    let procs = &snap.top_processes;
    let mut out: Vec<u32> = Vec::new();
    let mut i: usize = 0;
    while i < procs.len() && i < n
        invariant
            i <= procs@.len(),
            i <= n,
            out@ == procs@.take(i as int).map_values(|p: ProcessMemInfo| p.pid),
        decreases procs@.len() - i,
    {
        out.push(procs[i].pid);
        assert(procs@.take(i + 1).map_values(|p: ProcessMemInfo| p.pid) =~= procs@.take(i as int).map_values(
            |p: ProcessMemInfo| p.pid,
        ).push(procs@[i as int].pid));
        i = i + 1;
    }
    out
}

pub struct RamService<M: SystemMonitor, T: RamTrimmer> {
    pub monitor: M,
    pub trimmer: T,
    /// What the monitor and the trimmer answered during the last
    /// optimisation (see [`RamTrace`]).
    pub trace: Ghost<RamTrace>,
}

/// What the monitor and the trimmer answered during an optimisation, in
/// order.
pub struct RamTrace {
    /// The monitor's snapshots.
    pub snapshots: Seq<Result<SystemSnapshot, String>>,
    /// The pids handed to `trim_processes`, and its answer.
    pub trims: Seq<(Seq<u32>, Result<(u32, u32), String>)>,
    /// The answers of `purge_standby`.
    pub purges: Seq<Result<bool, String>>,
}

/// The trace of a finished optimisation: a snapshot, the trim of the top
/// `trim_top` pids of that snapshot (when asked), the standby purge (when
/// asked), a second snapshot; and the report is made of exactly what they
/// answered.
pub open spec fn optimised(t: RamTrace, trim_top: Option<usize>, purge_standby: bool, rep: RamReport) -> bool {
    &&& t.snapshots.len() == 2
    &&& t.snapshots[0] matches Ok(s1) && t.snapshots[1] matches Ok(s2) && rep.before == s1.memory && rep.after == s2.memory
        && match trim_top {
        Some(n) => t.trims.len() == 1 && t.trims[0].0 == top_pids_spec(s1.top_processes@, n) && rep.outcome.attempted_pids@
            == t.trims[0].0 && t.trims[0].1 == Ok::<(u32, u32), String>((rep.outcome.succeeded, rep.outcome.failed)),
        None => t.trims.len() == 0 && rep.outcome.attempted_pids@.len() == 0 && rep.outcome.succeeded == 0
            && rep.outcome.failed == 0,
    }
    &&& rep.outcome.standby_attempted == purge_standby
    &&& if purge_standby {
        t.purges == seq![Ok::<bool, String>(rep.outcome.standby_ok)]
    } else {
        t.purges.len() == 0 && !rep.outcome.standby_ok
    }
}

/// The error ended the optimisation: it is the last answer recorded.
pub open spec fn failed_with(t: RamTrace, e: String) -> bool {
    ||| t.snapshots.len() > 0 && t.snapshots.last() == Err::<SystemSnapshot, String>(e)
    ||| t.trims.len() > 0 && t.trims.last().1 == Err::<(u32, u32), String>(e)
    ||| t.purges.len() > 0 && t.purges.last() == Err::<bool, String>(e)
}

impl<M: SystemMonitor, T: RamTrimmer> RamService<M, T> {
    pub fn new(monitor: M, trimmer: T) -> (r: Self)
        ensures
            r.monitor == monitor,
            r.trimmer == trimmer,
    {
        RamService { monitor, trimmer, trace: Ghost(RamTrace { snapshots: Seq::empty(), trims: Seq::empty(), purges: Seq::empty() }) }
    }

    /// Trim the working sets of the top `trim_top` memory consumers (monitor
    /// order), optionally purge the standby list, then measure again. Any
    /// step's failure ends the run with that error.
    pub fn optimize(&mut self, trim_top: Option<usize>, purge_standby: bool) -> (r: Result<RamReport, String>)
        ensures
            r matches Ok(rep) ==> optimised(final(self).trace@, trim_top, purge_standby, rep),
            r matches Err(e) ==> failed_with(final(self).trace@, e),
    {
        self.trace = Ghost(RamTrace { snapshots: Seq::empty(), trims: Seq::empty(), purges: Seq::empty() });
        let first = self.monitor.snapshot();
        self.trace = Ghost(RamTrace { snapshots: seq![first], ..self.trace@ });
        let before = match first {
            Ok(s) => s,
            Err(e) => return Err(e),
        };
        let mut outcome = TrimOutcome {
            attempted_pids: Vec::new(),
            succeeded: 0,
            failed: 0,
            standby_attempted: false,
            standby_ok: false,
        };
        match trim_top {
            Some(n) => {
                let pids = top_pids(&before, n);
                let answer = self.trimmer.trim_processes(pids.as_slice());
                self.trace = Ghost(RamTrace { trims: seq![(pids@, answer)], ..self.trace@ });
                let (ok, bad) = match answer {
                    Ok(x) => x,
                    Err(e) => return Err(e),
                };
                outcome.attempted_pids = pids;
                outcome.succeeded = ok;
                outcome.failed = bad;
            },
            None => {},
        }
        if purge_standby {
            outcome.standby_attempted = true;
            let answer = self.trimmer.purge_standby();
            self.trace = Ghost(RamTrace { purges: seq![answer], ..self.trace@ });
            outcome.standby_ok = match answer {
                Ok(b) => b,
                Err(e) => return Err(e),
            };
        }
        let second = self.monitor.snapshot();
        self.trace = Ghost(RamTrace { snapshots: self.trace@.snapshots.push(second), ..self.trace@ });
        let after = match second {
            Ok(s) => s,
            Err(e) => return Err(e),
        };
        let ghost s1 = before;
        let rep = RamReport { before: before.memory, after: after.memory, outcome };
        assert(self.trace@.snapshots =~= seq![Ok::<SystemSnapshot, String>(s1), Ok::<SystemSnapshot, String>(after)]);
        Ok(rep)
    }
}

// ---------------------------------------------------------------------------
// Update check
// ---------------------------------------------------------------------------

/// Result of the `sweep --version` update check.
#[derive(Debug, Clone, PartialEq, Eq)]
pub enum UpdateCheck {
    /// The running version is the newest published release.
    UpToDate,
    /// A newer release exists; carries its tag.
    Available(String),
    /// The check could not run (offline, timeout, unreadable reply).
    Skipped,
}

/// What `serde_json` yields for the `tag_name` string field of a JSON body:
/// `None` when the body is not JSON, has no such field, or it is no string.
pub uninterp spec fn release_tag(body: Seq<char>) -> Option<Seq<char>>;

/// `serde_json::from_str::<Value>`, then `Value::get("tag_name")` and
/// `Value::as_str`: the release tag of a GitHub release payload. The result
/// is named by [`release_tag`], a function of the body alone.
#[verifier::external_body]
fn json_tag_name(body: &str) -> (r: Option<String>)
    ensures
        match r {
            Some(t) => release_tag(body@) == Some(t@),
            None => release_tag(body@) is None,
        },
{
    let value: serde_json::Value = match serde_json::from_str(body) {
        Ok(v) => v,
        Err(_) => return None,
    };
    value.get("tag_name").and_then(|t| t.as_str()).map(|s| s.to_string())
}

/// Extract `tag_name` from a GitHub release payload.
pub fn parse_latest_tag(body: &str) -> (r: Option<String>)
    ensures
        match r {
            Some(t) => release_tag(body@) == Some(t@),
            None => release_tag(body@) is None,
        },
{
    json_tag_name(body)
}

pub open spec fn is_digit(c: char) -> bool {
    '0' <= c && c <= '9'
}

/// The value of a string of decimal digits.
pub open spec fn digits_value(s: Seq<char>) -> nat
    decreases s.len(),
{
    if s.len() == 0 {
        0
    } else {
        digits_value(s.drop_last()) * 10 + ((s.last() as u32) - 48) as nat
    }
}

/// The text after an optional leading `+`.
pub open spec fn unsigned_digits(s: Seq<char>) -> Seq<char> {
    if s.len() > 0 && s[0] == '+' {
        s.drop_first()
    } else {
        s
    }
}

pub open spec fn all_decimal(d: Seq<char>) -> bool {
    forall|i: int| 0 <= i < d.len() ==> is_digit(#[trigger] d[i])
}

/// `u64::from_str`: an optional `+`, then at least one decimal digit, with a
/// value that fits.
pub open spec fn parse_u64_spec(s: Seq<char>) -> Option<u64> {
    let d = unsigned_digits(s);
    if d.len() > 0 && all_decimal(d) && digits_value(d) <= u64::MAX {
        Some(digits_value(d) as u64)
    } else {
        None
    }
}

fn parse_u64(s: &[char]) -> (r: Option<u64>)
    ensures
        r == parse_u64_spec(s@),
{
    let start: usize = if s.len() > 0 && s[0] == '+' {
        1
    } else {
        0
    };
    let d = slice_chars(s, start, s.len());
    assert(d@ =~= unsigned_digits(s@));
    if d.len() == 0 {
        return None;
    }
    let mut v: u64 = 0;
    let mut i: usize = 0;
    while i < d.len()
        invariant
            i <= d@.len(),
            d@ == unsigned_digits(s@),
            forall|j: int| 0 <= j < i ==> is_digit(#[trigger] d@[j]),
            v as nat == digits_value(d@.take(i as int)),
        decreases d@.len() - i,
    {
        let c = d[i];
        proof {
            lemma_digits_value_prefix(d@, i + 1);
        }
        assert(d@.take(i + 1).last() == c);
        if !('0' <= c && c <= '9') {
            assert(!is_digit(d@[i as int]));
            assert(!(forall|j: int| 0 <= j < d@.len() ==> is_digit(#[trigger] d@[j])));
            assert(parse_u64_spec(s@) is None);
            return None;
        }
        let digit: u64 = (c as u32 - 48) as u64;
        if v > (u64::MAX - digit) / 10 {
            assert(digits_value(d@.take(i + 1)) > u64::MAX) by (nonlinear_arith)
                requires
                    digits_value(d@.take(i + 1)) == v * 10 + digit,
                    v > (u64::MAX - digit) / 10,
                    digit <= 9,
            ;
            proof {
                if forall|j: int| 0 <= j < d@.len() ==> is_digit(#[trigger] d@[j]) {
                    lemma_digits_monotone(d@, i + 1);
                }
            }
            assert(parse_u64_spec(s@) is None);
            return None;
        }
        v = v * 10 + digit;
        i = i + 1;
    }
    assert(d@.take(d@.len() as int) =~= d@);
    Some(v)
}

proof fn lemma_digits_value_prefix(d: Seq<char>, k: int)
    requires
        0 <= k <= d.len(),
    ensures
        k > 0 ==> digits_value(d.take(k)) == digits_value(d.take(k - 1)) * 10 + ((d[k - 1] as u32) - 48) as nat,
{
    if k > 0 {
        assert(d.take(k).drop_last() =~= d.take(k - 1));
    }
}

/// The base-ten rendering of `n` is a run of digits worth `n`.
pub proof fn lemma_decimal_reads_back(n: u64)
    ensures
        crate::text::decimal_spec(n).len() > 0,
        all_decimal(crate::text::decimal_spec(n)),
        is_digit(crate::text::decimal_spec(n)[0]),
        digits_value(crate::text::decimal_spec(n)) == n,
    decreases n,
{
    let d = (n % 10) as u64;
    let c = crate::text::digit_char(d);
    assert(d as u8 == d);
    assert(is_digit(c) && (c as u32) - 48 == d);
    let t = crate::text::decimal_spec(n);
    if n >= 10 {
        lemma_decimal_reads_back(n / 10);
        let s = crate::text::decimal_spec(n / 10);
        assert(t == s.push(c));
        assert(t.drop_last() =~= s);
        assert(t[0] == s[0]);
        assert forall|i: int| 0 <= i < t.len() implies is_digit(#[trigger] t[i]) by {
            if i < s.len() {
                assert(t[i] == s[i]);
            }
        }
        assert(t.last() == c);
        assert(digits_value(t) == digits_value(s) * 10 + ((c as u32) - 48) as nat);
        assert((n / 10) * 10 + n % 10 == n);
    } else {
        assert(t == seq![c]);
        assert(t.drop_last() =~= Seq::<char>::empty());
        assert(digits_value(Seq::<char>::empty()) == 0);
        assert(digits_value(t) == digits_value(t.drop_last()) * 10 + ((c as u32) - 48) as nat);
    }
}

/// A longer run of digits is worth at least as much as its prefix.
pub proof fn lemma_digits_monotone(d: Seq<char>, k: int)
    requires
        0 <= k <= d.len(),
        forall|j: int| 0 <= j < d.len() ==> is_digit(#[trigger] d[j]),
    ensures
        digits_value(d.take(k)) <= digits_value(d),
    decreases d.len() - k,
{
    if k < d.len() {
        lemma_digits_monotone(d, k + 1);
        assert(d.take(k + 1).drop_last() =~= d.take(k));
        assert(is_digit(d[k]));
    } else {
        assert(d.take(k) =~= d);
    }
}

/// The part before the first `-` or `+` (pre-release and build metadata).
pub open spec fn core_version(s: Seq<char>) -> Seq<char>
    decreases s.len(),
{
    if s.len() == 0 {
        s
    } else if s[0] == '-' || s[0] == '+' {
        Seq::empty()
    } else {
        seq![s[0]] + core_version(s.drop_first())
    }
}

/// `major.minor.patch`, missing minor or patch counting as 0; further parts
/// are ignored.
pub open spec fn parse_semver_spec(s: Seq<char>) -> Option<(u64, u64, u64)> {
    let parts = crate::text::split_on(core_version(s), '.');
    let major = parse_u64_spec(parts[0]);
    let minor = if parts.len() > 1 {
        parse_u64_spec(parts[1])
    } else {
        Some(0u64)
    };
    let patch = if parts.len() > 2 {
        parse_u64_spec(parts[2])
    } else {
        Some(0u64)
    };
    match (major, minor, patch) {
        (Some(a), Some(b), Some(c)) => Some((a, b, c)),
        _ => None,
    }
}

/// Parse `major.minor.patch` into a comparable triple.
pub fn parse_semver(s: &str) -> (r: Option<(u64, u64, u64)>)
    ensures
        r == parse_semver_spec(s@),
{
    let v = chars_of(s);
    let mut n: usize = 0;
    assert(v@.skip(0) =~= v@);
    assert(v@.take(0) + core_version(v@) =~= core_version(v@));
    while n < v.len() && v[n] != '-' && v[n] != '+'
        invariant
            n <= v@.len(),
            v@ == s@,
            core_version(s@) == v@.take(n as int) + core_version(v@.skip(n as int)),
        decreases v@.len() - n,
    {
        assert(v@.skip(n as int)[0] == v@[n as int]);
        assert(v@.skip(n as int).drop_first() =~= v@.skip(n + 1));
        assert(v@.take(n + 1) =~= v@.take(n as int) + seq![v@[n as int]]);
        n = n + 1;
    }
    assert(core_version(v@.skip(n as int)) =~= Seq::<char>::empty());
    let core = slice_chars(&v, 0, n);
    assert(core@ =~= core_version(s@));
    let parts = crate::text::split_chars(&core, '.');
    proof {
        crate::text::lemma_split_nonempty(core@, '.');
    }
    let major = match parse_u64(&parts[0]) {
        Some(x) => x,
        None => return None,
    };
    let minor = if parts.len() > 1 {
        match parse_u64(&parts[1]) {
            Some(x) => x,
            None => return None,
        }
    } else {
        0
    };
    let patch = if parts.len() > 2 {
        match parse_u64(&parts[2]) {
            Some(x) => x,
            None => return None,
        }
    } else {
        0
    };
    Some((major, minor, patch))
}

/// Lexicographic order of version triples.
pub open spec fn newer(a: (u64, u64, u64), b: (u64, u64, u64)) -> bool {
    a.0 > b.0 || (a.0 == b.0 && (a.1 > b.1 || (a.1 == b.1 && a.2 > b.2)))
}

/// `tag` without its leading `v`s.
pub open spec fn strip_vs(tag: Seq<char>) -> Seq<char>
    decreases tag.len(),
{
    if tag.len() > 0 && tag[0] == 'v' {
        strip_vs(tag.drop_first())
    } else {
        tag
    }
}

/// How the running version compares with a release tag.
pub open spec fn compare_versions_spec(current: Seq<char>, tag: Seq<char>) -> Option<Option<Seq<char>>> {
    match (parse_semver_spec(current), parse_semver_spec(strip_vs(tag))) {
        (Some(cur), Some(new)) => Some(if newer(new, cur) { Some(tag) } else { None }),
        _ => None,
    }
}

/// Compare the running version against a release tag (`v1.2.3` or `1.2.3`).
/// Unparseable input is treated as "no update" rather than guessed at.
pub fn compare_versions(current: &str, tag: &str) -> (r: UpdateCheck)
    ensures
        match compare_versions_spec(current@, tag@) {
            Some(Some(t)) => r matches UpdateCheck::Available(s) && s@ == t,
            Some(None) => r is UpToDate,
            None => r is Skipped,
        },
{
    let t = chars_of(tag);
    let mut k: usize = 0;
    assert(t@.skip(0) =~= t@);
    while k < t.len() && t[k] == 'v'
        invariant
            k <= t@.len(),
            t@ == tag@,
            strip_vs(tag@) == strip_vs(t@.skip(k as int)),
        decreases t@.len() - k,
    {
        assert(t@.skip(k as int).drop_first() =~= t@.skip(k + 1));
        k = k + 1;
    }
    let latest = string_of(&slice_chars(&t, k, t.len()));
    assert(latest@ =~= t@.skip(k as int));
    match (parse_semver(current), parse_semver(latest.as_str())) {
        (Some(cur), Some(new)) => {
            if new.0 > cur.0 || (new.0 == cur.0 && (new.1 > cur.1 || (new.1 == cur.1 && new.2 > cur.2))) {
                UpdateCheck::Available(owned(tag))
            } else {
                UpdateCheck::UpToDate
            }
        },
        _ => UpdateCheck::Skipped,
    }
}

/// The update check's verdict from the release endpoint's reply: no reply
/// (no curl, offline, timeout, failure status) or no tag in it means the
/// check is skipped; otherwise the versions are compared.
pub fn update_from_reply(current: &str, body: Option<&str>) -> (r: UpdateCheck)
    ensures
        match body {
            None => r is Skipped,
            Some(b) => match release_tag(b@) {
                None => r is Skipped,
                Some(t) => match compare_versions_spec(current@, t) {
                    Some(Some(x)) => r matches UpdateCheck::Available(s) && s@ == x,
                    Some(None) => r is UpToDate,
                    None => r is Skipped,
                },
            },
        },
{
    match body {
        None => UpdateCheck::Skipped,
        Some(b) => match parse_latest_tag(b) {
            Some(tag) => compare_versions(current, tag.as_str()),
            None => UpdateCheck::Skipped,
        },
    }
}

/// Release order is total: of two different versions exactly one is newer.
pub proof fn lemma_newer_total(a: (u64, u64, u64), b: (u64, u64, u64))
    ensures
        a != b ==> (newer(a, b) != newer(b, a)),
        a == b ==> !newer(a, b),
{
}

/// A release is newer when it raises the major number, or keeps it and
/// raises the minor, or keeps both and raises the patch.
pub proof fn lemma_newer_by_part(a: (u64, u64, u64), b: (u64, u64, u64))
    ensures
        a.0 > b.0 ==> newer(a, b),
        a.0 == b.0 && a.1 > b.1 ==> newer(a, b),
        a.0 == b.0 && a.1 == b.1 && a.2 > b.2 ==> newer(a, b),
        a.0 < b.0 ==> !newer(a, b),
{
}

/// A tag whose version is newer than the running one (a patch release
/// included) is reported as available, and one that is not newer as up to
/// date.
pub proof fn lemma_update_reported(current: Seq<char>, tag: Seq<char>)
    requires
        parse_semver_spec(current) is Some,
        parse_semver_spec(strip_vs(tag)) is Some,
    ensures
        ({
            let c = parse_semver_spec(current)->Some_0;
            let n = parse_semver_spec(strip_vs(tag))->Some_0;
            &&& (n.0 == c.0 && n.1 == c.1 && n.2 > c.2) ==> compare_versions_spec(current, tag) == Some(Some(tag))
            &&& (n.0 == c.0 && n.1 > c.1) ==> compare_versions_spec(current, tag) == Some(Some(tag))
            &&& n.0 > c.0 ==> compare_versions_spec(current, tag) == Some(Some(tag))
            &&& n == c ==> compare_versions_spec(current, tag) == Some(None::<Seq<char>>)
        }),
{
}

proof fn lemma_core_plain(s: Seq<char>)
    requires
        forall|i: int| 0 <= i < s.len() ==> s[i] != '-' && s[i] != '+',
    ensures
        core_version(s) == s,
    decreases s.len(),
{
    if s.len() > 0 {
        lemma_core_plain(s.drop_first());
        assert(seq![s[0]] + s.drop_first() =~= s);
    }
}

proof fn lemma_parse_decimal(n: u64)
    ensures
        parse_u64_spec(crate::text::decimal_spec(n)) == Some(n),
        forall|i: int| 0 <= i < crate::text::decimal_spec(n).len() ==> is_digit(#[trigger] crate::text::decimal_spec(n)[i]),
{
    lemma_decimal_reads_back(n);
    let d = crate::text::decimal_spec(n);
    assert(unsigned_digits(d) == d);
}

/// The version `a.b.c`, written in decimal, parses back as `(a, b, c)`.
pub proof fn lemma_semver_reads_back(a: u64, b: u64, c: u64)
    ensures
        parse_semver_spec(
            crate::text::decimal_spec(a) + seq!['.'] + crate::text::decimal_spec(b) + seq!['.'] + crate::text::decimal_spec(c),
        ) == Some((a, b, c)),
{
    let da = crate::text::decimal_spec(a);
    let db = crate::text::decimal_spec(b);
    let dc = crate::text::decimal_spec(c);
    lemma_parse_decimal(a);
    lemma_parse_decimal(b);
    lemma_parse_decimal(c);
    let s = da + seq!['.'] + db + seq!['.'] + dc;
    let parts = seq![da, db, dc];
    assert forall|i: int| 0 <= i < s.len() implies s[i] != '-' && s[i] != '+' by {
        if i < da.len() {
            assert(s[i] == da[i]);
        } else if i == da.len() {
        } else if i < da.len() + 1 + db.len() {
            assert(s[i] == db[i - da.len() - 1]);
        } else if i == da.len() + 1 + db.len() {
        } else {
            assert(s[i] == dc[i - da.len() - 2 - db.len()]);
        }
    }
    lemma_core_plain(s);
    assert(parts.drop_last() =~= seq![da, db]);
    assert(seq![da, db].drop_last() =~= seq![da]);
    assert(crate::text::join_with(seq![da], '.') == da);
    assert(crate::text::join_with(seq![da, db], '.') == da.push('.') + db);
    assert(crate::text::join_with(parts, '.') == (da.push('.') + db).push('.') + dc);
    assert((da.push('.') + db).push('.') + dc =~= s);
    assert forall|i: int, j: int| 0 <= i < parts.len() && 0 <= j < parts[i].len() implies parts[i][j] != '.' by {
        if i == 0 {
            assert(is_digit(da[j]));
        } else if i == 1 {
            assert(is_digit(db[j]));
        } else {
            assert(is_digit(dc[j]));
        }
    }
    crate::text::lemma_split_join(parts, '.');
}

} // verus!
