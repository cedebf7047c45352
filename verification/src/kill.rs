//! Controlled process termination with a hard system-critical blocklist.
//!
//! This service is the single gate for any process close or kill performed by
//! `sweep idle`, `sweep bg` or `sweep guard --allow-kill`: it never lets a
//! system process or sweep itself be touched, and a forced kill needs explicit
//! consent. It decides; the caller delivers the signal it hands back.
use vstd::prelude::*;

use crate::domain::models::{KillMode, KillRequest};
use crate::text::{ascii_lower, chars_eq, chars_of, ends_with, has_suffix, slice_chars, to_ascii_lower};

verus! {

/// Process names (lower case, without `.exe`) that are never closed or killed.
pub open spec fn blocked_names() -> Seq<Seq<char>> {
    seq![
        seq!['c', 's', 'r', 's', 's'],
        seq!['w', 'i', 'n', 'i', 'n', 'i', 't'],
        seq!['s', 'e', 'r', 'v', 'i', 'c', 'e', 's'],
    ]
}

pub open spec fn exe_suffix() -> Seq<char> {
    seq!['.', 'e', 'x', 'e']
}

/// The image name as compared against the blocklist: ASCII lower case, one
/// trailing `.exe` removed.
pub open spec fn comparable_name(name: Seq<char>) -> Seq<char> {
    let lower = ascii_lower(name);
    if has_suffix(lower, exe_suffix()) {
        lower.take(lower.len() - 4)
    } else {
        lower
    }
}

/// The request targets the idle process (0), the kernel (4), sweep itself, or
/// a blocklisted image name.
pub open spec fn blocked_spec(pid: u32, name: Seq<char>, self_pid: u32) -> bool {
    ||| pid == 0
    ||| pid == 4
    ||| pid == self_pid
    ||| blocked_names().contains(comparable_name(name))
}

/// What a request amounts to: the termination to deliver, or `None` when it
/// is refused.
pub open spec fn decision_spec(pid: u32, name: Seq<char>, mode: KillMode, consent: bool, self_pid: u32) -> Option<
    KillMode,
> {
    if blocked_spec(pid, name, self_pid) {
        None
    } else if mode == KillMode::Kill && !consent {
        None
    } else {
        Some(mode)
    }
}

/// Service that validates process termination requests.
pub struct KillService;

fn exe_suffix_chars() -> (r: Vec<char>)
    ensures
        r@ == exe_suffix(),
{
    let mut r: Vec<char> = Vec::new();
    r.push('.');
    r.push('e');
    r.push('x');
    r.push('e');
    assert(r@ =~= exe_suffix());
    r
}

fn blocked_name_list() -> (r: Vec<Vec<char>>)
    ensures
        crate::text::views(r@) == blocked_names(),
{
    let mut a: Vec<char> = Vec::new();
    a.push('c');
    a.push('s');
    a.push('r');
    a.push('s');
    a.push('s');
    let mut b: Vec<char> = Vec::new();
    b.push('w');
    b.push('i');
    b.push('n');
    b.push('i');
    b.push('n');
    b.push('i');
    b.push('t');
    let mut c: Vec<char> = Vec::new();
    c.push('s');
    c.push('e');
    c.push('r');
    c.push('v');
    c.push('i');
    c.push('c');
    c.push('e');
    c.push('s');
    assert(a@ =~= blocked_names()[0]);
    assert(b@ =~= blocked_names()[1]);
    assert(c@ =~= blocked_names()[2]);
    let mut r: Vec<Vec<char>> = Vec::new();
    r.push(a);
    r.push(b);
    r.push(c);
    assert(crate::text::views(r@) =~= blocked_names());
    r
}

impl KillService {
    /// Create a kill service. It holds no state; the blocklist is a constant.
    pub fn new() -> (r: KillService) {
        KillService
    }

    /// True when the request targets a system-critical process or sweep
    /// itself (`self_pid`).
    pub fn is_blocked(req: &KillRequest, self_pid: u32) -> (r: bool)
        ensures
            r == blocked_spec(req.pid, req.name@, self_pid),
    {
        if req.pid == 0 || req.pid == 4 || req.pid == self_pid {
            return true;
        }
        let lower = to_ascii_lower(&chars_of(req.name.as_str()));
        let suffix = exe_suffix_chars();
        let name = if ends_with(&lower, &suffix) {
            slice_chars(&lower, 0, lower.len() - 4)
        } else {
            lower
        };
        assert(name@ == comparable_name(req.name@)) by {
            if has_suffix(ascii_lower(req.name@), exe_suffix()) {
                assert(name@ =~= ascii_lower(req.name@).take(ascii_lower(req.name@).len() - 4));
            }
        }
        let names = blocked_name_list();
        let mut i: usize = 0;
        while i < names.len()
            invariant
                i <= names@.len(),
                crate::text::views(names@) == blocked_names(),
                name@ == comparable_name(req.name@),
                req.pid != 0 && req.pid != 4 && req.pid != self_pid,
                forall|j: int| 0 <= j < i ==> blocked_names()[j] != name@,
            decreases names@.len() - i,
        {
            assert(crate::text::views(names@)[i as int] == names@[i as int]@);
            if chars_eq(&names[i], &name) {
                assert(blocked_names()[i as int] == name@);
                return true;
            }
            i = i + 1;
        }
        assert(!blocked_names().contains(name@)) by {
            if blocked_names().contains(name@) {
                let k = choose|k: int| 0 <= k < blocked_names().len() && blocked_names()[k] == name@;
                assert(blocked_names()[k] != name@);
            }
        }
        false
    }

    /// Validate a termination request against the blocklist and consent.
    ///
    /// Returns the termination the caller is to deliver (a graceful close or
    /// a forced kill), or `None`: blocklisted targets and unconsented forced
    /// kills are refused without side effects.
    pub fn execute(&self, req: &KillRequest, self_pid: u32) -> (r: Option<KillMode>)
        ensures
            r == decision_spec(req.pid, req.name@, req.mode, req.consent, self_pid),
    {
        if Self::is_blocked(req, self_pid) {
            return None;
        }
        if req.mode == KillMode::Kill && !req.consent {
            return None;
        }
        Some(req.mode)
    }
}

/// Nothing on the blocklist is ever handed back for termination, and a forced
/// kill is handed back only with the user's consent.
pub proof fn lemma_kill_gate(pid: u32, name: Seq<char>, mode: KillMode, consent: bool, self_pid: u32)
    ensures
        blocked_spec(pid, name, self_pid) ==> decision_spec(pid, name, mode, consent, self_pid) is None,
        decision_spec(pid, name, mode, consent, self_pid) == Some(KillMode::Kill) ==> consent,
        decision_spec(pid, name, mode, consent, self_pid) is Some ==> decision_spec(
            pid,
            name,
            mode,
            consent,
            self_pid,
        ) == Some(mode),
        self_pid == pid ==> decision_spec(pid, name, mode, consent, self_pid) is None,
{
}

} // verus!
