//! User cleaner rules from `sweep.toml` `[[category]]` entries.
//!
//! Each entry declares a custom cache location that sweep should discover and
//! clean. The TOML text is read into [`RulePackEntry`] values by the caller;
//! validation happens here: an entry with a blank id is skipped, a repeated
//! id keeps only its first entry, and the risk is `System` when it names
//! `system` in any ASCII case, `Safe` otherwise (including unknown values).
use vstd::prelude::*;

use crate::domain::models::{copy_opt_string, copy_strings, opt_view, RiskLevel, RulePackCategory};
use crate::exclusion::RulePackModel;
use crate::text::{ascii_lower, chars_of, str_eq, to_ascii_lower, trim, trim_chars};

verus! {

/// One `[[category]]` entry as written in `sweep.toml` (the risk defaults to
/// "Safe" when the entry leaves it out).
pub struct RulePackEntry {
    pub id: String,
    pub roots: Vec<String>,
    pub risk: String,
    pub cleanup_command: Option<String>,
}

pub struct RulePackEntryModel {
    pub id: Seq<char>,
    pub roots: Seq<Seq<char>>,
    pub risk: Seq<char>,
    pub cleanup_command: Option<Seq<char>>,
}

impl DeepView for RulePackEntry {
    type V = RulePackEntryModel;

    open spec fn deep_view(&self) -> RulePackEntryModel {
        RulePackEntryModel {
            id: self.id@,
            roots: self.roots.deep_view(),
            risk: self.risk@,
            cleanup_command: opt_view(self.cleanup_command),
        }
    }
}

pub open spec fn entry_models(v: Seq<RulePackEntry>) -> Seq<RulePackEntryModel> {
    v.map_values(|e: RulePackEntry| e.deep_view())
}

/// The risk an entry's `risk` text names: `System` for "system" in any ASCII
/// case, `Safe` for anything else.
pub open spec fn risk_named(risk: Seq<char>) -> RiskLevel {
    if ascii_lower(risk) == "system"@ {
        RiskLevel::System
    } else {
        RiskLevel::Safe
    }
}

/// Entry `i` is kept: its id is not blank and no earlier entry has the same id.
pub open spec fn kept(entries: Seq<RulePackEntryModel>, i: int) -> bool {
    &&& trim(entries[i].id).len() > 0
    &&& forall|j: int| 0 <= j < i ==> (#[trigger] entries[j]).id != entries[i].id
}

/// The rule pack an accepted entry becomes.
pub open spec fn accepted(e: RulePackEntryModel) -> RulePackModel {
    RulePackModel { id: e.id, roots: e.roots, risk: risk_named(e.risk), cleanup_command: e.cleanup_command }
}

/// The rule packs `entries` validate to, in order.
pub open spec fn validated(entries: Seq<RulePackEntryModel>) -> Seq<RulePackModel>
    decreases entries.len(),
{
    if entries.len() == 0 {
        Seq::empty()
    } else {
        let prev = validated(entries.drop_last());
        if kept(entries, entries.len() - 1) {
            prev.push(accepted(entries.last()))
        } else {
            prev
        }
    }
}

/// The risk level `risk` names.
pub fn parse_risk(risk: &str) -> (r: RiskLevel)
    ensures
        r == risk_named(risk@),
{
    let lower = to_ascii_lower(chars_of(risk).as_slice());
    let word = chars_of("system");
    proof {
        reveal_strlit("system");
    }
    if lower.len() == word.len() {
        let mut i: usize = 0;
        while i < lower.len()
            invariant
                lower@ == ascii_lower(risk@),
                word@ == "system"@,
                lower@.len() == word@.len(),
                i <= lower@.len(),
                forall|k: int| 0 <= k < i ==> lower@[k] == word@[k],
            decreases lower@.len() - i,
        {
            if lower[i] != word[i] {
                assert(lower@ != word@);
                return RiskLevel::Safe;
            }
            i = i + 1;
        }
        assert(lower@ =~= word@);
        RiskLevel::System
    } else {
        RiskLevel::Safe
    }
}

/// Some entry before `i` has entry `i`'s id.
fn id_seen_before(entries: &Vec<RulePackEntry>, i: usize) -> (r: bool)
    requires
        i < entries@.len(),
    ensures
        r == exists|j: int| 0 <= j < i && (#[trigger] entry_models(entries@)[j]).id == entries@[i as int].id@,
{
    let mut j: usize = 0;
    while j < i
        invariant
            i < entries@.len(),
            j <= i,
            forall|k: int| 0 <= k < j ==> (#[trigger] entry_models(entries@)[k]).id != entries@[i as int].id@,
        decreases i - j,
    {
        if str_eq(entries[j].id.as_str(), entries[i].id.as_str()) {
            assert(entry_models(entries@)[j as int].id == entries@[i as int].id@);
            return true;
        }
        j = j + 1;
    }
    false
}

/// Validate `sweep.toml` rule-pack entries: skip blank ids and repeated ids
/// (the first entry of an id wins), and read each risk with [`parse_risk`].
pub fn validate_rule_packs(entries: &Vec<RulePackEntry>) -> (r: Vec<RulePackCategory>)
    ensures
        r@.map_values(|p: RulePackCategory| p.deep_view()) == validated(entry_models(entries@)),
{
    let ghost m = entry_models(entries@);
    let mut out: Vec<RulePackCategory> = Vec::new();
    let mut i: usize = 0;
    while i < entries.len()
        invariant
            m == entry_models(entries@),
            i <= entries@.len(),
            out@.map_values(|p: RulePackCategory| p.deep_view()) == validated(m.take(i as int)),
        decreases entries@.len() - i,
    {
        let ghost pre = m.take(i as int);
        let ghost next = m.take(i + 1);
        assert(next.drop_last() =~= pre);
        assert forall|j: int| 0 <= j <= i implies #[trigger] next[j] == m[j] by {}
        let e = &entries[i];
        let blank = trim_chars(chars_of(e.id.as_str()).as_slice()).len() == 0;
        if !blank && !id_seen_before(entries, i) {
            assert(kept(next, i as int)) by {
                assert forall|j: int| 0 <= j < i implies (#[trigger] next[j]).id != next[i as int].id by {
                    assert(next[j] == m[j]);
                }
            }
            let p = RulePackCategory {
                id: e.id.clone(),
                roots: copy_strings(&e.roots),
                risk: parse_risk(e.risk.as_str()),
                cleanup_command: copy_opt_string(&e.cleanup_command),
            };
            let ghost before = out@;
            out.push(p);
            assert(out@.map_values(|p: RulePackCategory| p.deep_view()) =~= before.map_values(|p: RulePackCategory| p.deep_view()).push(
                accepted(m[i as int]),
            ));
        } else {
            assert(!kept(next, i as int)) by {
                if !blank {
                    let j = choose|j: int| 0 <= j < i && (#[trigger] m[j]).id == entries@[i as int].id@;
                    assert(next[j] == m[j]);
                }
            }
        }
        i = i + 1;
    }
    assert(m.take(entries@.len() as int) =~= m);
    out
}

/// Every validated rule pack comes from an entry with the same id.
proof fn lemma_validated_from_entries(entries: Seq<RulePackEntryModel>)
    ensures
        validated(entries).len() <= entries.len(),
        forall|k: int| #![trigger validated(entries)[k]]
            0 <= k < validated(entries).len() ==> exists|j: int|
                0 <= j < entries.len() && kept(entries, j) && (#[trigger] entries[j]).id == validated(entries)[k].id,
    decreases entries.len(),
{
    if entries.len() > 0 {
        let prev = entries.drop_last();
        lemma_validated_from_entries(prev);
        let v = validated(entries);
        assert forall|k: int| #![trigger v[k]] 0 <= k < v.len() implies exists|j: int|
            0 <= j < entries.len() && kept(entries, j) && (#[trigger] entries[j]).id == v[k].id by {
            if k < validated(prev).len() {
                let j = choose|j: int| 0 <= j < prev.len() && kept(prev, j) && (#[trigger] prev[j]).id == validated(prev)[k].id;
                assert(entries[j] == prev[j]);
                assert forall|i: int| 0 <= i < j implies (#[trigger] entries[i]).id != entries[j].id by {
                    assert(entries[i] == prev[i]);
                }
                assert(kept(entries, j));
            } else {
                assert(entries[entries.len() - 1].id == v[k].id);
            }
        }
    }
}

/// Every validated rule pack has a non-blank id, and no two share an id.
pub proof fn lemma_validated_ids_nonblank_and_distinct(entries: Seq<RulePackEntryModel>)
    ensures
        forall|k: int| 0 <= k < validated(entries).len() ==> trim(#[trigger] validated(entries)[k].id).len() > 0,
        forall|a: int, b: int|
            0 <= a < b < validated(entries).len() ==> #[trigger] validated(entries)[a].id != #[trigger] validated(entries)[b].id,
    decreases entries.len(),
{
    lemma_validated_from_entries(entries);
    if entries.len() > 0 {
        let prev = entries.drop_last();
        lemma_validated_ids_nonblank_and_distinct(prev);
        lemma_validated_from_entries(prev);
        let v = validated(entries);
        assert forall|k: int| 0 <= k < v.len() implies trim(#[trigger] v[k].id).len() > 0 by {
            let j = choose|j: int| 0 <= j < entries.len() && kept(entries, j) && (#[trigger] entries[j]).id == v[k].id;
        }
        if kept(entries, entries.len() - 1) {
            let last = entries.len() - 1;
            assert forall|a: int, b: int| 0 <= a < b < v.len() implies #[trigger] v[a].id != #[trigger] v[b].id by {
                if b == v.len() - 1 {
                    assert(v[a] == validated(prev)[a]);
                    let j = choose|j: int| 0 <= j < prev.len() && kept(prev, j) && (#[trigger] prev[j]).id == validated(prev)[a].id;
                    assert(entries[j] == prev[j]);
                    assert(entries[j].id != entries[last].id);
                } else {
                    assert(v[a] == validated(prev)[a]);
                    assert(v[b] == validated(prev)[b]);
                }
            }
        }
    }
}

} // verus!
