//! Semantic diff for policy changes: added, removed and modified rules.
use vstd::prelude::*;
use crate::rule::Effect;
use crate::text::{usize_to_string, decimal};

verus! {

/// Represents the difference between two policies.
#[derive(Debug)]
pub struct PolicyDiff {
    /// Rules added in the new policy.
    pub added: Vec<RuleSummary>,
    /// Rules removed from the old policy.
    pub removed: Vec<RuleSummary>,
    /// Rules with the same name but different content.
    pub modified: Vec<RuleModification>,
    /// Rules unchanged between policies.
    pub unchanged: Vec<String>,
}

/// Summary of a rule for diff output.
#[derive(Debug)]
pub struct RuleSummary {
    /// Rule name.
    pub name: String,
    /// Rule effect.
    pub effect: Effect,
    /// Number of conditions.
    pub condition_count: usize,
}

/// A modification to an existing rule.
#[derive(Debug)]
pub struct RuleModification {
    /// Rule name.
    pub name: String,
    /// Old effect.
    pub old_effect: Effect,
    /// New effect.
    pub new_effect: Effect,
    /// Old condition count.
    pub old_conditions: usize,
    /// New condition count.
    pub new_conditions: usize,
    /// Whether the effect changed.
    pub effect_changed: bool,
    /// Whether conditions changed.
    pub conditions_changed: bool,
}

/// The one-line summary of a diff with the given counts.
pub open spec fn summary_text(added: nat, removed: nat, modified: nat, unchanged: nat) -> Seq<char> {
    "+"@ + decimal(added as int) + " added, -"@ + decimal(removed as int) + " removed, ~"@
        + decimal(modified as int) + " modified, ="@ + decimal(unchanged as int) + " unchanged"@
}

impl PolicyDiff {
    /// Whether any rule was added, removed or modified.
    pub fn has_changes(&self) -> (r: bool)
        ensures
            r == (self.added.len() > 0 || self.removed.len() > 0 || self.modified.len() > 0),
    {
        !self.added.is_empty() || !self.removed.is_empty() || !self.modified.is_empty()
    }

    /// A summary line: `+A added, -R removed, ~M modified, =U unchanged`.
    pub fn summary(&self) -> (s: String)
        ensures
            s@ == summary_text(
                self.added.len() as nat,
                self.removed.len() as nat,
                self.modified.len() as nat,
                self.unchanged.len() as nat,
            ),
    {
        let mut s = String::from_str("+");
        let a = usize_to_string(self.added.len());
        s.append(a.as_str());
        s.append(" added, -");
        let r = usize_to_string(self.removed.len());
        s.append(r.as_str());
        s.append(" removed, ~");
        let m = usize_to_string(self.modified.len());
        s.append(m.as_str());
        s.append(" modified, =");
        let u = usize_to_string(self.unchanged.len());
        s.append(u.as_str());
        s.append(" unchanged");
        s
    }
}

} // verus!
