//! The data model: a policy document is an ordered sequence of rule groups,
//! each keyed by user-agent tokens and holding an ordered list of path rules.

use vstd::prelude::*;

verus! {

/// Whether a path rule grants or withdraws access.
#[derive(Clone, Copy, PartialEq, Eq, Structural, Debug)]
pub enum RuleKind {
    Allow,
    Disallow,
}

/// One `Allow:` or `Disallow:` directive with its pattern.
pub struct PathRule {
    pub kind: RuleKind,
    pub pattern: Vec<char>,
}

/// A block of directives associated with one or more user-agent tokens.
pub struct RuleGroup {
    pub agents: Vec<Vec<char>>,
    pub rules: Vec<PathRule>,
}

/// The parsed, immutable representation of a policy document.
pub struct PolicyDocument {
    pub groups: Vec<RuleGroup>,
}

/// The mathematical model of a path rule.
#[verifier::ext_equal]
pub struct SpecRule {
    pub kind: RuleKind,
    pub pattern: Seq<char>,
}

/// The mathematical model of a rule group.
#[verifier::ext_equal]
pub struct SpecGroup {
    pub agents: Seq<Seq<char>>,
    pub rules: Seq<SpecRule>,
}

impl View for PathRule {
    type V = SpecRule;

    open spec fn view(&self) -> SpecRule {
        SpecRule { kind: self.kind, pattern: self.pattern@ }
    }
}

impl DeepView for PathRule {
    type V = SpecRule;

    open spec fn deep_view(&self) -> SpecRule {
        self@
    }
}

impl View for RuleGroup {
    type V = SpecGroup;

    open spec fn view(&self) -> SpecGroup {
        SpecGroup { agents: self.agents.deep_view(), rules: self.rules.deep_view() }
    }
}

impl DeepView for RuleGroup {
    type V = SpecGroup;

    open spec fn deep_view(&self) -> SpecGroup {
        self@
    }
}

impl View for PolicyDocument {
    type V = Seq<SpecGroup>;

    open spec fn view(&self) -> Seq<SpecGroup> {
        self.groups.deep_view()
    }
}

/// A group is well formed when it names at least one agent token and none of
/// its tokens is empty; the parser never produces a group that is not.
pub open spec fn group_wf(g: SpecGroup) -> bool {
    g.agents.len() >= 1 && forall|i: int| 0 <= i < g.agents.len() ==> g.agents[i].len() >= 1
}

/// Every group of the document is well formed.
pub open spec fn doc_wf(groups: Seq<SpecGroup>) -> bool {
    forall|i: int| 0 <= i < groups.len() ==> group_wf(#[trigger] groups[i])
}

} // verus!
