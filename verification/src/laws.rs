//! Properties of the engine as a whole, proved once and for all inputs.

use vstd::prelude::*;

use crate::chars::trimmed;
use crate::matcher::{
    first_exact_from, first_wildcard_from, group_matches_token, pat_matches_from, spec_decision,
    spec_is_allowed, spec_rules_allow,
};
use crate::parser::{classify, content_of, init_state, run_lines, spec_parse, split_lines, step};
use crate::policy::SpecGroup;
use crate::spec_allow_access;
use crate::well_known_path;

verus! {

/// A request for the well-known policy path is permitted for every policy
/// text and every user agent: the collaborator-level decision is independent
/// of the policy.
pub proof fn lemma_well_known_always_allowed(text: Seq<char>, user_agent: Seq<char>)
    ensures
        spec_allow_access(text, user_agent, well_known_path()),
{
}

/// Empty policy text parses to a document with zero groups, and that
/// document permits every request.
pub proof fn lemma_empty_policy_allows_all(user_agent: Seq<char>, path: Seq<char>)
    ensures
        spec_parse(Seq::empty()).len() == 0,
        spec_is_allowed(spec_parse(Seq::empty()), user_agent, path),
{
    let e = Seq::<char>::empty();
    assert(split_lines(e) =~= seq![e]);
    assert(content_of(e) =~= e);
    assert(trimmed(e) =~= e);
    assert(classify(e) is Blank);
    let lines = seq![e];
    assert(lines.skip(1) =~= Seq::<Seq<char>>::empty());
    assert(step(init_state(), lines[0]) == init_state());
    assert(run_lines(step(init_state(), lines[0]), lines.skip(1)) == step(init_state(), lines[0]));
    assert(run_lines(init_state(), lines) == init_state());
    assert(spec_parse(e) =~= Seq::<SpecGroup>::empty());
}

/// Parsing is deterministic: two documents parsed from the same text decide
/// every (user-agent, path) request identically.
pub proof fn lemma_parse_deterministic(
    g1: Seq<SpecGroup>,
    g2: Seq<SpecGroup>,
    text: Seq<char>,
    user_agent: Seq<char>,
    path: Seq<char>,
)
    requires
        g1 == spec_parse(text),
        g2 == spec_parse(text),
    ensures
        spec_is_allowed(g1, user_agent, path) == spec_is_allowed(g2, user_agent, path),
{
}

proof fn lemma_first_exact_same(groups: Seq<SpecGroup>, t1: Seq<char>, t2: Seq<char>, i: int)
    requires
        forall|k: int|
            0 <= k < groups.len() ==> (group_matches_token(#[trigger] groups[k], t1)
                <==> group_matches_token(groups[k], t2)),
        0 <= i,
    ensures
        first_exact_from(groups, t1, i) == first_exact_from(groups, t2, i),
    decreases groups.len() - i,
{
    if i < groups.len() && !group_matches_token(groups[i], t1) {
        lemma_first_exact_same(groups, t1, t2, i + 1);
    }
}

/// Two tokens that match exactly the same groups receive identical
/// decisions; in particular a group that names several agent tokens applies
/// its rules to each of them identically.
pub proof fn lemma_equivalent_tokens(
    groups: Seq<SpecGroup>,
    t1: Seq<char>,
    t2: Seq<char>,
    path: Seq<char>,
)
    requires
        forall|k: int|
            0 <= k < groups.len() ==> (group_matches_token(#[trigger] groups[k], t1)
                <==> group_matches_token(groups[k], t2)),
    ensures
        spec_decision(groups, t1, path) == spec_decision(groups, t2, path),
{
    lemma_first_exact_same(groups, t1, t2, 0);
}

/// A pattern without wildcards and without a final end anchor matches a path
/// exactly when it is a literal prefix of the path.
pub proof fn lemma_literal_pattern_is_prefix_test(pat: Seq<char>, path: Seq<char>)
    requires
        forall|i: int| 0 <= i < pat.len() ==> pat[i] != '*',
        pat.len() > 0 ==> pat.last() != '$',
    ensures
        pat_matches_from(pat, path) == pat.is_prefix_of(path),
    decreases pat.len(),
{
    if pat.len() == 0 {
        assert(pat.is_prefix_of(path));
    } else {
        if path.len() > 0 && pat[0] == path[0] {
            let p2 = pat.skip(1);
            let q2 = path.skip(1);
            assert(forall|i: int| 0 <= i < p2.len() ==> #[trigger] p2[i] == pat[i + 1]);
            assert(p2.len() > 0 ==> p2.last() == pat.last());
            lemma_literal_pattern_is_prefix_test(p2, q2);
            assert(pat.is_prefix_of(path) == p2.is_prefix_of(q2)) by {
                if p2.is_prefix_of(q2) {
                    assert forall|k: int| 0 <= k < pat.len() implies pat[k] == path[k] by {
                        if k >= 1 {
                            assert(pat[k] == p2[k - 1]);
                            assert(p2[k - 1] == q2[k - 1]);
                            assert(q2[k - 1] == path[k]);
                        }
                    }
                    assert(pat =~= path.subrange(0, pat.len() as int));
                }
                if pat.is_prefix_of(path) {
                    assert(p2 =~= q2.subrange(0, p2.len() as int));
                }
            }
        } else {
            assert(!pat.is_prefix_of(path));
        }
    }
}

proof fn lemma_empty_token_no_exact(groups: Seq<SpecGroup>, i: int)
    requires
        0 <= i,
    ensures
        first_exact_from(groups, Seq::empty(), i) == -1,
    decreases groups.len() - i,
{
    if i < groups.len() {
        lemma_empty_token_no_exact(groups, i + 1);
    }
}

/// The empty token matches no group exactly: its decision is the wildcard
/// group's (or allow, when there is none), whatever the groups hold.
pub proof fn lemma_empty_token_falls_to_wildcard(groups: Seq<SpecGroup>, path: Seq<char>)
    ensures
        spec_decision(groups, Seq::empty(), path) == {
            let w = first_wildcard_from(groups, 0);
            if w >= 0 {
                spec_rules_allow(groups[w].rules, path)
            } else {
                true
            }
        },
{
    lemma_empty_token_no_exact(groups, 0);
}

} // verus!
