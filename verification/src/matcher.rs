//! The match engine: extracts the matchable user-agent token, selects the
//! applicable rule group, and evaluates path rules with longest-match
//! precedence (ties favour Allow), `*` wildcards and the `$` end anchor.

use vstd::prelude::*;
use vstd::string::StrSliceExecFns;

use crate::chars::{chars_of, eq_ignore_case, eq_ignore_case_vec, is_agent_char};
use crate::policy::{PathRule, PolicyDocument, RuleGroup, RuleKind, SpecGroup, SpecRule};

verus! {

/// The matchable token of a user-agent string: its longest leading run of
/// ASCII letters, `-` and `_`.
pub open spec fn spec_token(s: Seq<char>) -> Seq<char>
    decreases s.len(),
{
    if s.len() > 0 && is_agent_char(s[0]) {
        seq![s[0]] + spec_token(s.skip(1))
    } else {
        Seq::empty()
    }
}

/// When every character before `e` is an agent character and the character
/// at `e` (if any) is not, the token is exactly the prefix of length `e`.
proof fn lemma_token_prefix(s: Seq<char>, e: int)
    requires
        0 <= e <= s.len(),
        forall|i: int| 0 <= i < e ==> is_agent_char(s[i]),
        e < s.len() ==> !is_agent_char(s[e]),
    ensures
        spec_token(s) == s.subrange(0, e),
    decreases e,
{
    if e == 0 {
        assert(spec_token(s) =~= s.subrange(0, 0));
    } else {
        let t = s.skip(1);
        assert(forall|i: int| 0 <= i < e - 1 ==> is_agent_char(#[trigger] t[i]));
        lemma_token_prefix(t, e - 1);
        assert(spec_token(s) =~= s.subrange(0, e));
    }
}

/// The token is the longest leading run of agent characters: a prefix of the
/// string, made of agent characters only, and ended by the string's end or
/// by its first character outside the set.
pub proof fn lemma_token_characterization(s: Seq<char>)
    ensures
        spec_token(s).is_prefix_of(s),
        forall|i: int| 0 <= i < spec_token(s).len() ==> is_agent_char(s[i]),
        spec_token(s).len() < s.len() ==> !is_agent_char(s[spec_token(s).len() as int]),
    decreases s.len(),
{
    if s.len() > 0 && is_agent_char(s[0]) {
        let rest = s.skip(1);
        lemma_token_characterization(rest);
        let t = spec_token(s);
        assert(t.len() == 1 + spec_token(rest).len());
        assert forall|k: int| 0 <= k < t.len() implies t[k] == s[k] by {
            if k >= 1 {
                assert(t[k] == spec_token(rest)[k - 1]);
                assert(spec_token(rest)[k - 1] == rest[k - 1]);
            }
        }
        assert(t =~= s.subrange(0, t.len() as int));
    }
}

/// Reduces a user-agent string to its matchable token, stopping at the
/// first character outside `[A-Za-z_-]`.
pub fn extract_user_agent(user_agent: &str) -> (token: &str)
    ensures
        token@ == spec_token(user_agent@),
{
    let n = user_agent.unicode_len();
    let mut e: usize = 0;
    while e < n && is_agent_char_exec(user_agent.get_char(e))
        invariant
            e <= n,
            n == user_agent@.len(),
            forall|i: int| 0 <= i < e ==> is_agent_char(user_agent@[i]),
        decreases n - e,
    {
        e = e + 1;
    }
    proof {
        lemma_token_prefix(user_agent@, e as int);
    }
    user_agent.substring_char(0, e)
}

/// Decides `is_agent_char` on one character.
pub fn is_agent_char_exec(c: char) -> (r: bool)
    ensures
        r == is_agent_char(c),
{
    let code = c as u32;
    (97 <= code && code <= 122) || (65 <= code && code <= 90) || c == '-' || c == '_'
}

/// Whether the pattern suffix `pat` matches the path suffix `path`: a prefix
/// match in which `*` matches any run of characters and a final `$` requires
/// the path to end exactly there.
pub open spec fn pat_matches_from(pat: Seq<char>, path: Seq<char>) -> bool
    decreases pat.len(), path.len(),
{
    if pat.len() == 0 {
        true
    } else if pat.len() == 1 && pat[0] == '$' {
        path.len() == 0
    } else if pat[0] == '*' {
        pat_matches_from(pat.skip(1), path) || (path.len() > 0 && pat_matches_from(
            pat,
            path.skip(1),
        ))
    } else {
        path.len() > 0 && pat[0] == path[0] && pat_matches_from(pat.skip(1), path.skip(1))
    }
}

/// Whether the whole pattern matches the path.
pub open spec fn pattern_matches(pattern: Seq<char>, path: Seq<char>) -> bool {
    pat_matches_from(pattern, path)
}

/// Decides `pat_matches_from` on the suffixes of `pat` and `path` that start
/// at `i` and `j`, by backtracking at each `*`; the cost grows with the
/// number of wildcards in the pattern, which real policies keep small.
pub fn pat_match_at(pat: &Vec<char>, path: &Vec<char>, i: usize, j: usize) -> (r: bool)
    requires
        i <= pat@.len(),
        j <= path@.len(),
    ensures
        r == pat_matches_from(pat@.skip(i as int), path@.skip(j as int)),
    decreases pat@.len() - i, path@.len() - j,
{
    let ghost ps = pat@.skip(i as int);
    let ghost qs = path@.skip(j as int);
    if i == pat.len() {
        true
    } else if i + 1 == pat.len() && pat[i] == '$' {
        proof {
            assert(ps.len() == 1 && ps[0] == '$');
        }
        j == path.len()
    } else if pat[i] == '*' {
        proof {
            assert(ps[0] == '*');
            assert(pat@.skip(i + 1 as int) =~= ps.skip(1));
        }
        if pat_match_at(pat, path, i + 1, j) {
            true
        } else if j < path.len() {
            proof {
                assert(path@.skip(j + 1 as int) =~= qs.skip(1));
            }
            pat_match_at(pat, path, i, j + 1)
        } else {
            false
        }
    } else {
        proof {
            assert(ps[0] == pat@[i as int]);
            assert(!(ps.len() == 1 && ps[0] == '$'));
            assert(pat@.skip(i + 1 as int) =~= ps.skip(1));
            if j < path.len() {
                assert(qs[0] == path@[j as int]);
                assert(path@.skip(j + 1 as int) =~= qs.skip(1));
            }
        }
        if j < path.len() && pat[i] == path[j] {
            pat_match_at(pat, path, i + 1, j + 1)
        } else {
            false
        }
    }
}

/// Whether a rule applies to a path. An empty `Disallow` pattern is a
/// universal-allow sentinel: it disallows nothing and never applies.
pub open spec fn rule_matches(r: SpecRule, path: Seq<char>) -> bool {
    &&& pattern_matches(r.pattern, path)
    &&& !(r.kind is Disallow && r.pattern.len() == 0)
}

/// The decision of one rule list for a path: access is allowed when every
/// applicable Disallow rule is outweighed by an applicable Allow rule whose
/// pattern is at least as long (longest match wins; equal lengths favour
/// Allow; no applicable rule at all means allow).
pub open spec fn spec_rules_allow(rules: Seq<SpecRule>, path: Seq<char>) -> bool {
    forall|i: int|
        0 <= i < rules.len() && rules[i].kind is Disallow && rule_matches(
            #[trigger] rules[i],
            path,
        ) ==> exists|j: int|
            0 <= j < rules.len() && rules[j].kind is Allow && rule_matches(
                #[trigger] rules[j],
                path,
            ) && rules[j].pattern.len() >= rules[i].pattern.len()
}

/// Decides `rule_matches` on one rule.
pub fn rule_match_exec(r: &PathRule, path: &Vec<char>) -> (b: bool)
    ensures
        b == rule_matches(r@, path@),
{
    if r.pattern.len() == 0 && matches!(r.kind, RuleKind::Disallow) {
        false
    } else {
        proof {
            assert(r.pattern@.skip(0) =~= r.pattern@);
            assert(path@.skip(0) =~= path@);
        }
        pat_match_at(&r.pattern, path, 0, 0)
    }
}

/// Evaluates every rule against the path and resolves by longest pattern,
/// ties in favour of Allow.
pub fn rules_decision(rules: &Vec<PathRule>, path: &Vec<char>) -> (r: bool)
    ensures
        r == spec_rules_allow(rules.deep_view(), path@),
{
    let ghost rs = rules.deep_view();
    let mut has_allow: bool = false;
    let mut best_allow: usize = 0;
    let mut has_dis: bool = false;
    let mut best_dis: usize = 0;
    let mut i: usize = 0;
    while i < rules.len()
        invariant
            i <= rules@.len(),
            rs == rules.deep_view(),
            rs.len() == rules@.len(),
            has_allow ==> exists|k: int|
                0 <= k < i && rs[k].kind is Allow && rule_matches(#[trigger] rs[k], path@)
                    && rs[k].pattern.len() == best_allow,
            forall|k: int|
                0 <= k < i && rs[k].kind is Allow && rule_matches(#[trigger] rs[k], path@)
                    ==> has_allow && rs[k].pattern.len() <= best_allow,
            has_dis ==> exists|k: int|
                0 <= k < i && rs[k].kind is Disallow && rule_matches(#[trigger] rs[k], path@)
                    && rs[k].pattern.len() == best_dis,
            forall|k: int|
                0 <= k < i && rs[k].kind is Disallow && rule_matches(#[trigger] rs[k], path@)
                    ==> has_dis && rs[k].pattern.len() <= best_dis,
        decreases rules@.len() - i,
    {
        proof {
            assert(rs[i as int] == rules@[i as int]@);
        }
        let m = rule_match_exec(&rules[i], path);
        if m {
            let len = rules[i].pattern.len();
            if matches!(rules[i].kind, RuleKind::Allow) {
                if !has_allow || len > best_allow {
                    has_allow = true;
                    best_allow = len;
                }
            } else {
                if !has_dis || len > best_dis {
                    has_dis = true;
                    best_dis = len;
                }
            }
        }
        i = i + 1;
    }
    if !has_dis {
        true
    } else if has_allow && best_allow >= best_dis {
        proof {
            assert forall|k: int|
                0 <= k < rs.len() && rs[k].kind is Disallow && rule_matches(
                    #[trigger] rs[k],
                    path@,
                ) implies exists|j: int|
                0 <= j < rs.len() && rs[j].kind is Allow && rule_matches(#[trigger] rs[j], path@)
                    && rs[j].pattern.len() >= rs[k].pattern.len() by {
                let j = choose|j: int|
                    0 <= j < rs.len() && rs[j].kind is Allow && rule_matches(
                        #[trigger] rs[j],
                        path@,
                    ) && rs[j].pattern.len() == best_allow;
                assert(rs[j].pattern.len() >= rs[k].pattern.len());
            }
        }
        true
    } else {
        proof {
            let k0 = choose|k: int|
                0 <= k < rs.len() && rs[k].kind is Disallow && rule_matches(
                    #[trigger] rs[k],
                    path@,
                ) && rs[k].pattern.len() == best_dis;
            assert(!spec_rules_allow(rs, path@)) by {
                if exists|j: int|
                    0 <= j < rs.len() && rs[j].kind is Allow && rule_matches(
                        #[trigger] rs[j],
                        path@,
                    ) && rs[j].pattern.len() >= rs[k0].pattern.len() {
                    let j0 = choose|j: int|
                        0 <= j < rs.len() && rs[j].kind is Allow && rule_matches(
                            #[trigger] rs[j],
                            path@,
                        ) && rs[j].pattern.len() >= rs[k0].pattern.len();
                    assert(rs[j0].pattern.len() <= best_allow && has_allow);
                    assert(false);
                }
            }
        }
        false
    }
}

/// The wildcard user-agent token `*`.
pub open spec fn wildcard_agent() -> Seq<char> {
    seq!['*']
}

/// Whether a group names the extracted token, case-insensitively. The empty
/// token matches no group exactly.
pub open spec fn group_matches_token(g: SpecGroup, token: Seq<char>) -> bool {
    token.len() > 0 && exists|i: int|
        0 <= i < g.agents.len() && eq_ignore_case(#[trigger] g.agents[i], token)
}

/// Whether a group names the wildcard token `*`.
pub open spec fn group_is_wildcard(g: SpecGroup) -> bool {
    exists|i: int| 0 <= i < g.agents.len() && #[trigger] g.agents[i] == wildcard_agent()
}

/// The first group index at or after `i` whose agents name the token, or -1.
pub open spec fn first_exact_from(groups: Seq<SpecGroup>, token: Seq<char>, i: int) -> int
    decreases groups.len() - i,
{
    if i >= groups.len() {
        -1
    } else if group_matches_token(groups[i], token) {
        i
    } else {
        first_exact_from(groups, token, i + 1)
    }
}

/// The first group index at or after `i` whose agents name `*`, or -1.
pub open spec fn first_wildcard_from(groups: Seq<SpecGroup>, i: int) -> int
    decreases groups.len() - i,
{
    if i >= groups.len() {
        -1
    } else if group_is_wildcard(groups[i]) {
        i
    } else {
        first_wildcard_from(groups, i + 1)
    }
}

/// The decision for an already-extracted token: the first group naming the
/// token exactly decides; failing that, the first wildcard group; failing
/// that, access is allowed.
pub open spec fn spec_decision(groups: Seq<SpecGroup>, token: Seq<char>, path: Seq<char>) -> bool {
    let e = first_exact_from(groups, token, 0);
    let w = first_wildcard_from(groups, 0);
    if e >= 0 {
        spec_rules_allow(groups[e].rules, path)
    } else if w >= 0 {
        spec_rules_allow(groups[w].rules, path)
    } else {
        true
    }
}

/// The decision for a raw user-agent string and a path.
pub open spec fn spec_is_allowed(groups: Seq<SpecGroup>, user_agent: Seq<char>, path: Seq<char>) -> bool {
    spec_decision(groups, spec_token(user_agent), path)
}

/// Decides `group_matches_token` on one group.
pub fn group_matches_exec(g: &RuleGroup, token: &Vec<char>) -> (r: bool)
    ensures
        r == group_matches_token(g@, token@),
{
    if token.len() == 0 {
        return false;
    }
    let mut k: usize = 0;
    while k < g.agents.len()
        invariant
            k <= g.agents@.len(),
            forall|m: int| 0 <= m < k ==> !eq_ignore_case(#[trigger] g@.agents[m], token@),
            g@.agents.len() == g.agents@.len(),
            token@.len() > 0,
        decreases g.agents@.len() - k,
    {
        proof {
            assert(g@.agents[k as int] == g.agents@[k as int]@);
        }
        if eq_ignore_case_vec(&g.agents[k], token) {
            return true;
        }
        k = k + 1;
    }
    false
}

/// Decides `group_is_wildcard` on one group.
pub fn group_wildcard_exec(g: &RuleGroup) -> (r: bool)
    ensures
        r == group_is_wildcard(g@),
{
    let mut k: usize = 0;
    while k < g.agents.len()
        invariant
            k <= g.agents@.len(),
            forall|m: int| 0 <= m < k ==> #[trigger] g@.agents[m] != wildcard_agent(),
            g@.agents.len() == g.agents@.len(),
        decreases g.agents@.len() - k,
    {
        proof {
            assert(g@.agents[k as int] == g.agents@[k as int]@);
        }
        let a = &g.agents[k];
        if a.len() == 1 && a[0] == '*' {
            proof {
                assert(g@.agents[k as int] =~= wildcard_agent());
            }
            return true;
        }
        proof {
            if g@.agents[k as int] == wildcard_agent() {
                assert(g.agents@[k as int]@.len() == 1);
                assert(g.agents@[k as int]@[0] == '*');
                assert(false);
            }
        }
        k = k + 1;
    }
    false
}

impl PolicyDocument {
    /// Decides, for a raw user-agent string and a request path, whether this
    /// policy permits access.
    pub fn is_allowed(&self, user_agent: &str, path: &str) -> (r: bool)
        ensures
            r == spec_is_allowed(self@, user_agent@, path@),
    {
        let token_str = extract_user_agent(user_agent);
        let token = chars_of(token_str);
        let path_chars = chars_of(path);
        let ghost gs = self@;
        let ghost tk = token@;
        let n = self.groups.len();
        let mut e: usize = 0;
        while e < n
            invariant
                e <= n,
                n == self.groups@.len(),
                gs == self@,
                gs.len() == n,
                tk == token@,
                tk == spec_token(user_agent@),
                path_chars@ == path@,
                first_exact_from(gs, tk, 0) == first_exact_from(gs, tk, e as int),
            decreases n - e,
        {
            proof {
                assert(gs[e as int] == self.groups@[e as int]@);
            }
            if group_matches_exec(&self.groups[e], &token) {
                proof {
                    assert(first_exact_from(gs, tk, e as int) == e);
                    assert(spec_is_allowed(gs, user_agent@, path@) == spec_rules_allow(
                        gs[e as int].rules,
                        path@,
                    ));
                }
                return rules_decision(&self.groups[e].rules, &path_chars);
            }
            e = e + 1;
        }
        proof {
            assert(first_exact_from(gs, tk, 0) == -1);
        }
        let mut w: usize = 0;
        while w < n
            invariant
                w <= n,
                n == self.groups@.len(),
                gs == self@,
                gs.len() == n,
                tk == token@,
                tk == spec_token(user_agent@),
                path_chars@ == path@,
                first_exact_from(gs, tk, 0) == -1,
                first_wildcard_from(gs, 0) == first_wildcard_from(gs, w as int),
            decreases n - w,
        {
            proof {
                assert(gs[w as int] == self.groups@[w as int]@);
            }
            if group_wildcard_exec(&self.groups[w]) {
                proof {
                    assert(first_wildcard_from(gs, w as int) == w);
                    assert(spec_is_allowed(gs, user_agent@, path@) == spec_rules_allow(
                        gs[w as int].rules,
                        path@,
                    ));
                }
                return rules_decision(&self.groups[w].rules, &path_chars);
            }
            w = w + 1;
        }
        proof {
            assert(first_wildcard_from(gs, 0) == -1);
        }
        true
    }
}

} // verus!
