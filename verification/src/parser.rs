//! The policy parser: splits raw policy text into lines, strips comments and
//! whitespace, classifies each line, and folds the lines into rule groups.
//! Malformed input never fails; unparseable lines are skipped.

use vstd::prelude::*;

use crate::chars::{chars_of, eq_ignore_case, eq_ignore_case_vec, find_char, find_from, sub_vec, trim_vec, trimmed};
use crate::policy::{doc_wf, group_wf, PathRule, PolicyDocument, RuleGroup, RuleKind, SpecGroup, SpecRule};

verus! {

/// The lines of `s`, split on `'\n'`; always at least one line.
pub open spec fn split_lines(s: Seq<char>) -> Seq<Seq<char>>
    decreases s.len(),
{
    if s.len() == 0 {
        seq![Seq::<char>::empty()]
    } else if s.last() == '\n' {
        split_lines(s.drop_last()).push(Seq::empty())
    } else {
        let r = split_lines(s.drop_last());
        r.update(r.len() - 1, r.last().push(s.last()))
    }
}

proof fn lemma_split_lines_len(s: Seq<char>)
    ensures
        split_lines(s).len() >= 1,
    decreases s.len(),
{
    if s.len() > 0 {
        lemma_split_lines_len(s.drop_last());
    }
}

/// The deep view of a character vector is its view.
proof fn lemma_char_vec_deep(v: Vec<char>)
    ensures
        v.deep_view() == v@,
{
    assert(v.deep_view() =~= v@);
}

/// Splits the text into its lines.
pub fn split_into_lines(text: &Vec<char>) -> (lines: Vec<Vec<char>>)
    ensures
        lines.deep_view() == split_lines(text@),
        lines@.len() >= 1,
{
    let mut lines: Vec<Vec<char>> = Vec::new();
    lines.push(Vec::new());
    proof {
        assert(text@.take(0) =~= Seq::<char>::empty());
        assert(lines.deep_view() =~~= split_lines(text@.take(0)));
    }
    let mut i: usize = 0;
    while i < text.len()
        invariant
            i <= text@.len(),
            lines@.len() >= 1,
            lines.deep_view() == split_lines(text@.take(i as int)),
        decreases text@.len() - i,
    {
        let ghost pre = text@.take(i as int);
        let ghost cur = text@.take(i + 1 as int);
        proof {
            assert(cur.drop_last() =~= pre);
            assert(cur.last() == text@[i as int]);
            assert(cur.len() > 0);
        }
        let c = text[i];
        if c == '\n' {
            let ghost before = lines.deep_view();
            lines.push(Vec::new());
            proof {
                assert(lines.deep_view() =~~= before.push(Seq::<char>::empty()));
            }
        } else {
            let ghost before = lines.deep_view();
            let mut row = lines.pop().unwrap();
            let ghost rowv = row@;
            proof {
                lemma_split_lines_len(pre);
                assert(before[before.len() - 1] == rowv) by {
                    lemma_char_vec_deep(row);
                }
            }
            row.push(c);
            lines.push(row);
            proof {
                assert(lines.deep_view() =~~= before.update(
                    before.len() - 1,
                    before.last().push(text@[i as int]),
                ));
            }
        }
        i = i + 1;
    }
    proof {
        assert(text@.take(text@.len() as int) =~= text@);
    }
    lines
}

/// The classification of one raw policy line.
pub enum LineKind {
    /// Blank or comment-only: ignored entirely.
    Blank,
    /// A `User-agent:` line with its non-empty token.
    Agent(Seq<char>),
    /// An `Allow:` or `Disallow:` line with its pattern, possibly empty.
    Directive(RuleKind, Seq<char>),
    /// Unrecognized or malformed: ignored, but it is content that separates
    /// one `User-agent:` block from the next.
    Other,
}

/// The executable classification of one raw policy line.
pub enum LineToken {
    Blank,
    Agent(Vec<char>),
    Directive(RuleKind, Vec<char>),
    Other,
}

impl View for LineToken {
    type V = LineKind;

    open spec fn view(&self) -> LineKind {
        match self {
            LineToken::Blank => LineKind::Blank,
            LineToken::Agent(t) => LineKind::Agent(t@),
            LineToken::Directive(k, p) => LineKind::Directive(*k, p@),
            LineToken::Other => LineKind::Other,
        }
    }
}

/// The `user-agent` directive key.
pub open spec fn agent_key() -> Seq<char> {
    seq!['u', 's', 'e', 'r', '-', 'a', 'g', 'e', 'n', 't']
}

/// The `allow` directive key.
pub open spec fn allow_key() -> Seq<char> {
    seq!['a', 'l', 'l', 'o', 'w']
}

/// The `disallow` directive key.
pub open spec fn disallow_key() -> Seq<char> {
    seq!['d', 'i', 's', 'a', 'l', 'l', 'o', 'w']
}

/// The line with its comment (`#` to end of line) removed.
pub open spec fn content_of(raw: Seq<char>) -> Seq<char> {
    raw.subrange(0, find_from(raw, '#', 0))
}

/// Classifies one raw line: strip the comment, trim, split at the first
/// colon, and compare the key case-insensitively with the directive names.
/// A `User-agent:` line with an empty token is malformed.
pub open spec fn classify(raw: Seq<char>) -> LineKind {
    let l = trimmed(content_of(raw));
    if l.len() == 0 {
        LineKind::Blank
    } else {
        let ci = find_from(l, ':', 0);
        if ci >= l.len() {
            LineKind::Other
        } else {
            let key = trimmed(l.subrange(0, ci));
            let val = trimmed(l.subrange(ci + 1, l.len() as int));
            if eq_ignore_case(key, agent_key()) {
                if val.len() > 0 {
                    LineKind::Agent(val)
                } else {
                    LineKind::Other
                }
            } else if eq_ignore_case(key, allow_key()) {
                LineKind::Directive(RuleKind::Allow, val)
            } else if eq_ignore_case(key, disallow_key()) {
                LineKind::Directive(RuleKind::Disallow, val)
            } else {
                LineKind::Other
            }
        }
    }
}

fn agent_key_vec() -> (v: Vec<char>)
    ensures
        v@ == agent_key(),
{
    let v: Vec<char> = vec!['u', 's', 'e', 'r', '-', 'a', 'g', 'e', 'n', 't'];
    proof {
        assert(v@ =~= agent_key());
    }
    v
}

fn allow_key_vec() -> (v: Vec<char>)
    ensures
        v@ == allow_key(),
{
    let v: Vec<char> = vec!['a', 'l', 'l', 'o', 'w'];
    proof {
        assert(v@ =~= allow_key());
    }
    v
}

fn disallow_key_vec() -> (v: Vec<char>)
    ensures
        v@ == disallow_key(),
{
    let v: Vec<char> = vec!['d', 'i', 's', 'a', 'l', 'l', 'o', 'w'];
    proof {
        assert(v@ =~= disallow_key());
    }
    v
}

/// Decides `classify` on one raw line.
pub fn classify_line(line: &Vec<char>) -> (t: LineToken)
    ensures
        t@ == classify(line@),
{
    let h = find_char(line, '#');
    let content = sub_vec(line, 0, h);
    let l = trim_vec(&content);
    if l.len() == 0 {
        return LineToken::Blank;
    }
    let ci = find_char(&l, ':');
    if ci == l.len() {
        return LineToken::Other;
    }
    let key_raw = sub_vec(&l, 0, ci);
    let key = trim_vec(&key_raw);
    let val_raw = sub_vec(&l, ci + 1, l.len());
    let val = trim_vec(&val_raw);
    if eq_ignore_case_vec(&key, &agent_key_vec()) {
        if val.len() > 0 {
            LineToken::Agent(val)
        } else {
            LineToken::Other
        }
    } else if eq_ignore_case_vec(&key, &allow_key_vec()) {
        LineToken::Directive(RuleKind::Allow, val)
    } else if eq_ignore_case_vec(&key, &disallow_key_vec()) {
        LineToken::Directive(RuleKind::Disallow, val)
    } else {
        LineToken::Other
    }
}

/// The parser's state after some prefix of the lines: the groups already
/// closed, the group still open (if any), and whether the last significant
/// line was a `User-agent:` line.
#[verifier::ext_equal]
pub struct ParseState {
    pub done: Seq<SpecGroup>,
    pub cur: Option<SpecGroup>,
    pub last_agent: bool,
}

/// The state before any line is read.
pub open spec fn init_state() -> ParseState {
    ParseState { done: Seq::empty(), cur: None, last_agent: false }
}

/// The groups of a state, with the open group closed.
pub open spec fn flush(st: ParseState) -> Seq<SpecGroup> {
    match st.cur {
        Some(g) => st.done.push(g),
        None => st.done,
    }
}

/// One step of the parser. A `User-agent:` line extends the open group when
/// it directly follows another such line, and otherwise starts a fresh
/// group; a directive appends a rule to the open group and is ignored before
/// any group exists; anything else at most breaks `User-agent:` adjacency.
pub open spec fn step(st: ParseState, raw: Seq<char>) -> ParseState {
    match classify(raw) {
        LineKind::Blank => st,
        LineKind::Other => ParseState { last_agent: false, ..st },
        LineKind::Agent(t) => {
            if st.last_agent && st.cur is Some {
                let g = st.cur->Some_0;
                ParseState {
                    done: st.done,
                    cur: Some(SpecGroup { agents: g.agents.push(t), rules: g.rules }),
                    last_agent: true,
                }
            } else {
                ParseState {
                    done: flush(st),
                    cur: Some(SpecGroup { agents: seq![t], rules: Seq::empty() }),
                    last_agent: true,
                }
            }
        },
        LineKind::Directive(k, p) => ParseState {
            done: st.done,
            cur: match st.cur {
                Some(g) => Some(
                    SpecGroup { agents: g.agents, rules: g.rules.push(SpecRule { kind: k, pattern: p }) },
                ),
                None => None,
            },
            last_agent: false,
        },
    }
}

/// The state after all the lines, in order.
pub open spec fn run_lines(st: ParseState, lines: Seq<Seq<char>>) -> ParseState
    decreases lines.len(),
{
    if lines.len() == 0 {
        st
    } else {
        run_lines(step(st, lines[0]), lines.skip(1))
    }
}

/// The groups that a policy text parses to.
pub open spec fn spec_parse(text: Seq<char>) -> Seq<SpecGroup> {
    flush(run_lines(init_state(), split_lines(text)))
}

proof fn lemma_run_unfold(st: ParseState, lines: Seq<Seq<char>>, i: int)
    requires
        0 <= i < lines.len(),
    ensures
        run_lines(st, lines.skip(i)) == run_lines(step(st, lines[i]), lines.skip(i + 1)),
{
    assert(lines.skip(i).len() == lines.len() - i);
    assert(lines.skip(i)[0] == lines[i]);
    assert(lines.skip(i).skip(1) =~= lines.skip(i + 1));
}

/// Assembles the parser's mathematical state from its executable pieces.
spec fn st_of(
    done: Seq<SpecGroup>,
    has_cur: bool,
    agents: Seq<Seq<char>>,
    rules: Seq<SpecRule>,
    last_agent: bool,
) -> ParseState {
    ParseState {
        done: done,
        cur: if has_cur {
            Some(SpecGroup { agents: agents, rules: rules })
        } else {
            None
        },
        last_agent: last_agent,
    }
}

/// Every group the state holds, closed or open, is well formed.
pub open spec fn state_wf(st: ParseState) -> bool {
    &&& doc_wf(st.done)
    &&& match st.cur {
        Some(g) => group_wf(g),
        None => true,
    }
}

proof fn lemma_flush_wf(st: ParseState)
    requires
        state_wf(st),
    ensures
        doc_wf(flush(st)),
{
    match st.cur {
        Some(g) => {
            assert forall|i: int| 0 <= i < flush(st).len() implies group_wf(
                #[trigger] flush(st)[i],
            ) by {
                if i < st.done.len() {
                    assert(group_wf(st.done[i]));
                }
            }
        },
        None => {},
    }
}

proof fn lemma_step_wf(st: ParseState, raw: Seq<char>)
    requires
        state_wf(st),
    ensures
        state_wf(step(st, raw)),
{
    match classify(raw) {
        LineKind::Agent(t) => {
            assert(t.len() > 0);
            if st.last_agent && st.cur is Some {
                let g = st.cur->Some_0;
                assert(forall|i: int|
                    0 <= i < g.agents.push(t).len() ==> #[trigger] g.agents.push(t)[i].len() >= 1);
            } else {
                lemma_flush_wf(st);
                assert(seq![t][0].len() >= 1);
            }
        },
        _ => {},
    }
}

proof fn lemma_run_wf(st: ParseState, lines: Seq<Seq<char>>)
    requires
        state_wf(st),
    ensures
        state_wf(run_lines(st, lines)),
    decreases lines.len(),
{
    if lines.len() > 0 {
        lemma_step_wf(st, lines[0]);
        lemma_run_wf(step(st, lines[0]), lines.skip(1));
    }
}

/// Whatever the text, every parsed group names at least one agent token and
/// no token is empty: malformed blocks are skipped, never emitted.
pub proof fn lemma_parse_wf(text: Seq<char>)
    ensures
        doc_wf(spec_parse(text)),
{
    lemma_run_wf(init_state(), split_lines(text));
    lemma_flush_wf(run_lines(init_state(), split_lines(text)));
}

/// Parses a policy character sequence into its rule groups.
pub fn parse_chars(text: &Vec<char>) -> (doc: PolicyDocument)
    ensures
        doc@ == spec_parse(text@),
{
    let lines = split_into_lines(text);
    let ghost ls = lines.deep_view();
    let mut done: Vec<RuleGroup> = Vec::new();
    let mut cur_agents: Vec<Vec<char>> = Vec::new();
    let mut cur_rules: Vec<PathRule> = Vec::new();
    let mut has_cur: bool = false;
    let mut last_agent: bool = false;
    let mut i: usize = 0;
    proof {
        assert(ls.skip(0) =~= ls);
        assert(st_of(done.deep_view(), has_cur, cur_agents.deep_view(), cur_rules.deep_view(), last_agent)
            =~~= init_state());
    }
    while i < lines.len()
        invariant
            i <= lines@.len(),
            ls == lines.deep_view(),
            ls == split_lines(text@),
            ls.len() == lines@.len(),
            !has_cur ==> cur_agents@.len() == 0 && cur_rules@.len() == 0,
            run_lines(init_state(), ls) == run_lines(
                st_of(
                    done.deep_view(),
                    has_cur,
                    cur_agents.deep_view(),
                    cur_rules.deep_view(),
                    last_agent,
                ),
                ls.skip(i as int),
            ),
        decreases lines@.len() - i,
    {
        let ghost st0 = st_of(
            done.deep_view(),
            has_cur,
            cur_agents.deep_view(),
            cur_rules.deep_view(),
            last_agent,
        );
        proof {
            lemma_char_vec_deep(lines@[i as int]);
            assert(ls[i as int] == lines@[i as int]@);
            lemma_run_unfold(st0, ls, i as int);
        }
        let tok = classify_line(&lines[i]);
        match tok {
            LineToken::Blank => {
                proof {
                    assert(step(st0, ls[i as int]) == st0);
                }
            },
            LineToken::Other => {
                last_agent = false;
                proof {
                    assert(st_of(
                        done.deep_view(),
                        has_cur,
                        cur_agents.deep_view(),
                        cur_rules.deep_view(),
                        last_agent,
                    ) =~~= step(st0, ls[i as int]));
                }
            },
            LineToken::Agent(t) => {
                let ghost tv = t@;
                if last_agent && has_cur {
                    let ghost before = cur_agents.deep_view();
                    cur_agents.push(t);
                    proof {
                        assert(cur_agents.deep_view() =~~= before.push(tv));
                        assert(st_of(
                            done.deep_view(),
                            has_cur,
                            cur_agents.deep_view(),
                            cur_rules.deep_view(),
                            true,
                        ) =~~= step(st0, ls[i as int]));
                    }
                } else {
                    if has_cur {
                        let ghost dv = done.deep_view();
                        let g = RuleGroup { agents: cur_agents, rules: cur_rules };
                        proof {
                            assert(g.deep_view() =~~= st0.cur->Some_0);
                        }
                        done.push(g);
                        proof {
                            assert(done.deep_view() =~~= dv.push(st0.cur->Some_0));
                            assert(done.deep_view() =~~= flush(st0));
                        }
                        cur_agents = Vec::new();
                        cur_rules = Vec::new();
                    } else {
                        proof {
                            assert(done.deep_view() =~~= flush(st0));
                        }
                    }
                    cur_agents.push(t);
                    has_cur = true;
                    proof {
                        assert(cur_agents.deep_view() =~~= seq![tv]);
                        assert(cur_rules.deep_view() =~~= Seq::<SpecRule>::empty());
                        assert(st_of(
                            done.deep_view(),
                            true,
                            cur_agents.deep_view(),
                            cur_rules.deep_view(),
                            true,
                        ) =~~= step(st0, ls[i as int]));
                    }
                }
                last_agent = true;
            },
            LineToken::Directive(k, p) => {
                let ghost pv = p@;
                if has_cur {
                    let ghost before = cur_rules.deep_view();
                    cur_rules.push(PathRule { kind: k, pattern: p });
                    proof {
                        assert(cur_rules.deep_view() =~~= before.push(
                            SpecRule { kind: k, pattern: pv },
                        ));
                    }
                }
                last_agent = false;
                proof {
                    assert(st_of(
                        done.deep_view(),
                        has_cur,
                        cur_agents.deep_view(),
                        cur_rules.deep_view(),
                        false,
                    ) =~~= step(st0, ls[i as int]));
                }
            },
        }
        i = i + 1;
    }
    proof {
        assert(ls.skip(ls.len() as int) =~= Seq::<Seq<char>>::empty());
    }
    if has_cur {
        let ghost dv = done.deep_view();
        let ghost gv = SpecGroup { agents: cur_agents.deep_view(), rules: cur_rules.deep_view() };
        let g = RuleGroup { agents: cur_agents, rules: cur_rules };
        done.push(g);
        proof {
            assert(done.deep_view() =~~= dv.push(gv));
        }
    }
    let doc = PolicyDocument { groups: done };
    proof {
        assert(doc@ =~~= spec_parse(text@));
    }
    doc
}

} // verus!
