//! A robots-exclusion decision engine: parses a robots.txt-style policy
//! document into rule groups and decides, per (user-agent, path) request,
//! whether access is permitted, with longest-match precedence, `*`
//! wildcards, `$` end anchors, and most-specific group selection.

pub mod chars;
pub mod laws;
pub mod matcher;
pub mod parser;
pub mod policy;

use vstd::prelude::*;

use crate::chars::{chars_of, eq_chars_vec};
use crate::matcher::spec_is_allowed;
use crate::parser::{lemma_parse_wf, parse_chars, spec_parse};
use crate::policy::{doc_wf, PolicyDocument};

verus! {

/// The well-known request path of the policy document itself.
pub open spec fn well_known_path() -> Seq<char> {
    seq!['/', 'r', 'o', 'b', 'o', 't', 's', '.', 't', 'x', 't']
}

/// The collaborator-level decision for a request: the policy document's own
/// path is always permitted, so crawlers can retrieve the policy regardless
/// of what it says; every other path is decided by the parsed policy.
pub open spec fn spec_allow_access(
    text: Seq<char>,
    user_agent: Seq<char>,
    path: Seq<char>,
) -> bool {
    if path == well_known_path() {
        true
    } else {
        spec_is_allowed(spec_parse(text), user_agent, path)
    }
}

/// Parses policy text into an immutable document. Never fails: malformed
/// input degrades to fewer rules, and every parsed group is well formed.
pub fn parse(text: &str) -> (doc: PolicyDocument)
    ensures
        doc@ == spec_parse(text@),
        doc_wf(doc@),
{
    let text_chars = chars_of(text);
    let doc = parse_chars(&text_chars);
    proof {
        lemma_parse_wf(text@);
    }
    doc
}

/// Decides whether `path` is the well-known policy path.
fn path_is_well_known(path: &Vec<char>) -> (r: bool)
    ensures
        r == (path@ == well_known_path()),
{
    let w: Vec<char> = vec!['/', 'r', 'o', 'b', 'o', 't', 's', '.', 't', 'x', 't'];
    proof {
        assert(w@ =~= well_known_path());
    }
    eq_chars_vec(path, &w)
}

/// Decides whether the user agent may access the path under the given
/// policy text: the policy document's own path is always permitted, and
/// otherwise the text is parsed and the match engine decides.
pub fn allow_access(robots_txt_contents: &str, user_agent: &str, path: &str) -> (r: bool)
    ensures
        r == spec_allow_access(robots_txt_contents@, user_agent@, path@),
{
    let path_chars = chars_of(path);
    if path_is_well_known(&path_chars) {
        true
    } else {
        let doc = parse(robots_txt_contents);
        doc.is_allowed(user_agent, path)
    }
}

/// Something that decides, per user agent and path, whether access is
/// permitted.
pub trait AccessController {
    /// The decision this controller makes.
    spec fn spec_allow(&self, user_agent: Seq<char>, path: Seq<char>) -> bool;

    /// Decides whether the user agent may access the path.
    fn allow(&self, user_agent: &str, path: &str) -> (r: bool)
        ensures
            r == self.spec_allow(user_agent@, path@),
    ;
}

impl AccessController for PolicyDocument {
    open spec fn spec_allow(&self, user_agent: Seq<char>, path: Seq<char>) -> bool {
        spec_is_allowed(self@, user_agent, path)
    }

    fn allow(&self, user_agent: &str, path: &str) -> (r: bool) {
        self.is_allowed(user_agent, path)
    }
}

} // verus!
