use vstd::prelude::*;
use crate::text::{chars_of, count_matches, match_count, occurs_at};

verus! {

/// Estimates cyclomatic complexity from decision tokens.
pub struct ComplexityPlugin;

/// The tokens that each add a decision point.
pub open spec fn decision_tokens() -> Seq<Seq<char>> {
    seq!["if "@, "match "@, "for "@, "while "@, "&&"@, "||"@]
}

impl ComplexityPlugin {
    pub fn name(&self) -> (r: &'static str)
        ensures
            r@ == "complexity"@,
    {
        "complexity"
    }

    /// How often each decision token occurs in one file's contents, in the order of
    /// `decision_tokens`; the estimate is one plus their sum over the files.
    pub fn decision_point_counts(&self, contents: &str) -> (r: Vec<usize>)
        ensures
            r@.len() == decision_tokens().len(),
            forall|i: int| 0 <= i < r@.len() ==> r@[i] == match_count(contents@, decision_tokens()[i], 0),
            r@ == seq![
                match_count(contents@, "if "@, 0) as usize,
                match_count(contents@, "match "@, 0) as usize,
                match_count(contents@, "for "@, 0) as usize,
                match_count(contents@, "while "@, 0) as usize,
                match_count(contents@, "&&"@, 0) as usize,
                match_count(contents@, "||"@, 0) as usize,
            ],
    {
        proof {
            reveal_strlit("if ");
            reveal_strlit("match ");
            reveal_strlit("for ");
            reveal_strlit("while ");
            reveal_strlit("&&");
            reveal_strlit("||");
        }
        let v = chars_of(contents);
        let mut r: Vec<usize> = Vec::new();
        r.push(count_matches(&v, "if "));
        r.push(count_matches(&v, "match "));
        r.push(count_matches(&v, "for "));
        r.push(count_matches(&v, "while "));
        r.push(count_matches(&v, "&&"));
        r.push(count_matches(&v, "||"));
        r
    }
}

/// A token counts only where it occurs: in a text where `p` occurs at no position from `from`
/// on, it is counted zero times.
pub proof fn law_count_needs_an_occurrence(s: Seq<char>, p: Seq<char>, from: int)
    requires
        forall|i: int| from <= i ==> !occurs_at(s, p, i),
    ensures
        match_count(s, p, from) == 0,
    decreases s.len() + 1 - from,
{
    if p.len() == 0 || from < 0 || from + p.len() > s.len() {
    } else {
        law_count_needs_an_occurrence(s, p, from + 1);
    }
}

} // verus!
