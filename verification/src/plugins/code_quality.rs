use vstd::prelude::*;
use crate::text::{chars_of, count_matches, match_count};

verus! {

/// Counts `TODO` markers as a lint-hygiene signal.
pub struct CodeQualityPlugin;

impl CodeQualityPlugin {
    pub fn name(&self) -> (r: &'static str)
        ensures
            r@ == "code_quality"@,
    {
        "code_quality"
    }

    /// The `TODO` markers in one file's contents.
    pub fn todo_markers(&self, contents: &str) -> (r: usize)
        ensures
            r == match_count(contents@, "TODO"@, 0),
    {
        proof {
            reveal_strlit("TODO");
        }
        let v = chars_of(contents);
        count_matches(&v, "TODO")
    }
}

} // verus!
