use vstd::prelude::*;
use crate::text::{
    chars_of, count_containing, count_nonblank, nonblank_pieces, pieces_containing, split_pat,
    split_str,
};

verus! {

/// Measures how many recent commits carry an `Approved-by:` trailer.
pub struct PrApprovalPlugin;

/// The separator put after each commit message in the log.
pub open spec fn message_separator() -> Seq<char> {
    "----END----"@
}

impl PrApprovalPlugin {
    pub fn name(&self) -> (r: &'static str)
        ensures
            r@ == "pr_approval"@,
    {
        "pr_approval"
    }

    /// Splits the log at the separators and counts the messages that are not blank, and those
    /// that carry an `Approved-by:` trailer; the fidelity is the second over the first (one
    /// where there are none).
    pub fn approval_counts(&self, message_blob: &str) -> (r: (usize, usize))
        ensures
            r.0 == count_nonblank(split_pat(message_blob@, message_separator())),
            r.1 == count_containing(split_pat(message_blob@, message_separator()), "Approved-by:"@),
    {
        proof {
            reveal_strlit("----END----");
        }
        let v = chars_of(message_blob);
        let messages = split_str(&v, "----END----");
        (nonblank_pieces(&messages), pieces_containing(&messages, "Approved-by:"))
    }
}

} // verus!
