use vstd::prelude::*;
use crate::types::AnalysisInput;

verus! {

/// Uses the number of changed files as a deterministic proxy for AST change.
pub struct AstMetricsPlugin;

impl AstMetricsPlugin {
    pub fn name(&self) -> (r: &'static str)
        ensures
            r@ == "ast_metrics"@,
    {
        "ast_metrics"
    }

    /// The metric's value: how many files changed.
    pub fn changed_file_count(&self, input: &AnalysisInput) -> (r: usize)
        ensures
            r == input.changed_files@.len(),
    {
        input.changed_files.len()
    }
}

} // verus!
