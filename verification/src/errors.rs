use vstd::prelude::*;

verus! {

/// Errors of the analyzer.
#[derive(Debug, Clone, PartialEq, Eq)]
pub enum AnalyzerError {
    PermissionDenied(String),
    InvalidToken,
    Io(String),
    Db(String),
    Integrity(String),
    Git(String),
}

} // verus!
