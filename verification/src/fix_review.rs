use vstd::prelude::*;
use vstd::string::StringExecFns;
use crate::text::{append_joined, chars_of, join_with, string_from_chars, string_views};

verus! {

/// A fix attempt to be judged.
#[derive(Debug, Clone, PartialEq)]
pub struct VerifierInput {
    pub issues: Vec<String>,
    pub test_evidence: Vec<String>,
    pub attempts: u32,
    pub attempt_cap: u32,
}

/// The verdict on a fix attempt.
#[derive(Debug, Clone, PartialEq)]
pub struct VerifierReport {
    pub decision: String,
    pub can_approve: bool,
    pub reason: String,
}

/// Escalates once the attempt cap is reached; otherwise approves only a one-problem fix that
/// comes with test evidence.
pub fn review_fix_attempt(input: VerifierInput) -> (r: VerifierReport)
    ensures
        input.attempts >= input.attempt_cap ==> r.decision@ == "escalate"@ && !r.can_approve
            && r.reason@ == "attempt cap reached; escalate with full context"@,
        input.attempts < input.attempt_cap && input.issues@.len() != 1 ==> r.decision@
            == "reject"@ && !r.can_approve && r.reason@ == "one-problem diff required"@,
        input.attempts < input.attempt_cap && input.issues@.len() == 1
            && input.test_evidence@.len() == 0 ==> r.decision@ == "reject"@ && !r.can_approve
            && r.reason@ == "test evidence required to approve"@,
        input.attempts < input.attempt_cap && input.issues@.len() == 1
            && input.test_evidence@.len() > 0 ==> r.decision@ == "approve"@ && r.can_approve
            && r.reason@ == "one-problem diff approved with test evidence: "@ + join_with(
            string_views(input.test_evidence@),
            ", "@,
        ),
{
    if input.attempts >= input.attempt_cap {
        return VerifierReport {
            decision: String::from_str("escalate"),
            can_approve: false,
            reason: String::from_str("attempt cap reached; escalate with full context"),
        };
    }
    if input.issues.len() != 1 {
        return VerifierReport {
            decision: String::from_str("reject"),
            can_approve: false,
            reason: String::from_str("one-problem diff required"),
        };
    }
    if input.test_evidence.len() == 0 {
        return VerifierReport {
            decision: String::from_str("reject"),
            can_approve: false,
            reason: String::from_str("test evidence required to approve"),
        };
    }
    let mut reason = chars_of("one-problem diff approved with test evidence: ");
    append_joined(&mut reason, &input.test_evidence, ", ");
    VerifierReport {
        decision: String::from_str("approve"),
        can_approve: true,
        reason: string_from_chars(&reason),
    }
}

} // verus!
