use vstd::prelude::*;
use vstd::string::StringExecFns;
use crate::text::{chars_of, copy_strings, decimal, push_decimal, string_from_chars, string_views};

verus! {

/// The rules fix proposals are held to.
#[derive(Debug, Clone, PartialEq, Eq)]
pub struct FixProposalContract {
    pub version: String,
    pub max_retries: u32,
}

impl Default for FixProposalContract {
    fn default() -> (r: Self)
        ensures
            r.version@ == "fix-proposal-v1"@,
            r.max_retries == 2,
    {
        FixProposalContract { version: String::from_str("fix-proposal-v1"), max_retries: 2 }
    }
}

/// A proposed fix for some issues.
#[derive(Debug, Clone, PartialEq, Eq)]
pub struct FixProposalSubmission {
    pub proposal_id: String,
    pub issue_ids: Vec<String>,
    pub remediation: String,
    pub retry_count: u32,
    pub context: Vec<String>,
}

/// The evaluation of a proposal against the contract.
#[derive(Debug, Clone, PartialEq, Eq)]
pub struct FixProposalEvaluation {
    pub schema_version: String,
    pub proposal_id: String,
    pub issue_count: usize,
    pub retry_count: u32,
    pub one_problem: bool,
    pub retry_cap_reached: bool,
    pub full_context_required: bool,
    pub escalation_context: Vec<String>,
    pub reason_codes: Vec<String>,
}

/// The reason codes of an evaluation: the counts, then a code for each rule the proposal
/// trips.
pub open spec fn fix_reason_codes(issue_count: nat, retry_count: nat, max_retries: nat) -> Seq<
    Seq<char>,
> {
    let base = seq![
        "issue_count="@ + decimal(issue_count),
        "retry_count="@ + decimal(retry_count),
        "retry_cap="@ + decimal(max_retries),
    ];
    let one = if issue_count != 1 { base.push("one_problem_required"@) } else { base };
    if retry_count >= max_retries {
        one.push("retry_cap_reached"@).push("full_context_required"@)
    } else {
        one
    }
}

fn labeled_number(label: &str, n: u64) -> (r: String)
    ensures
        r@ == label@ + decimal(n as nat),
{
    let mut out = chars_of(label);
    push_decimal(&mut out, n);
    string_from_chars(&out)
}

/// A proposal must fix one problem; at the retry cap it must escalate with its full context.
pub fn evaluate_fix_proposal(submission: &FixProposalSubmission, contract: &FixProposalContract) -> (r:
    FixProposalEvaluation)
    ensures
        r.schema_version@ == contract.version@,
        r.proposal_id@ == submission.proposal_id@,
        r.issue_count == submission.issue_ids@.len(),
        r.retry_count == submission.retry_count,
        r.one_problem == (submission.issue_ids@.len() == 1),
        r.retry_cap_reached == (submission.retry_count >= contract.max_retries),
        r.full_context_required == r.retry_cap_reached,
        string_views(r.escalation_context@) == (if r.full_context_required {
            string_views(submission.context@)
        } else {
            seq![]
        }),
        string_views(r.reason_codes@) == fix_reason_codes(
            submission.issue_ids@.len(),
            submission.retry_count as nat,
            contract.max_retries as nat,
        ),
{
    let issue_count = submission.issue_ids.len();
    let one_problem = issue_count == 1;
    let retry_cap_reached = submission.retry_count >= contract.max_retries;
    let full_context_required = retry_cap_reached;
    let escalation_context: Vec<String> = if full_context_required {
        copy_strings(&submission.context)
    } else {
        Vec::new()
    };
    assert(!full_context_required ==> string_views(escalation_context@) =~= Seq::<Seq<char>>::empty());
    let mut reason_codes: Vec<String> = Vec::new();
    reason_codes.push(labeled_number("issue_count=", issue_count as u64));
    reason_codes.push(labeled_number("retry_count=", submission.retry_count as u64));
    reason_codes.push(labeled_number("retry_cap=", contract.max_retries as u64));
    if !one_problem {
        reason_codes.push(String::from_str("one_problem_required"));
    }
    if retry_cap_reached {
        reason_codes.push(String::from_str("retry_cap_reached"));
    }
    if full_context_required {
        reason_codes.push(String::from_str("full_context_required"));
    }
    assert(string_views(reason_codes@) =~= fix_reason_codes(
        submission.issue_ids@.len(),
        submission.retry_count as nat,
        contract.max_retries as nat,
    ));
    FixProposalEvaluation {
        schema_version: String::from_str(contract.version.as_str()),
        proposal_id: String::from_str(submission.proposal_id.as_str()),
        issue_count,
        retry_count: submission.retry_count,
        one_problem,
        retry_cap_reached,
        full_context_required,
        escalation_context,
        reason_codes,
    }
}

} // verus!
