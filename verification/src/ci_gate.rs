use vstd::prelude::*;
use vstd::string::StringExecFns;
use crate::risk_contract::PrRiskDecision;
use crate::text::{append_joined, append_str, chars_of, join_with, string_from_chars, string_views};

verus! {

/// The comment a CI gate posts on a pull request.
#[derive(Debug, Clone, PartialEq, Eq)]
pub struct CiGateComment {
    pub schema_version: String,
    pub pr_id: String,
    pub repo_name: String,
    pub decision: String,
    pub review_requirement: String,
    pub should_block_merge: bool,
    pub summary: String,
    pub body: String,
}

/// The label a decision is shown with, and its lowercase form.
pub open spec fn decision_label(decision: PrRiskDecision) -> (Seq<char>, Seq<char>) {
    match decision {
        PrRiskDecision::Allow => ("Allow merge"@, "allow merge"@),
        PrRiskDecision::Review => ("Review required"@, "review required"@),
        PrRiskDecision::Block => ("Block merge"@, "block merge"@),
    }
}

/// The one-line summary of a gate comment.
pub open spec fn gate_summary(schema_version: Seq<char>, decision: PrRiskDecision, review_requirement: Seq<char>, score: Seq<char>) -> Seq<char> {
    schema_version + " | "@ + decision_label(decision).1 + " | "@ + review_requirement + " | "@
        + score
}

/// The markdown body of a gate comment.
pub open spec fn gate_body(
    schema_version: Seq<char>,
    repo_name: Seq<char>,
    pr_id: Seq<char>,
    decision: PrRiskDecision,
    tier: Seq<char>,
    review_requirement: Seq<char>,
    score: Seq<char>,
    reason_codes: Seq<Seq<char>>,
) -> Seq<char> {
    "## PR Risk Gate\n- Schema: "@ + schema_version + "\n- PR: "@ + repo_name + "/"@ + pr_id
        + "\n- Decision: "@ + decision_label(decision).0 + "\n- Tier: "@ + tier
        + "\n- Review requirement: "@ + review_requirement + "\n- Risk score: "@ + score
        + "\n- Reason codes:\n  - "@ + join_with(reason_codes, "\n  - "@)
}

fn labels(decision: PrRiskDecision) -> (r: (&'static str, &'static str))
    ensures
        (r.0@, r.1@) == decision_label(decision),
{
    match decision {
        PrRiskDecision::Allow => ("Allow merge", "allow merge"),
        PrRiskDecision::Review => ("Review required", "review required"),
        PrRiskDecision::Block => ("Block merge", "block merge"),
    }
}

/// The comment a CI gate posts for a scored pull request; `risk_score` is the score's text,
/// with two decimals.
pub fn gate_comment(
    schema_version: &str,
    pr_id: &str,
    repo_name: &str,
    decision: PrRiskDecision,
    tier: &str,
    review_requirement: &str,
    risk_score: &str,
    reason_codes: &Vec<String>,
) -> (r: CiGateComment)
    ensures
        r.schema_version@ == schema_version@,
        r.pr_id@ == pr_id@,
        r.repo_name@ == repo_name@,
        r.decision@ == decision_label(decision).0,
        r.review_requirement@ == review_requirement@,
        r.should_block_merge == (decision == PrRiskDecision::Block),
        r.summary@ == gate_summary(schema_version@, decision, review_requirement@, risk_score@),
        r.body@ == gate_body(
            schema_version@,
            repo_name@,
            pr_id@,
            decision,
            tier@,
            review_requirement@,
            risk_score@,
            string_views(reason_codes@),
        ),
{
    let (label, lower) = labels(decision);
    let should_block_merge = match decision {
        PrRiskDecision::Block => true,
        _ => false,
    };
    let mut summary = chars_of(schema_version);
    append_str(&mut summary, " | ");
    append_str(&mut summary, lower);
    append_str(&mut summary, " | ");
    append_str(&mut summary, review_requirement);
    append_str(&mut summary, " | ");
    append_str(&mut summary, risk_score);
    let mut body = chars_of("## PR Risk Gate\n- Schema: ");
    append_str(&mut body, schema_version);
    append_str(&mut body, "\n- PR: ");
    append_str(&mut body, repo_name);
    append_str(&mut body, "/");
    append_str(&mut body, pr_id);
    append_str(&mut body, "\n- Decision: ");
    append_str(&mut body, label);
    append_str(&mut body, "\n- Tier: ");
    append_str(&mut body, tier);
    append_str(&mut body, "\n- Review requirement: ");
    append_str(&mut body, review_requirement);
    append_str(&mut body, "\n- Risk score: ");
    append_str(&mut body, risk_score);
    append_str(&mut body, "\n- Reason codes:\n  - ");
    append_joined(&mut body, reason_codes, "\n  - ");
    CiGateComment {
        schema_version: String::from_str(schema_version),
        pr_id: String::from_str(pr_id),
        repo_name: String::from_str(repo_name),
        decision: String::from_str(label),
        review_requirement: String::from_str(review_requirement),
        should_block_merge,
        summary: string_from_chars(&summary),
        body: string_from_chars(&body),
    }
}

} // verus!
