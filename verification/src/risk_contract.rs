use vstd::prelude::*;

verus! {

/// The merge decision for a pull request.
#[derive(Debug, Clone, Copy, PartialEq, Eq)]
pub enum PrRiskDecision {
    Allow,
    Review,
    Block,
}

/// The risk tier and the review a decision calls for.
pub open spec fn tier_of(decision: PrRiskDecision) -> (Seq<char>, Seq<char>) {
    match decision {
        PrRiskDecision::Allow => ("low"@, "none"@),
        PrRiskDecision::Review => ("medium"@, "human-review"@),
        PrRiskDecision::Block => ("high"@, "security-review"@),
    }
}

/// The risk tier and the review requirement of a decision.
pub fn risk_tier(decision: PrRiskDecision) -> (r: (&'static str, &'static str))
    ensures
        (r.0@, r.1@) == tier_of(decision),
{
    match decision {
        PrRiskDecision::Allow => ("low", "none"),
        PrRiskDecision::Review => ("medium", "human-review"),
        PrRiskDecision::Block => ("high", "security-review"),
    }
}

} // verus!
