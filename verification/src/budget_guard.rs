use vstd::prelude::*;

verus! {

/// Decides whether an automated run may go on, given the budget spent and pause requests.
#[derive(Debug, Default, Clone, Copy, PartialEq, Eq)]
pub struct BudgetGuard;

#[derive(Debug, Clone, Copy, PartialEq, Eq)]
pub enum BudgetDecision {
    Continue,
    ReportOnly,
    Stop(StopReason),
}

#[derive(Debug, Clone, Copy, PartialEq, Eq)]
pub enum StopReason {
    BudgetExceeded,
    Paused,
}

impl BudgetGuard {
    pub const REPORT_ONLY_THRESHOLD: u8 = 80;

    pub const HARD_STOP_THRESHOLD: u8 = 100;

    /// A pause stops the run; at 100% of the budget it stops, from 80% it only reports.
    pub fn evaluate(&self, budget_percent: u8, pause_requested: bool) -> (r: BudgetDecision)
        ensures
            r == (if pause_requested {
                BudgetDecision::Stop(StopReason::Paused)
            } else if budget_percent >= 100 {
                BudgetDecision::Stop(StopReason::BudgetExceeded)
            } else if budget_percent >= 80 {
                BudgetDecision::ReportOnly
            } else {
                BudgetDecision::Continue
            }),
    {
        if pause_requested {
            return BudgetDecision::Stop(StopReason::Paused);
        }
        if budget_percent >= Self::HARD_STOP_THRESHOLD {
            return BudgetDecision::Stop(StopReason::BudgetExceeded);
        }
        if budget_percent >= Self::REPORT_ONLY_THRESHOLD {
            return BudgetDecision::ReportOnly;
        }
        BudgetDecision::Continue
    }
}

} // verus!
