use vstd::prelude::*;

verus! {

/// Counters of the ingestion jobs.
#[derive(Debug, Default, Clone)]
pub struct JobMetrics {
    pub queue_depth: usize,
    pub promotion_lag_ms: u64,
    pub promoted_events: usize,
}

impl JobMetrics {
    pub fn record_enqueue(&mut self, depth: usize)
        ensures
            final(self).queue_depth == depth,
            final(self).promotion_lag_ms == old(self).promotion_lag_ms,
            final(self).promoted_events == old(self).promoted_events,
    {
        self.queue_depth = depth;
    }

    pub fn record_promotion_lag_ms(&mut self, lag_ms: u64)
        ensures
            final(self).promotion_lag_ms == lag_ms,
            final(self).queue_depth == old(self).queue_depth,
            final(self).promoted_events == old(self).promoted_events,
    {
        self.promotion_lag_ms = lag_ms;
    }

    /// Adds to the running count of promoted events.
    pub fn record_promoted_events(&mut self, count: usize)
        requires
            old(self).promoted_events + count <= usize::MAX,
        ensures
            final(self).promoted_events == old(self).promoted_events + count,
            final(self).queue_depth == old(self).queue_depth,
            final(self).promotion_lag_ms == old(self).promotion_lag_ms,
    {
        self.promoted_events = self.promoted_events + count;
    }
}

} // verus!
