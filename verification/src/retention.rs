use vstd::prelude::*;

verus! {

/// Whether a raw event has outlived its time to live.
#[derive(Debug, Clone)]
pub struct RawRetentionDecision {
    ttl_secs: i64,
}

impl RawRetentionDecision {
    pub closed spec fn ttl(&self) -> i64 {
        self.ttl_secs
    }

    pub fn new(ttl_secs: i64) -> (r: Self)
        ensures
            r.ttl() == ttl_secs,
    {
        RawRetentionDecision { ttl_secs }
    }

    /// An event is pruned once more than the TTL has passed since it was recorded.
    pub fn should_prune(&self, event_ts: i64, now_ts: i64) -> (r: bool)
        requires
            i64::MIN <= now_ts - event_ts <= i64::MAX,
        ensures
            r == (now_ts - event_ts > self.ttl()),
    {
        now_ts - event_ts > self.ttl_secs
    }
}

} // verus!
