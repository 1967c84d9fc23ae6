use vstd::prelude::*;
use vstd::string::StringExecFns;

verus! {

/// One recorded piece of risk feedback, with the revision it created; `D` is the risk delta.
#[derive(Debug, Clone)]
pub struct RiskFeedbackEntry<D> {
    pub revision: u64,
    pub kind: String,
    pub actor: String,
    pub subject: String,
    pub note: String,
    pub risk_delta: D,
}

/// An entry as plain values.
pub open spec fn entry_view<D>(e: RiskFeedbackEntry<D>) -> (u64, Seq<char>, Seq<char>, Seq<char>, Seq<char>, D) {
    (e.revision, e.kind@, e.actor@, e.subject@, e.note@, e.risk_delta)
}

/// Entries as plain values.
pub open spec fn entry_views<D>(v: Seq<RiskFeedbackEntry<D>>) -> Seq<(u64, Seq<char>, Seq<char>, Seq<char>, Seq<char>, D)> {
    v.map_values(|e: RiskFeedbackEntry<D>| entry_view(e))
}

/// The revision a log ends at: that of its last entry, zero when it is empty.
pub open spec fn log_revision<D>(log: Seq<RiskFeedbackEntry<D>>) -> u64 {
    if log.len() == 0 {
        0
    } else {
        log.last().revision
    }
}

/// The risk feedback recorded so far, and the revision it has reached; cached risk
/// assessments are valid only for the current revision.
#[derive(Debug, Clone)]
pub struct RiskFeedbackStore<D> {
    revision: u64,
    audit_log: Vec<RiskFeedbackEntry<D>>,
}

fn copy_entry<D: Copy>(e: &RiskFeedbackEntry<D>) -> (r: RiskFeedbackEntry<D>)
    ensures
        entry_view(r) == entry_view(*e),
{
    RiskFeedbackEntry {
        revision: e.revision,
        kind: String::from_str(e.kind.as_str()),
        actor: String::from_str(e.actor.as_str()),
        subject: String::from_str(e.subject.as_str()),
        note: String::from_str(e.note.as_str()),
        risk_delta: e.risk_delta,
    }
}

impl<D: Copy> RiskFeedbackStore<D> {
    /// The current revision.
    pub closed spec fn revision(&self) -> u64 {
        self.revision
    }

    /// The recorded entries, oldest first.
    pub closed spec fn log(&self) -> Seq<RiskFeedbackEntry<D>> {
        self.audit_log@
    }

    /// The revision is that of the last entry (zero with none).
    pub open spec fn wf(&self) -> bool {
        self.revision() == log_revision(self.log())
    }

    /// A store with no feedback yet.
    pub fn new() -> (r: Self)
        ensures
            r.wf(),
            r.revision() == 0,
            r.log().len() == 0,
    {
        RiskFeedbackStore { revision: 0, audit_log: Vec::new() }
    }

    /// A store holding a log read back from disk; its revision is that of the last entry.
    pub fn from_log(audit_log: Vec<RiskFeedbackEntry<D>>) -> (r: Self)
        ensures
            r.wf(),
            r.log() == audit_log@,
    {
        let revision = if audit_log.len() == 0 {
            0
        } else {
            audit_log[audit_log.len() - 1].revision
        };
        RiskFeedbackStore { revision, audit_log }
    }

    pub fn current_revision(&self) -> (r: u64)
        ensures
            r == self.revision(),
    {
        self.revision
    }

    pub fn audit_log(&self) -> (r: &Vec<RiskFeedbackEntry<D>>)
        ensures
            r@ == self.log(),
    {
        &self.audit_log
    }

    /// A cached assessment is valid only if it was made at the current revision.
    pub fn is_cache_valid(&self, cached_revision: u64) -> (r: bool)
        ensures
            r == (cached_revision == self.revision()),
    {
        cached_revision == self.revision
    }

    fn record_feedback(&mut self, kind: &str, actor: &str, subject: &str, note: &str, risk_delta: D) -> (r: RiskFeedbackEntry<D>)
        requires
            old(self).revision() < u64::MAX,
        ensures
            final(self).revision() == old(self).revision() + 1,
            entry_view(r) == (final(self).revision(), kind@, actor@, subject@, note@, risk_delta),
            entry_views(final(self).log()) == entry_views(old(self).log()).push(entry_view(r)),
            old(self).wf() ==> final(self).wf(),
    {
        self.revision = self.revision + 1;
        let entry = RiskFeedbackEntry {
            revision: self.revision,
            kind: String::from_str(kind),
            actor: String::from_str(actor),
            subject: String::from_str(subject),
            note: String::from_str(note),
            risk_delta,
        };
        let out = copy_entry(&entry);
        self.audit_log.push(entry);
        proof {
            assert(entry_view(self.audit_log@.last()) == entry_view(out));
            assert(entry_views(self.audit_log@) =~= entry_views(old(self).log()).push(entry_view(out)));
        }
        out
    }

    /// Records an incident against a subject; the revision moves on, so earlier cached
    /// assessments stop being valid.
    pub fn record_incident(&mut self, actor: &str, subject: &str, note: &str, risk_delta: D) -> (r: RiskFeedbackEntry<D>)
        requires
            old(self).revision() < u64::MAX,
        ensures
            final(self).revision() == old(self).revision() + 1,
            entry_view(r) == (final(self).revision(), "incident"@, actor@, subject@, note@, risk_delta),
            entry_views(final(self).log()) == entry_views(old(self).log()).push(entry_view(r)),
            old(self).wf() ==> final(self).wf(),
    {
        self.record_feedback("incident", actor, subject, note, risk_delta)
    }

    /// Records an annotation on a subject; the revision moves on as for an incident.
    pub fn record_annotation(&mut self, actor: &str, subject: &str, note: &str, risk_delta: D) -> (r: RiskFeedbackEntry<D>)
        requires
            old(self).revision() < u64::MAX,
        ensures
            final(self).revision() == old(self).revision() + 1,
            entry_view(r) == (final(self).revision(), "annotation"@, actor@, subject@, note@, risk_delta),
            entry_views(final(self).log()) == entry_views(old(self).log()).push(entry_view(r)),
            old(self).wf() ==> final(self).wf(),
    {
        self.record_feedback("annotation", actor, subject, note, risk_delta)
    }
}

} // verus!
