use vstd::prelude::*;
use vstd::string::StringExecFns;
use crate::text::{all_ascii, ascii_lowercase, chars_of, lowercase_of, same_text, string_from_chars, to_lowercase, trim, trim_chars};

verus! {

/// A team's review policy and the scoring weights that go with it.
#[derive(Debug, Clone)]
pub struct TeamPolicyProfile<W> {
    pub team: String,
    pub label: String,
    pub approval_note: String,
    pub scoring_weights: W,
}

/// The known team policies, with a default for other teams.
#[derive(Debug, Clone)]
pub struct TeamPolicyCatalog<W> {
    default_profile: TeamPolicyProfile<W>,
    profiles: Vec<TeamPolicyProfile<W>>,
}

/// The first profile whose team is `team`.
pub open spec fn team_index<W>(profiles: Seq<TeamPolicyProfile<W>>, team: Seq<char>) -> Option<int>
    decreases profiles.len(),
{
    if profiles.len() == 0 {
        None
    } else if profiles[0].team@ == team {
        Some(0)
    } else {
        match team_index(profiles.drop_first(), team) {
            Some(i) => Some(i + 1),
            None => None,
        }
    }
}

/// A team name as profiles are keyed: trimmed and lowercased.
pub open spec fn team_key(team: Seq<char>) -> Seq<char> {
    lowercase_of(trim(team))
}

fn profile<W>(team: &str, label: &str, approval_note: &str, weights: W) -> (r: TeamPolicyProfile<W>)
    ensures
        r.team@ == team@,
        r.label@ == label@,
        r.approval_note@ == approval_note@,
        r.scoring_weights == weights,
{
    TeamPolicyProfile {
        team: String::from_str(team),
        label: String::from_str(label),
        approval_note: String::from_str(approval_note),
        scoring_weights: weights,
    }
}

impl<W> TeamPolicyCatalog<W> {
    /// The profile of teams that have none of their own.
    pub closed spec fn default_entry(&self) -> TeamPolicyProfile<W> {
        self.default_profile
    }

    /// The team profiles, in lookup order.
    pub closed spec fn entries(&self) -> Seq<TeamPolicyProfile<W>> {
        self.profiles@
    }

    /// The standard catalog: general delivery by default, and the security, frontend and
    /// platform teams, each with the weights given for it.
    pub fn with_weights(default_weights: W, security: W, frontend: W, platform: W) -> (r: Self)
        ensures
            r.default_entry().team@ == "default"@,
            r.default_entry().label@ == "General Delivery"@,
            r.default_entry().approval_note@ == "Balanced approval fidelity for mixed-release teams"@,
            r.default_entry().scoring_weights == default_weights,
            r.entries().len() == 3,
            r.entries()[0].team@ == "security"@,
            r.entries()[0].label@ == "Security Review"@,
            r.entries()[0].approval_note@
                == "Bias toward stronger approval fidelity and pipeline stability"@,
            r.entries()[0].scoring_weights == security,
            r.entries()[1].team@ == "frontend"@,
            r.entries()[1].label@ == "Frontend Delivery"@,
            r.entries()[1].approval_note@
                == "Favor coverage and PR velocity when UX changes are routine"@,
            r.entries()[1].scoring_weights == frontend,
            r.entries()[2].team@ == "platform"@,
            r.entries()[2].label@ == "Platform Reliability"@,
            r.entries()[2].approval_note@ == "Prioritize pipeline health and churn containment"@,
            r.entries()[2].scoring_weights == platform,
    {
        let mut profiles: Vec<TeamPolicyProfile<W>> = Vec::new();
        profiles.push(
            profile(
                "security",
                "Security Review",
                "Bias toward stronger approval fidelity and pipeline stability",
                security,
            ),
        );
        profiles.push(
            profile(
                "frontend",
                "Frontend Delivery",
                "Favor coverage and PR velocity when UX changes are routine",
                frontend,
            ),
        );
        profiles.push(
            profile(
                "platform",
                "Platform Reliability",
                "Prioritize pipeline health and churn containment",
                platform,
            ),
        );
        TeamPolicyCatalog {
            default_profile: profile(
                "default",
                "General Delivery",
                "Balanced approval fidelity for mixed-release teams",
                default_weights,
            ),
            profiles,
        }
    }

    /// The profile of a team, matched on its trimmed, lowercased name; the default profile
    /// where no team matches.
    pub fn resolve(&self, team: &str) -> (r: &TeamPolicyProfile<W>)
        ensures
            *r == match team_index(self.entries(), team_key(team@)) {
                Some(i) => self.entries()[i],
                None => self.default_entry(),
            },
            all_ascii(trim(team@)) ==> team_key(team@) == ascii_lowercase(trim(team@)),
    {
        let v = chars_of(team);
        let t = trim_chars(&v);
        let trimmed = string_from_chars(&t);
        let normalized = to_lowercase(trimmed.as_str());
        let ghost ps = self.profiles@;
        let mut i: usize = 0;
        assert(ps.skip(0) =~= ps);
        while i < self.profiles.len()
            invariant
                i <= ps.len(),
                ps == self.profiles@,
                normalized@ == team_key(team@),
                all_ascii(trim(team@)) ==> team_key(team@) == ascii_lowercase(trim(team@)),
                team_index(ps, normalized@) == match team_index(ps.skip(i as int), normalized@) {
                    Some(k) => Some(k + i),
                    None => None::<int>,
                },
            decreases self.profiles.len() - i,
        {
            assert(ps.skip(i as int)[0] == ps[i as int]);
            assert(ps.skip(i as int).drop_first() =~= ps.skip(i + 1));
            if same_text(self.profiles[i].team.as_str(), normalized.as_str()) {
                return &self.profiles[i];
            }
            i = i + 1;
        }
        &self.default_profile
    }
}

} // verus!
