use vstd::prelude::*;
use vstd::string::StringExecFns;
use crate::assoc::{assoc_map, keys_unique, lemma_assoc_absent, lemma_assoc_last, lemma_assoc_update};
use crate::errors::AnalyzerError;
use crate::text::{append_str, chars_of, same_text, string_from_chars};

verus! {

/// Scoring weights of each team, by team name.
pub struct PolicyProfiles<W> {
    profiles: Vec<(String, W)>,
}

/// Profile entries with their team names as plain values.
pub open spec fn profile_views<W>(v: Seq<(String, W)>) -> Seq<(Seq<char>, W)> {
    v.map_values(|e: (String, W)| (e.0@, e.1))
}

impl<W> Default for PolicyProfiles<W> {
    fn default() -> (r: Self)
        ensures
            r.wf(),
            r.profiles() == Map::<Seq<char>, W>::empty(),
    {
        let r = PolicyProfiles { profiles: Vec::new() };
        assert(profile_views(r.profiles@) =~= seq![]);
        r
    }
}

impl<W> PolicyProfiles<W> {
    /// The weights of each team.
    pub closed spec fn profiles(&self) -> Map<Seq<char>, W> {
        assoc_map(profile_views(self.profiles@))
    }

    /// One entry per team.
    pub closed spec fn wf(&self) -> bool {
        keys_unique(profile_views(self.profiles@))
    }

    fn position_of(&self, team: &str) -> (r: Option<usize>)
        ensures
            match r {
                Some(i) => i < self.profiles@.len() && profile_views(self.profiles@)[i as int].0
                    == team@ && forall|j: int|
                    i < j < self.profiles@.len() ==> profile_views(self.profiles@)[j].0 != team@,
                None => forall|j: int|
                    0 <= j < self.profiles@.len() ==> profile_views(self.profiles@)[j].0 != team@,
            },
    {
        let ghost s = profile_views(self.profiles@);
        let mut i: usize = self.profiles.len();
        while i > 0
            invariant
                i <= self.profiles@.len(),
                s == profile_views(self.profiles@),
                forall|j: int| i <= j < s.len() ==> s[j].0 != team@,
            decreases i,
        {
            if same_text(self.profiles[i - 1].0.as_str(), team) {
                return Some(i - 1);
            }
            i = i - 1;
        }
        None
    }

    /// Sets the weights of a team, replacing any it had.
    pub fn insert(&mut self, team: String, weights: W)
        requires
            old(self).wf(),
        ensures
            final(self).wf(),
            final(self).profiles() == old(self).profiles().insert(team@, weights),
    {
        let ghost s = profile_views(self.profiles@);
        let ghost key = team@;
        match self.position_of(team.as_str()) {
            Some(idx) => {
                self.profiles.set(idx, (team, weights));
                proof {
                    assert(profile_views(self.profiles@) =~= s.update(idx as int, (key, weights)));
                    lemma_assoc_update(s, idx as int, weights);
                }
            },
            None => {
                proof {
                    lemma_assoc_absent(s, key);
                }
                self.profiles.push((team, weights));
                proof {
                    let t = profile_views(self.profiles@);
                    assert(t =~= s.push((key, weights)));
                    assert(t.drop_last() =~= s);
                    assert(keys_unique(t));
                }
            },
        }
    }

    /// The weights of a team, found by its exact name.
    pub fn resolve(&self, team: &str) -> (r: Result<&W, AnalyzerError>)
        ensures
            self.profiles().contains_key(team@) ==> (r matches Ok(w) && *w == self.profiles()[team@]),
            !self.profiles().contains_key(team@) ==> (r matches Err(AnalyzerError::Db(m)) && m@
                == "missing policy profile: "@ + team@),
    {
        let ghost s = profile_views(self.profiles@);
        match self.position_of(team) {
            Some(idx) => {
                proof {
                    lemma_assoc_last(s, team@, idx as int);
                }
                Ok(&self.profiles[idx].1)
            },
            None => {
                proof {
                    lemma_assoc_absent(s, team@);
                }
                let mut msg = chars_of("missing policy profile: ");
                append_str(&mut msg, team);
                Err(AnalyzerError::Db(string_from_chars(&msg)))
            },
        }
    }
}

} // verus!
