use vstd::prelude::*;
use vstd::string::StringExecFns;
use std::collections::hash_map::DefaultHasher;
use std::hash::{Hash, Hasher};
use crate::assoc::{assoc_map, keys_unique, lemma_assoc_absent, lemma_assoc_last, lemma_assoc_update};
use crate::text::same_text;

verus! {

/// Fingerprints of file contents, keyed by path, with a count of unchanged files seen again.
#[derive(Debug, Clone)]
pub struct AstCache {
    entries: Vec<(String, u64)>,
    hits: usize,
}

/// Cache entries as plain values.
pub open spec fn fingerprint_views(v: Seq<(String, u64)>) -> Seq<(Seq<char>, u64)> {
    v.map_values(|e: (String, u64)| (e.0@, e.1))
}

/// The hash that std's `DefaultHasher`, created by `new`, gives for a path and its contents
/// hashed together as a pair of `&str`. Every hasher made by `new` starts from the same fixed
/// keys, so the value depends on the two texts alone; which algorithm computes it is left open.
pub uninterp spec fn default_hash(path: Seq<char>, contents: Seq<char>) -> u64;

/// Hashes a path and its contents together with std's `DefaultHasher` (created by `new`). The
/// contract claims only that the result is the named hash of the two texts: equal texts give
/// equal hashes. Nothing is said of which value that is, nor that different texts differ.
#[verifier::external_body]
fn hash_value(path: &str, contents: &str) -> (r: u64)
    ensures
        r == default_hash(path@, contents@),
{
    let mut hasher = DefaultHasher::new();
    (path, contents).hash(&mut hasher);
    hasher.finish()
}

/// What fingerprinting `contents` at `path` does to a cache: it returns the hash of the two,
/// records it as the path's fingerprint, and counts a hit where the path already had it.
pub open spec fn fingerprint_call(
    before: AstCache,
    after: AstCache,
    path: Seq<char>,
    contents: Seq<char>,
    r: u64,
) -> bool {
    let h = default_hash(path, contents);
    &&& r == h
    &&& after.wf()
    &&& after.fingerprints() == before.fingerprints().insert(path, h)
    &&& after.hit_count() == before.hit_count() + (if before.fingerprints().contains_key(path)
        && before.fingerprints()[path] == h {
        1int
    } else {
        0int
    })
}

/// Fingerprinting the same contents at the same path twice in a row: the second call returns
/// the same fingerprint, leaves the fingerprints as they were, and counts one hit.
pub proof fn law_unchanged_contents_count_a_hit(
    c0: AstCache,
    c1: AstCache,
    c2: AstCache,
    path: Seq<char>,
    contents: Seq<char>,
    r1: u64,
    r2: u64,
)
    requires
        fingerprint_call(c0, c1, path, contents, r1),
        fingerprint_call(c1, c2, path, contents, r2),
    ensures
        r2 == r1,
        c2.fingerprints() == c1.fingerprints(),
        c2.hit_count() == c1.hit_count() + 1,
{
    assert(c1.fingerprints().insert(path, r1) =~= c1.fingerprints());
}

impl Default for AstCache {
    fn default() -> (r: Self)
        ensures
            r.wf(),
            r.fingerprints() == Map::<Seq<char>, u64>::empty(),
            r.hit_count() == 0,
    {
        let r = AstCache { entries: Vec::new(), hits: 0 };
        assert(fingerprint_views(r.entries@) =~= seq![]);
        r
    }
}

impl AstCache {
    /// The last fingerprint of each path.
    pub closed spec fn fingerprints(&self) -> Map<Seq<char>, u64> {
        assoc_map(fingerprint_views(self.entries@))
    }

    /// How often a path came back with the fingerprint it had.
    pub closed spec fn hit_count(&self) -> nat {
        self.hits as nat
    }

    /// One entry per path.
    pub closed spec fn wf(&self) -> bool {
        keys_unique(fingerprint_views(self.entries@))
    }

    /// Fingerprints `contents` at `path` (the hash of the two) and records it as
    /// `record_fingerprint` does.
    pub fn fingerprint(&mut self, path: &str, contents: &str) -> (r: u64)
        requires
            old(self).wf(),
            old(self).hit_count() < usize::MAX,
        ensures
            r == default_hash(path@, contents@),
            fingerprint_call(*old(self), *final(self), path@, contents@, r),
    {
        let hash = hash_value(path, contents);
        self.record_fingerprint(path, hash)
    }

    /// Records that `path` now has fingerprint `hash`; a path seen before with the same
    /// fingerprint counts as a hit. Returns `hash`.
    pub fn record_fingerprint(&mut self, path: &str, hash: u64) -> (r: u64)
        requires
            old(self).wf(),
            old(self).hit_count() < usize::MAX,
        ensures
            r == hash,
            final(self).wf(),
            final(self).fingerprints() == old(self).fingerprints().insert(path@, hash),
            final(self).hit_count() == old(self).hit_count() + (if old(self).fingerprints().contains_key(
                path@,
            ) && old(self).fingerprints()[path@] == hash {
                1int
            } else {
                0int
            }),
    {
        let ghost s = fingerprint_views(self.entries@);
        let found = self.position_of(path);
        if let Some(idx) = found {
            proof {
                lemma_assoc_last(s, path@, idx as int);
            }
            if self.entries[idx].1 == hash {
                self.hits = self.hits + 1;
            }
            self.entries.set(idx, (String::from_str(path), hash));
            proof {
                assert(fingerprint_views(self.entries@) =~= s.update(idx as int, (path@, hash)));
                lemma_assoc_update(s, idx as int, hash);
            }
        } else {
            proof {
                lemma_assoc_absent(s, path@);
            }
            self.entries.push((String::from_str(path), hash));
            proof {
                let t = fingerprint_views(self.entries@);
                assert(t =~= s.push((path@, hash)));
                assert(t.drop_last() =~= s);
                assert(keys_unique(t));
            }
        }
        hash
    }

    fn position_of(&self, path: &str) -> (r: Option<usize>)
        ensures
            match r {
                Some(i) => i < self.entries@.len() && fingerprint_views(self.entries@)[i as int].0
                    == path@ && forall|j: int|
                    i < j < self.entries@.len() ==> fingerprint_views(self.entries@)[j].0 != path@,
                None => forall|j: int|
                    0 <= j < self.entries@.len() ==> fingerprint_views(self.entries@)[j].0 != path@,
            },
    {
        let ghost s = fingerprint_views(self.entries@);
        let mut i: usize = self.entries.len();
        while i > 0
            invariant
                i <= self.entries@.len(),
                s == fingerprint_views(self.entries@),
                forall|j: int| i <= j < s.len() ==> s[j].0 != path@,
            decreases i,
        {
            if same_text(self.entries[i - 1].0.as_str(), path) {
                return Some(i - 1);
            }
            i = i - 1;
        }
        None
    }

    /// How often a path came back with the fingerprint it had.
    pub fn hits(&self) -> (r: usize)
        ensures
            r == self.hit_count(),
    {
        self.hits
    }
}

} // verus!
