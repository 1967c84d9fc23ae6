use vstd::prelude::*;

verus! {

/// The map that a list of key/value entries denotes when a later entry for a key replaces an
/// earlier one (as inserting them in order into a map does).
pub open spec fn assoc_map<K, V>(s: Seq<(K, V)>) -> Map<K, V>
    decreases s.len(),
{
    if s.len() == 0 {
        Map::empty()
    } else {
        assoc_map(s.drop_last()).insert(s.last().0, s.last().1)
    }
}

/// No key occurs in two entries.
pub open spec fn keys_unique<K, V>(s: Seq<(K, V)>) -> bool {
    forall|i: int, j: int| 0 <= i < j < s.len() ==> s[i].0 != s[j].0
}

/// The last entry for a key gives the key's value.
pub proof fn lemma_assoc_last<K, V>(s: Seq<(K, V)>, k: K, i: int)
    requires
        0 <= i < s.len(),
        s[i].0 == k,
        forall|j: int| i < j < s.len() ==> s[j].0 != k,
    ensures
        assoc_map(s).contains_key(k),
        assoc_map(s)[k] == s[i].1,
    decreases s.len(),
{
    if i < s.len() - 1 {
        lemma_assoc_last(s.drop_last(), k, i);
    }
}

/// A key with no entry is not in the map.
pub proof fn lemma_assoc_absent<K, V>(s: Seq<(K, V)>, k: K)
    requires
        forall|j: int| 0 <= j < s.len() ==> s[j].0 != k,
    ensures
        !assoc_map(s).contains_key(k),
    decreases s.len(),
{
    if s.len() > 0 {
        lemma_assoc_absent(s.drop_last(), k);
    }
}

/// With unique keys the map has one key per entry.
pub proof fn lemma_assoc_len<K, V>(s: Seq<(K, V)>)
    requires
        keys_unique(s),
    ensures
        assoc_map(s).dom().finite(),
        assoc_map(s).dom().len() == s.len(),
    decreases s.len(),
{
    if s.len() > 0 {
        let t = s.drop_last();
        assert(keys_unique(t));
        lemma_assoc_len(t);
        lemma_assoc_absent(t, s.last().0);
    }
}

/// Replacing the value of the only entry for a key updates the key in the map.
pub proof fn lemma_assoc_update<K, V>(s: Seq<(K, V)>, i: int, v: V)
    requires
        0 <= i < s.len(),
        keys_unique(s),
    ensures
        assoc_map(s.update(i, (s[i].0, v))) == assoc_map(s).insert(s[i].0, v),
        keys_unique(s.update(i, (s[i].0, v))),
    decreases s.len(),
{
    let k = s[i].0;
    let u = s.update(i, (k, v));
    assert(keys_unique(u)) by {
        assert forall|a: int, b: int| 0 <= a < b < u.len() implies u[a].0 != u[b].0 by {
            assert(u[a].0 == s[a].0);
            assert(u[b].0 == s[b].0);
        }
    }
    if i == s.len() - 1 {
        assert(u.drop_last() =~= s.drop_last());
        assert(assoc_map(u) =~= assoc_map(s).insert(k, v));
    } else {
        let t = s.drop_last();
        assert(keys_unique(t));
        assert(u.drop_last() =~= t.update(i, (k, v)));
        lemma_assoc_update(t, i, v);
        assert(s.last().0 != k);
        assert(assoc_map(u) =~= assoc_map(s).insert(k, v));
    }
}

} // verus!
