use vstd::prelude::*;
use crate::text::{same_text, string_views};

verus! {

/// The entry at `i` is the first with its key.
pub open spec fn is_first(keys: Seq<Seq<char>>, i: int) -> bool {
    !keys.take(i).contains(keys[i])
}

/// How many entries repeat a key that came earlier.
pub open spec fn count_repeats(keys: Seq<Seq<char>>) -> nat
    decreases keys.len(),
{
    if keys.len() == 0 {
        0
    } else {
        count_repeats(keys.drop_last()) + if is_first(keys, keys.len() - 1) {
            0nat
        } else {
            1nat
        }
    }
}

/// For each commit id, whether it is the first with that id (the events a bulk import keeps),
/// and how many repeat an earlier id (the duplicates it drops).
pub fn first_occurrences(commit_ids: &Vec<String>) -> (r: (Vec<bool>, usize))
    ensures
        r.0@.len() == commit_ids@.len(),
        forall|i: int| 0 <= i < r.0@.len() ==> r.0@[i] == is_first(string_views(commit_ids@), i),
        r.1 == count_repeats(string_views(commit_ids@)),
{
    let ghost ks = string_views(commit_ids@);
    let mut flags: Vec<bool> = Vec::new();
    let mut duplicates: usize = 0;
    let mut i: usize = 0;
    while i < commit_ids.len()
        invariant
            i <= commit_ids@.len(),
            ks == string_views(commit_ids@),
            flags@.len() == i,
            duplicates <= i,
            forall|k: int| 0 <= k < i ==> flags@[k] == is_first(ks, k),
            duplicates == count_repeats(ks.take(i as int)),
        decreases commit_ids.len() - i,
    {
        let mut seen = false;
        let mut j: usize = 0;
        while j < i
            invariant
                j <= i < commit_ids@.len(),
                ks == string_views(commit_ids@),
                seen == ks.take(j as int).contains(ks[i as int]),
            decreases i - j,
        {
            assert(ks[j as int] == commit_ids@[j as int]@);
            assert(ks[i as int] == commit_ids@[i as int]@);
            if same_text(commit_ids[j].as_str(), commit_ids[i].as_str()) {
                seen = true;
            }
            proof {
                let a = ks.take(j as int);
                let b = ks.take(j + 1);
                let x = ks[i as int];
                if ks[j as int] == x {
                    assert(b[j as int] == x);
                }
                if a.contains(x) {
                    let k = choose|k: int| 0 <= k < a.len() && a[k] == x;
                    assert(b[k] == x);
                }
                if b.contains(x) && ks[j as int] != x {
                    let k = choose|k: int| 0 <= k < b.len() && b[k] == x;
                    assert(k < j);
                    assert(a[k] == x);
                }
            }
            j = j + 1;
        }
        proof {
            let t = ks.take(i + 1);
            assert(t.drop_last() =~= ks.take(i as int));
            assert(t.take(i as int) =~= ks.take(i as int));
            assert(t[i as int] == ks[i as int]);
        }
        flags.push(!seen);
        if seen {
            duplicates = duplicates + 1;
        }
        i = i + 1;
    }
    assert(ks.take(i as int) =~= ks);
    (flags, duplicates)
}

/// The events a bulk import keeps carry pairwise distinct commit ids.
pub proof fn law_kept_ids_distinct(keys: Seq<Seq<char>>, i: int, j: int)
    requires
        0 <= i < j < keys.len(),
        is_first(keys, i),
        is_first(keys, j),
    ensures
        keys[i] != keys[j],
{
    assert(keys.take(j)[i] == keys[i]);
}

} // verus!
