use vstd::prelude::*;
use crate::plugins::sanitizer::{split_whitespace_tokens, split_ws};
use crate::text::{chars_of, split_chars, split_on, string_from_chars, token_views};

verus! {

/// Measures commit and churn velocity over the last thirty days.
pub struct ContributionVelocityPlugin;

/// The first two whitespace-separated fields of each line that has at least two.
pub open spec fn numstat_pairs(lines: Seq<Seq<char>>) -> Seq<(Seq<char>, Seq<char>)>
    decreases lines.len(),
{
    if lines.len() == 0 {
        seq![]
    } else {
        let rest = numstat_pairs(lines.drop_last());
        let parts = split_ws(lines.last());
        if parts.len() >= 2 {
            rest.push((parts[0], parts[1]))
        } else {
            rest
        }
    }
}

/// Field pairs as plain values.
pub open spec fn field_pair_views(v: Seq<(String, String)>) -> Seq<(Seq<char>, Seq<char>)> {
    v.map_values(|e: (String, String)| (e.0@, e.1@))
}

impl ContributionVelocityPlugin {
    pub fn name(&self) -> (r: &'static str)
        ensures
            r@ == "contribution_velocity"@,
    {
        "contribution_velocity"
    }

    /// The added and deleted counts of each `--numstat` line, as the text fields they are;
    /// the churn is the sum of the numbers they hold.
    pub fn numstat_fields(&self, stat: &str) -> (r: Vec<(String, String)>)
        ensures
            field_pair_views(r@) == numstat_pairs(split_on(stat@, '\n')),
    {
        let v = chars_of(stat);
        let lines = split_chars(&v, '\n');
        let ghost ls = token_views(lines@);
        let mut out: Vec<(String, String)> = Vec::new();
        let mut i: usize = 0;
        while i < lines.len()
            invariant
                i <= lines@.len(),
                ls == token_views(lines@),
                ls == split_on(stat@, '\n'),
                field_pair_views(out@) == numstat_pairs(ls.take(i as int)),
            decreases lines.len() - i,
        {
            assert(ls.take(i + 1).drop_last() =~= ls.take(i as int));
            assert(ls[i as int] == lines@[i as int]@);
            let parts = split_whitespace_tokens(&lines[i]);
            if parts.len() >= 2 {
                let ghost before = out@;
                assert(token_views(parts@)[0] == parts@[0]@);
                assert(token_views(parts@)[1] == parts@[1]@);
                out.push((string_from_chars(&parts[0]), string_from_chars(&parts[1])));
                assert(field_pair_views(out@) =~= field_pair_views(before).push(
                    (parts@[0]@, parts@[1]@),
                ));
            }
            i = i + 1;
        }
        assert(ls.take(i as int) =~= ls);
        out
    }
}

} // verus!
