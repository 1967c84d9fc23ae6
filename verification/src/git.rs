use vstd::prelude::*;
use vstd::string::StringExecFns;
use crate::errors::AnalyzerError;
use crate::text::{chars_of, string_views, split_chars, split_on, string_from_chars, token_views, trim, trim_chars};

verus! {

/// The non-blank pieces, trimmed.
pub open spec fn trimmed_nonblank(pieces: Seq<Seq<char>>) -> Seq<Seq<char>>
    decreases pieces.len(),
{
    if pieces.len() == 0 {
        seq![]
    } else if trim(pieces.last()).len() > 0 {
        trimmed_nonblank(pieces.drop_last()).push(trim(pieces.last()))
    } else {
        trimmed_nonblank(pieces.drop_last())
    }
}

/// The files named by `git diff --name-only` output: its lines, trimmed, blank ones left out.
pub fn changed_files_in_diff(diff: &str) -> (r: Vec<String>)
    ensures
        crate::text::string_views(r@) == trimmed_nonblank(split_on(diff@, '\n')),
{
    let v = chars_of(diff);
    let lines = split_chars(&v, '\n');
    let ghost ls = token_views(lines@);
    let mut out: Vec<String> = Vec::new();
    let mut i: usize = 0;
    while i < lines.len()
        invariant
            i <= lines@.len(),
            ls == token_views(lines@),
            ls == split_on(diff@, '\n'),
            crate::text::string_views(out@) == trimmed_nonblank(ls.take(i as int)),
        decreases lines.len() - i,
    {
        assert(ls.take(i + 1).drop_last() =~= ls.take(i as int));
        assert(ls[i as int] == lines@[i as int]@);
        let t = trim_chars(&lines[i]);
        if t.len() > 0 {
            let ghost before = out@;
            out.push(string_from_chars(&t));
            assert(crate::text::string_views(out@) =~= crate::text::string_views(before).push(t@));
        }
        i = i + 1;
    }
    assert(ls.take(i as int) =~= ls);
    out
}

/// The arguments of the git command that lists the files changed since `release`.
pub open spec fn diff_args(release: Seq<char>) -> Seq<Seq<char>> {
    seq!["diff"@, "--name-only"@, release, "HEAD"@]
}

/// The files changed since the release tag: none when no release is given (git is not run);
/// otherwise `run_git` runs git with `diff_args` and its output is read as by
/// `changed_files_in_diff`, a git failure being passed on.
pub fn changed_files_since_tag<F: Fn(&Vec<String>) -> Result<String, AnalyzerError>>(
    release: &str,
    run_git: F,
) -> (r: Result<Vec<String>, AnalyzerError>)
    requires
        forall|a: &Vec<String>| #[trigger] run_git.requires((a,)),
    ensures
        release@.len() == 0 ==> (r matches Ok(v) && v@.len() == 0),
        release@.len() > 0 ==> (exists|a: &Vec<String>, out: Result<String, AnalyzerError>|
            string_views(a@) == diff_args(release@) && #[trigger] run_git.ensures((a,), out) && match out {
                Ok(text) => r matches Ok(v) && string_views(v@) == trimmed_nonblank(split_on(text@, '\n')),
                Err(e) => r == Err::<Vec<String>, AnalyzerError>(e),
            }),
{
    if chars_of(release).len() == 0 {
        return Ok(Vec::new());
    }
    let mut args: Vec<String> = Vec::new();
    args.push(String::from_str("diff"));
    args.push(String::from_str("--name-only"));
    args.push(String::from_str(release));
    args.push(String::from_str("HEAD"));
    assert(string_views(args@) =~= diff_args(release@));
    let out = run_git(&args);
    match out {
        Ok(text) => Ok(changed_files_in_diff(text.as_str())),
        Err(e) => Err(e),
    }
}

} // verus!
