use vstd::prelude::*;
use vstd::string::StringExecFns;
use crate::assoc::{assoc_map, keys_unique, lemma_assoc_absent, lemma_assoc_last, lemma_assoc_update};
use crate::plugins::sanitizer::key_views;
use crate::scoring::{hex_digest, sha256_hex};
use crate::text::{
    append_str, chars_of, count_matches, count_nonblank, match_count, nonblank_pieces, same_chars,
    same_text, split_chars, split_on, string_from_chars, token_views,
};

verus! {

/// What the parser keeps of a file: the digest of its contents, its language and its
/// structural node estimate.
#[derive(Debug)]
pub struct ParsedFileSummary {
    pub digest: String,
    pub language: String,
    pub node_estimate: u128,
}

/// A summary as plain values.
pub open spec fn summary_view(s: ParsedFileSummary) -> (Seq<char>, Seq<char>, u128) {
    (s.digest@, s.language@, s.node_estimate)
}

/// The language-aware parser bead, with a cache of file summaries keyed by path.
pub struct ParserPlugin {
    cache: Vec<(String, ParsedFileSummary)>,
}

/// Cache entries as plain values.
pub open spec fn parse_cache_views(v: Seq<(String, ParsedFileSummary)>) -> Seq<(Seq<char>, (Seq<char>, Seq<char>, u128))> {
    v.map_values(|e: (String, ParsedFileSummary)| (e.0@, summary_view(e.1)))
}

/// The last non-empty path component other than `.`.
pub open spec fn last_component(pieces: Seq<Seq<char>>) -> Option<Seq<char>>
    decreases pieces.len(),
{
    if pieces.len() == 0 {
        None
    } else if pieces.last().len() == 0 || pieces.last() == seq!['.'] {
        last_component(pieces.drop_last())
    } else {
        Some(pieces.last())
    }
}

/// The file name of a `/`-separated path, as `Path::file_name` gives it.
pub open spec fn file_name(path: Seq<char>) -> Option<Seq<char>> {
    match last_component(split_on(path, '/')) {
        Some(c) => if c == seq!['.', '.'] {
            None
        } else {
            Some(c)
        },
        None => None,
    }
}

/// The position of the last `.` in `s`.
pub open spec fn last_dot(s: Seq<char>) -> Option<int>
    decreases s.len(),
{
    if s.len() == 0 {
        None
    } else if s.last() == '.' {
        Some(s.len() - 1)
    } else {
        last_dot(s.drop_last())
    }
}

/// The extension of a file name, as `Path::extension` gives it: what follows the last dot,
/// unless that dot begins the name.
pub open spec fn extension_of(name: Seq<char>) -> Option<Seq<char>> {
    match last_dot(name) {
        Some(k) => if k == 0 {
            None
        } else {
            Some(name.skip(k + 1))
        },
        None => None,
    }
}

/// The language a path's extension names.
pub open spec fn language_of_path(path: Seq<char>) -> Seq<char> {
    match file_name(path) {
        Some(name) => match extension_of(name) {
            Some(ext) => if ext == "rs"@ {
                "rust"@
            } else if ext == "ts"@ || ext == "tsx"@ {
                "typescript"@
            } else if ext == "js"@ || ext == "jsx"@ {
                "javascript"@
            } else if ext == "py"@ {
                "python"@
            } else if ext == "md"@ {
                "markdown"@
            } else {
                "unknown"@
            },
            None => "unknown"@,
        },
        None => "unknown"@,
    }
}

/// The tokens that each count as a structural node of a language.
pub open spec fn structural_tokens(language: Seq<char>) -> Seq<Seq<char>> {
    if language == "rust"@ {
        seq!["fn "@, "impl "@, "match "@, "if "@, "for "@, "while "@, "struct "@, "enum "@]
    } else if language == "typescript"@ || language == "javascript"@ {
        seq!["function "@, "const "@, "let "@, "=>"@, "if "@, "for "@, "while "@, "class "@]
    } else if language == "python"@ {
        seq!["def "@, "class "@, "if "@, "for "@, "while "@, "elif "@]
    } else {
        seq!["{"@, "("@]
    }
}

/// The occurrences of all the tokens in `contents`.
pub open spec fn token_total(contents: Seq<char>, tokens: Seq<Seq<char>>) -> nat
    decreases tokens.len(),
{
    if tokens.len() == 0 {
        0
    } else {
        token_total(contents, tokens.drop_last()) + match_count(contents, tokens.last(), 0)
    }
}

/// The structural node estimate of a file: its non-blank lines plus its structural tokens,
/// at least one.
pub open spec fn node_estimate(contents: Seq<char>, language: Seq<char>) -> nat {
    let n = count_nonblank(split_on(contents, '\n')) + token_total(contents, structural_tokens(language));
    if n >= 1 {
        n
    } else {
        1
    }
}

fn last_component_of(pieces: &Vec<Vec<char>>) -> (r: Option<usize>)
    ensures
        match r {
            Some(i) => i < pieces@.len() && last_component(token_views(pieces@)) == Some(
                pieces@[i as int]@,
            ),
            None => last_component(token_views(pieces@)) is None,
        },
{
    let ghost ps = token_views(pieces@);
    let mut i: usize = pieces.len();
    assert(ps.take(i as int) =~= ps);
    while i > 0
        invariant
            i <= pieces@.len(),
            ps == token_views(pieces@),
            last_component(ps) == last_component(ps.take(i as int)),
        decreases i,
    {
        let ghost t = ps.take(i as int);
        assert(t.last() == pieces@[i - 1]@);
        assert(t.drop_last() =~= ps.take(i - 1));
        let p = &pieces[i - 1];
        let is_dot = p.len() == 1 && p[0] == '.';
        if !(p.len() == 0 || is_dot) {
            assert(!(t.last() =~= seq!['.']));
            return Some(i - 1);
        }
        assert(p.len() == 1 ==> t.last() =~= seq!['.']);
        i = i - 1;
    }
    None
}

fn is_literal(v: &Vec<char>, lit: &str) -> (r: bool)
    ensures
        r == (v@ == lit@),
{
    let l = chars_of(lit);
    same_chars(v, &l)
}

/// The language of a file, from its extension.
pub fn language_for(path: &str) -> (r: &'static str)
    ensures
        r@ == language_of_path(path@),
{
    proof {
        reveal_strlit("rust");
        reveal_strlit("typescript");
        reveal_strlit("javascript");
        reveal_strlit("python");
        reveal_strlit("markdown");
        reveal_strlit("unknown");
        reveal_strlit("rs");
        reveal_strlit("ts");
        reveal_strlit("tsx");
        reveal_strlit("js");
        reveal_strlit("jsx");
        reveal_strlit("py");
        reveal_strlit("md");
    }
    let v = chars_of(path);
    let pieces = split_chars(&v, '/');
    let name: &Vec<char> = match last_component_of(&pieces) {
        Some(i) => &pieces[i],
        None => {
            return "unknown";
        },
    };
    if name.len() == 2 && name[0] == '.' && name[1] == '.' {
        assert(name@ =~= seq!['.', '.']);
        return "unknown";
    }
    assert(!(name@ =~= seq!['.', '.']));
    assert(file_name(path@) == Some(name@));
    let mut k: usize = name.len();
    assert(name@.take(k as int) =~= name@);
    while k > 0 && name[k - 1] != '.'
        invariant
            k <= name@.len(),
            last_dot(name@) == last_dot(name@.take(k as int)),
        decreases k,
    {
        assert(name@.take(k as int).drop_last() =~= name@.take(k - 1));
        k = k - 1;
    }
    if k <= 1 {
        assert(k == 1 ==> name@.take(1).last() == '.');
        return "unknown";
    }
    assert(name@.take(k as int).last() == '.');
    let mut ext: Vec<char> = Vec::new();
    let mut j: usize = k;
    while j < name.len()
        invariant
            k <= j <= name@.len(),
            ext@ == name@.subrange(k as int, j as int),
        decreases name.len() - j,
    {
        ext.push(name[j]);
        j = j + 1;
        assert(ext@ =~= name@.subrange(k as int, j as int));
    }
    assert(ext@ =~= name@.skip(k as int));
    assert(extension_of(name@) == Some(ext@));
    if is_literal(&ext, "rs") {
        "rust"
    } else if is_literal(&ext, "ts") || is_literal(&ext, "tsx") {
        "typescript"
    } else if is_literal(&ext, "js") || is_literal(&ext, "jsx") {
        "javascript"
    } else if is_literal(&ext, "py") {
        "python"
    } else if is_literal(&ext, "md") {
        "markdown"
    } else {
        "unknown"
    }
}

fn sum_token_counts(contents: &Vec<char>, tokens: &Vec<&str>) -> (r: u128)
    requires
        tokens@.len() <= 8,
        forall|i: int| 0 <= i < tokens@.len() ==> (#[trigger] tokens@[i])@.len() > 0,
    ensures
        r == token_total(contents@, key_views(tokens@)),
        r <= 8 * 0x1_0000_0000_0000_0000,
{
    let mut total: u128 = 0;
    let mut i: usize = 0;
    while i < tokens.len()
        invariant
            i <= tokens@.len() <= 8,
            forall|m: int| 0 <= m < tokens@.len() ==> (#[trigger] tokens@[m])@.len() > 0,
            total <= i * 0x1_0000_0000_0000_0000,
            total == token_total(contents@, key_views(tokens@).take(i as int)),
        decreases tokens.len() - i,
    {
        assert(key_views(tokens@).take(i + 1).drop_last() =~= key_views(tokens@).take(i as int));
        assert(key_views(tokens@)[i as int] == tokens@[i as int]@);
        let c = count_matches(contents, tokens[i]);
        total = total + c as u128;
        i = i + 1;
    }
    assert(key_views(tokens@).take(i as int) =~= key_views(tokens@));
    total
}

fn structural_token_list(language: &str) -> (r: Vec<&'static str>)
    ensures
        key_views(r@) == structural_tokens(language@),
        r@.len() <= 8,
        forall|i: int| 0 <= i < r@.len() ==> (#[trigger] r@[i])@.len() > 0,
{
    proof {
        reveal_strlit("rust");
        reveal_strlit("typescript");
        reveal_strlit("javascript");
        reveal_strlit("python");
        reveal_strlit("fn ");
        reveal_strlit("impl ");
        reveal_strlit("match ");
        reveal_strlit("if ");
        reveal_strlit("for ");
        reveal_strlit("while ");
        reveal_strlit("struct ");
        reveal_strlit("enum ");
        reveal_strlit("function ");
        reveal_strlit("const ");
        reveal_strlit("let ");
        reveal_strlit("=>");
        reveal_strlit("class ");
        reveal_strlit("def ");
        reveal_strlit("elif ");
        reveal_strlit("{");
        reveal_strlit("(");
    }
    let r: Vec<&'static str> = if same_text(language, "rust") {
        vec!["fn ", "impl ", "match ", "if ", "for ", "while ", "struct ", "enum "]
    } else if same_text(language, "typescript") || same_text(language, "javascript") {
        vec!["function ", "const ", "let ", "=>", "if ", "for ", "while ", "class "]
    } else if same_text(language, "python") {
        vec!["def ", "class ", "if ", "for ", "while ", "elif "]
    } else {
        vec!["{", "("]
    };
    assert(key_views(r@) =~= structural_tokens(language@));
    r
}

/// The structural node estimate of a file in the given language.
pub fn estimate_nodes(contents: &str, language: &str) -> (r: u128)
    ensures
        r == node_estimate(contents@, language@),
{
    let v = chars_of(contents);
    let lines = split_chars(&v, '\n');
    let nonblank = nonblank_pieces(&lines);
    let tokens = structural_token_list(language);
    let total = sum_token_counts(&v, &tokens);
    let n = nonblank as u128 + total;
    if n >= 1 {
        n
    } else {
        1
    }
}

/// The metric key that counts the files of a language.
pub fn language_count_key(language: &str) -> (r: String)
    ensures
        r@ == "language_"@ + language@ + "_files"@,
{
    let mut out = chars_of("language_");
    append_str(&mut out, language);
    append_str(&mut out, "_files");
    string_from_chars(&out)
}

/// The digest a file's contents are cached under: SHA-256 in lowercase hexadecimal.
pub fn digest_for(contents: &str) -> (r: String)
    ensures
        r@ == hex_digest(contents@),
{
    sha256_hex(contents)
}

fn copy_summary(s: &ParsedFileSummary) -> (r: ParsedFileSummary)
    ensures
        summary_view(r) == summary_view(*s),
{
    ParsedFileSummary {
        digest: String::from_str(s.digest.as_str()),
        language: String::from_str(s.language.as_str()),
        node_estimate: s.node_estimate,
    }
}

/// The outcome of analyzing one file against a cache: the cache after it, whether it was a
/// hit, and the node estimate of the summary it gives.
pub open spec fn parse_step(
    cached: Map<Seq<char>, (Seq<char>, Seq<char>, u128)>,
    rel_path: Seq<char>,
    contents: Seq<char>,
) -> (Map<Seq<char>, (Seq<char>, Seq<char>, u128)>, bool, u128) {
    let d = hex_digest(contents);
    let lang = language_of_path(rel_path);
    let fresh = (d, lang, node_estimate(contents, lang) as u128);
    if cached.contains_key(rel_path) && cached[rel_path].0 == d {
        (cached, true, cached[rel_path].2)
    } else {
        (cached.insert(rel_path, fresh), false, fresh.2)
    }
}

/// `a + b`, or the largest `u128` where the sum does not fit.
pub open spec fn saturating_sum(a: u128, b: u128) -> u128 {
    if a + b <= u128::MAX {
        (a + b) as u128
    } else {
        u128::MAX
    }
}

/// Analyzing files in order: the cache after them, the hits, the misses and the node
/// estimates summed (saturating at the largest `u128`).
pub open spec fn parse_fold(
    cached: Map<Seq<char>, (Seq<char>, Seq<char>, u128)>,
    files: Seq<(Seq<char>, Seq<char>)>,
) -> (Map<Seq<char>, (Seq<char>, Seq<char>, u128)>, nat, nat, u128)
    decreases files.len(),
{
    if files.len() == 0 {
        (cached, 0, 0, 0)
    } else {
        let before = parse_fold(cached, files.drop_last());
        let step = parse_step(before.0, files.last().0, files.last().1);
        (
            step.0,
            before.1 + if step.1 {
                1nat
            } else {
                0nat
            },
            before.2 + if step.1 {
                0nat
            } else {
                1nat
            },
            saturating_sum(before.3, step.2),
        )
    }
}

/// The languages a path can name, in the order of their metric keys.
pub open spec fn known_languages() -> Seq<Seq<char>> {
    seq!["javascript"@, "markdown"@, "python"@, "rust"@, "typescript"@, "unknown"@]
}

/// How many of the files are in `language`.
pub open spec fn language_count(files: Seq<(Seq<char>, Seq<char>)>, language: Seq<char>) -> nat
    decreases files.len(),
{
    if files.len() == 0 {
        0
    } else {
        language_count(files.drop_last(), language) + if language_of_path(files.last().0)
            == language {
            1nat
        } else {
            0nat
        }
    }
}

/// The per-language file counts, keyed `language_<language>_files`, for the languages that
/// occur, in ascending key order.
pub open spec fn language_rows(langs: Seq<Seq<char>>, files: Seq<(Seq<char>, Seq<char>)>) -> Seq<
    (Seq<char>, nat),
>
    decreases langs.len(),
{
    if langs.len() == 0 {
        seq![]
    } else {
        let rest = language_rows(langs.drop_last(), files);
        let n = language_count(files, langs.last());
        if n > 0 {
            rest.push(("language_"@ + langs.last() + "_files"@, n))
        } else {
            rest
        }
    }
}

/// Files (path and contents) as plain values.
pub open spec fn file_views(v: Seq<(String, String)>) -> Seq<(Seq<char>, Seq<char>)> {
    v.map_values(|e: (String, String)| (e.0@, e.1@))
}

/// Language rows as plain values.
pub open spec fn row_views(v: Seq<(String, usize)>) -> Seq<(Seq<char>, nat)> {
    v.map_values(|e: (String, usize)| (e.0@, e.1 as nat))
}

/// The totals of one parser run.
#[derive(Debug)]
pub struct ParseTotals {
    pub hits: usize,
    pub misses: usize,
    pub node_estimate: u128,
    pub language_counts: Vec<(String, usize)>,
}

fn count_language(files: &Vec<(String, String)>, language: &str) -> (r: usize)
    ensures
        r == language_count(file_views(files@), language@),
{
    let ghost fs = file_views(files@);
    let mut n: usize = 0;
    let mut i: usize = 0;
    while i < files.len()
        invariant
            i <= files@.len(),
            fs == file_views(files@),
            n <= i,
            n == language_count(fs.take(i as int), language@),
        decreases files.len() - i,
    {
        assert(fs.take(i + 1).drop_last() =~= fs.take(i as int));
        assert(fs[i as int] == (files@[i as int].0@, files@[i as int].1@));
        if same_text(language_for(files[i].0.as_str()), language) {
            n = n + 1;
        }
        i = i + 1;
    }
    assert(fs.take(i as int) =~= fs);
    n
}

impl ParserPlugin {
    /// The cached summary of each path.
    pub closed spec fn cached(&self) -> Map<Seq<char>, (Seq<char>, Seq<char>, u128)> {
        assoc_map(parse_cache_views(self.cache@))
    }

    /// One cache entry per path.
    pub closed spec fn wf(&self) -> bool {
        keys_unique(parse_cache_views(self.cache@))
    }

    /// A parser with an empty cache.
    pub fn new() -> (r: Self)
        ensures
            r.wf(),
            r.cached() == Map::<Seq<char>, (Seq<char>, Seq<char>, u128)>::empty(),
    {
        let r = ParserPlugin { cache: Vec::new() };
        assert(parse_cache_views(r.cache@) =~= seq![]);
        r
    }

    pub fn name(&self) -> (r: &'static str)
        ensures
            r@ == "parser"@,
    {
        "parser"
    }

    fn position_of(&self, path: &str) -> (r: Option<usize>)
        ensures
            match r {
                Some(i) => i < self.cache@.len() && parse_cache_views(self.cache@)[i as int].0
                    == path@ && forall|j: int|
                    i < j < self.cache@.len() ==> parse_cache_views(self.cache@)[j].0 != path@,
                None => forall|j: int|
                    0 <= j < self.cache@.len() ==> parse_cache_views(self.cache@)[j].0 != path@,
            },
    {
        let ghost s = parse_cache_views(self.cache@);
        let mut i: usize = self.cache.len();
        while i > 0
            invariant
                i <= self.cache@.len(),
                s == parse_cache_views(self.cache@),
                forall|j: int| i <= j < s.len() ==> s[j].0 != path@,
            decreases i,
        {
            if same_text(self.cache[i - 1].0.as_str(), path) {
                return Some(i - 1);
            }
            i = i - 1;
        }
        None
    }

    /// Summarizes one file: a cached summary whose digest matches the contents is reused (a
    /// hit, the first component `true`); otherwise a fresh summary is computed and cached.
    pub fn analyze_file(&mut self, rel_path: &str, contents: &str) -> (r: (bool, ParsedFileSummary))
        requires
            old(self).wf(),
        ensures
            final(self).wf(),
            ({
                let d = hex_digest(contents@);
                let lang = language_of_path(rel_path@);
                let fresh = (d, lang, node_estimate(contents@, lang) as u128);
                if old(self).cached().contains_key(rel_path@) && old(self).cached()[rel_path@].0 == d {
                    r.0 && summary_view(r.1) == old(self).cached()[rel_path@] && final(self).cached()
                        == old(self).cached()
                } else {
                    !r.0 && summary_view(r.1) == fresh && final(self).cached() == old(
                        self,
                    ).cached().insert(rel_path@, fresh)
                }
            }),
    {
        let digest = digest_for(contents);
        let language = language_for(rel_path);
        let ghost s = parse_cache_views(self.cache@);
        let found = self.position_of(rel_path);
        match found {
            Some(idx) => {
                proof {
                    lemma_assoc_last(s, rel_path@, idx as int);
                }
                if same_text(self.cache[idx].1.digest.as_str(), digest.as_str()) {
                    return (true, copy_summary(&self.cache[idx].1));
                }
            },
            None => {
                proof {
                    lemma_assoc_absent(s, rel_path@);
                }
            },
        }
        let estimate = estimate_nodes(contents, language);
        let summary = ParsedFileSummary {
            digest: String::from_str(digest.as_str()),
            language: String::from_str(language),
            node_estimate: estimate,
        };
        let stored = copy_summary(&summary);
        match found {
            Some(idx) => {
                self.cache.set(idx, (String::from_str(rel_path), stored));
                proof {
                    assert(parse_cache_views(self.cache@) =~= s.update(
                        idx as int,
                        (rel_path@, summary_view(summary)),
                    ));
                    lemma_assoc_update(s, idx as int, summary_view(summary));
                }
            },
            None => {
                self.cache.push((String::from_str(rel_path), stored));
                proof {
                    let t = parse_cache_views(self.cache@);
                    assert(t =~= s.push((rel_path@, summary_view(summary))));
                    assert(t.drop_last() =~= s);
                    assert(keys_unique(t));
                }
            },
        }
        (false, summary)
    }

    /// Analyzes the files in order, as `analyze_file` does each, and totals the run: hits,
    /// misses, node estimates (saturating) and the files of each language in key order.
    pub fn summarize(&mut self, files: &Vec<(String, String)>) -> (r: ParseTotals)
        requires
            old(self).wf(),
        ensures
            final(self).wf(),
            ({
                let f = parse_fold(old(self).cached(), file_views(files@));
                &&& final(self).cached() == f.0
                &&& r.hits == f.1
                &&& r.misses == f.2
                &&& r.node_estimate == f.3
            }),
            row_views(r.language_counts@) == language_rows(known_languages(), file_views(files@)),
    {
        let ghost fs = file_views(files@);
        let ghost start = self.cached();
        let mut hits: usize = 0;
        let mut misses: usize = 0;
        let mut nodes: u128 = 0;
        let mut i: usize = 0;
        while i < files.len()
            invariant
                i <= files@.len(),
                fs == file_views(files@),
                self.wf(),
                hits + misses == i,
                ({
                    let f = parse_fold(start, fs.take(i as int));
                    &&& self.cached() == f.0
                    &&& hits == f.1
                    &&& misses == f.2
                    &&& nodes == f.3
                }),
            decreases files.len() - i,
        {
            assert(fs.take(i + 1).drop_last() =~= fs.take(i as int));
            assert(fs[i as int] == (files@[i as int].0@, files@[i as int].1@));
            let (hit, summary) = self.analyze_file(files[i].0.as_str(), files[i].1.as_str());
            if hit {
                hits = hits + 1;
            } else {
                misses = misses + 1;
            }
            nodes = nodes.saturating_add(summary.node_estimate);
            i = i + 1;
        }
        assert(fs.take(i as int) =~= fs);
        let mut rows: Vec<(String, usize)> = Vec::new();
        let langs: Vec<&str> = vec!["javascript", "markdown", "python", "rust", "typescript", "unknown"];
        proof {
            reveal_strlit("javascript");
            reveal_strlit("markdown");
            reveal_strlit("python");
            reveal_strlit("rust");
            reveal_strlit("typescript");
            reveal_strlit("unknown");
            assert(key_views(langs@) =~= known_languages());
        }
        let mut j: usize = 0;
        while j < langs.len()
            invariant
                j <= langs@.len(),
                key_views(langs@) == known_languages(),
                row_views(rows@) == language_rows(known_languages().take(j as int), fs),
                fs == file_views(files@),
            decreases langs.len() - j,
        {
            assert(known_languages().take(j + 1).drop_last() =~= known_languages().take(j as int));
            assert(key_views(langs@)[j as int] == langs@[j as int]@);
            let n = count_language(files, langs[j]);
            if n > 0 {
                let ghost before = rows@;
                rows.push((language_count_key(langs[j]), n));
                assert(row_views(rows@) =~= row_views(before).push(
                    ("language_"@ + langs@[j as int]@ + "_files"@, n as nat),
                ));
            }
            j = j + 1;
        }
        assert(known_languages().take(j as int) =~= known_languages());
        ParseTotals { hits, misses, node_estimate: nodes, language_counts: rows }
    }
}

/// A file analyzed again with unchanged contents is a cache hit: once `analyze_file` has
/// stored a summary for a path, the stored digest is the digest of the same contents.
pub proof fn law_unchanged_file_hits(
    cached: Map<Seq<char>, (Seq<char>, Seq<char>, u128)>,
    rel_path: Seq<char>,
    contents: Seq<char>,
)
    ensures
        ({
            let d = hex_digest(contents);
            let lang = language_of_path(rel_path);
            let after = cached.insert(rel_path, (d, lang, node_estimate(contents, lang) as u128));
            after.contains_key(rel_path) && after[rel_path].0 == d
        }),
{
}


/// The node estimate that the `i`-th file gives when `files` are analyzed in order from `cached`.
pub open spec fn run_estimate(
    cached: Map<Seq<char>, (Seq<char>, Seq<char>, u128)>,
    files: Seq<(Seq<char>, Seq<char>)>,
    i: int,
) -> u128 {
    parse_step(parse_fold(cached, files.take(i)).0, files[i].0, files[i].1).2
}

/// A path that occurs more than once among `files` has the same contents each time (as when
/// the files are read from disk in one run).
pub open spec fn paths_agree(files: Seq<(Seq<char>, Seq<char>)>) -> bool {
    forall|i: int, j: int| 0 <= i < j < files.len() && files[i].0 == files[j].0 ==> files[i].1 == files[j].1
}

/// After a run over files whose repeated paths carry the same contents, the cache holds, for each file, the digest of
/// its contents and the node estimate the run gave for it.
proof fn lemma_run_stores_files(cached: Map<Seq<char>, (Seq<char>, Seq<char>, u128)>, files: Seq<(Seq<char>, Seq<char>)>)
    requires
        paths_agree(files),
    ensures
        forall|i: int|
            0 <= i < files.len() ==> {
                let g = parse_fold(cached, files).0;
                &&& g.contains_key(#[trigger] files[i].0)
                &&& g[files[i].0].0 == hex_digest(files[i].1)
                &&& g[files[i].0].2 == run_estimate(cached, files, i)
            },
    decreases files.len(),
{
    if files.len() > 0 {
        let front = files.drop_last();
        lemma_run_stores_files(cached, front);
        let n = files.len() - 1;
        assert(files.take(n) =~= front);
        assert forall|i: int| 0 <= i < files.len() implies {
            let g = parse_fold(cached, files).0;
            &&& g.contains_key(#[trigger] files[i].0)
            &&& g[files[i].0].0 == hex_digest(files[i].1)
            &&& g[files[i].0].2 == run_estimate(cached, files, i)
        } by {
            if i < n {
                assert(front[i] == files[i]);
                assert(files.take(i) =~= front.take(i));
                if files[i].0 == files[n].0 {
                    assert(files[i].1 == files[n].1);
                }
            }
        }
    }
}

/// Analyzing again a cache that holds each file's digest and run estimate: every file is a
/// hit, the cache stays, and the estimates sum as in the first run.
proof fn lemma_second_run_prefix(
    cached: Map<Seq<char>, (Seq<char>, Seq<char>, u128)>,
    files: Seq<(Seq<char>, Seq<char>)>,
    k: int,
)
    requires
        0 <= k <= files.len(),
        forall|i: int|
            0 <= i < files.len() ==> {
                let g = parse_fold(cached, files).0;
                &&& g.contains_key(#[trigger] files[i].0)
                &&& g[files[i].0].0 == hex_digest(files[i].1)
                &&& g[files[i].0].2 == run_estimate(cached, files, i)
            },
    ensures
        parse_fold(parse_fold(cached, files).0, files.take(k)) == (
            parse_fold(cached, files).0,
            k as nat,
            0nat,
            parse_fold(cached, files.take(k)).3,
        ),
    decreases k,
{
    if k > 0 {
        lemma_second_run_prefix(cached, files, k - 1);
        assert(files.take(k).drop_last() =~= files.take(k - 1));
        assert(files.take(k).last() == files[k - 1]);
    }
}

/// Running the parser twice over the same files (unchanged contents; a path named twice has
/// the same contents both times): the
/// second run hits the cache for every file, misses none, leaves the cache as the first run
/// left it, and sums the same node estimate; its hits are the first run's hits plus misses.
/// (The per-language counts depend on the files alone, so both runs give the same rows.)
pub proof fn law_second_run_hits_everything(
    cached: Map<Seq<char>, (Seq<char>, Seq<char>, u128)>,
    files: Seq<(Seq<char>, Seq<char>)>,
)
    requires
        paths_agree(files),
    ensures
        ({
            let first = parse_fold(cached, files);
            let second = parse_fold(first.0, files);
            &&& second.0 == first.0
            &&& second.1 == first.1 + first.2
            &&& second.1 == files.len()
            &&& second.2 == 0
            &&& second.3 == first.3
        }),
{
    lemma_run_stores_files(cached, files);
    lemma_second_run_prefix(cached, files, files.len() as int);
    assert(files.take(files.len() as int) =~= files);
    lemma_fold_counts(cached, files);
}

/// Every file of a run is either a hit or a miss.
proof fn lemma_fold_counts(cached: Map<Seq<char>, (Seq<char>, Seq<char>, u128)>, files: Seq<(Seq<char>, Seq<char>)>)
    ensures
        parse_fold(cached, files).1 + parse_fold(cached, files).2 == files.len(),
    decreases files.len(),
{
    if files.len() > 0 {
        lemma_fold_counts(cached, files.drop_last());
    }
}


/// The language follows the extension of the file name: a path whose file name is a non-empty
/// stem, a dot and an extension without dots is Rust for `rs`, TypeScript for `ts` and `tsx`,
/// JavaScript for `js` and `jsx`, Python for `py` and Markdown for `md`.
pub proof fn law_extension_names_language(path: Seq<char>, stem: Seq<char>, ext: Seq<char>)
    requires
        stem.len() > 0,
        !ext.contains('.'),
        file_name(path) == Some(stem + seq!['.'] + ext),
    ensures
        ext == "rs"@ ==> language_of_path(path) == "rust"@,
        ext == "ts"@ ==> language_of_path(path) == "typescript"@,
        ext == "tsx"@ ==> language_of_path(path) == "typescript"@,
        ext == "js"@ ==> language_of_path(path) == "javascript"@,
        ext == "jsx"@ ==> language_of_path(path) == "javascript"@,
        ext == "py"@ ==> language_of_path(path) == "python"@,
        ext == "md"@ ==> language_of_path(path) == "markdown"@,
{
    let name = stem + seq!['.'] + ext;
    reveal_strlit("rs");
    reveal_strlit("ts");
    reveal_strlit("tsx");
    reveal_strlit("js");
    reveal_strlit("jsx");
    reveal_strlit("py");
    reveal_strlit("md");
    assert("ts"@ != "rs"@) by {
        assert("ts"@[0] != "rs"@[0]);
    }
    assert("js"@ != "rs"@) by {
        assert("js"@[0] != "rs"@[0]);
    }
    assert("js"@ != "ts"@) by {
        assert("js"@[0] != "ts"@[0]);
    }
    assert("jsx"@ != "tsx"@) by {
        assert("jsx"@[0] != "tsx"@[0]);
    }
    lemma_last_dot_after(stem + seq!['.'], ext);
    assert(last_dot(stem + seq!['.']) == Some(stem.len() as int));
    assert(name.skip(stem.len() as int + 1) =~= ext);
    assert(extension_of(name) == Some(ext));
}

/// The last dot of `a + b`, where `b` holds no dot, is that of `a`.
proof fn lemma_last_dot_after(a: Seq<char>, b: Seq<char>)
    requires
        !b.contains('.'),
    ensures
        last_dot(a + b) == last_dot(a),
    decreases b.len(),
{
    if b.len() == 0 {
        assert(a + b =~= a);
    } else {
        assert((a + b).drop_last() =~= a + b.drop_last());
        assert(b.last() != '.') by {
            if b.last() == '.' {
                assert(b[b.len() - 1] == '.');
            }
        }
        assert(!b.drop_last().contains('.')) by {
            if b.drop_last().contains('.') {
                let i = choose|i: int| 0 <= i < b.drop_last().len() && b.drop_last()[i] == '.';
                assert(b[i] == '.');
            }
        }
        lemma_last_dot_after(a, b.drop_last());
    }
}


/// The node estimate of a file is its non-blank lines plus the occurrences of its language's
/// structural tokens (at least one): for Rust `fn `, `impl `, `match `, `if `, `for `,
/// `while `, `struct `, `enum `; for TypeScript and JavaScript `function `, `const `, `let `,
/// `=>`, `if `, `for `, `while `, `class `; for Python `def `, `class `, `if `, `for `,
/// `while `, `elif `; for any other language `{` and `(`.
pub proof fn law_node_estimate_counts_tokens(contents: Seq<char>, language: Seq<char>)
    ensures
        ({
            let lines = count_nonblank(split_on(contents, '\n'));
            let m = |p: Seq<char>| match_count(contents, p, 0);
            let tokens = if language == "rust"@ {
                m("fn "@) + m("impl "@) + m("match "@) + m("if "@) + m("for "@) + m("while "@) + m(
                    "struct "@,
                ) + m("enum "@)
            } else if language == "typescript"@ || language == "javascript"@ {
                m("function "@) + m("const "@) + m("let "@) + m("=>"@) + m("if "@) + m("for "@) + m(
                    "while "@,
                ) + m("class "@)
            } else if language == "python"@ {
                m("def "@) + m("class "@) + m("if "@) + m("for "@) + m("while "@) + m("elif "@)
            } else {
                m("{"@) + m("("@)
            };
            node_estimate(contents, language) == if lines + tokens >= 1 {
                lines + tokens
            } else {
                1
            }
        }),
{
    reveal_with_fuel(token_total, 9);
}

} // verus!
