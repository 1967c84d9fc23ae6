use vstd::prelude::*;
use vstd::string::StringExecFns;
use crate::types::{AnalysisInput, AnalysisMetric};
use crate::text::{
    same_text,
    token_views,
    append_chars, append_range, ascii_alnum, chars_of, find_chars, is_ascii_alnum, lemma_find_from_some,
    char_lower, char_to_lowercase, contains, is_ascii_char, lower_chars, lemma_lower_chars_append, has_char, is_whitespace, is_ws, occurs_at,
    string_from_chars,
};

verus! {

/// What every redacted value is replaced with.
pub const REDACTED: &'static str = "[REDACTED]";

/// Extra policy packs of keys that are redacted besides the base credential keys.
#[derive(Clone, Copy, Debug, PartialEq, Eq)]
pub enum SanitizerPolicyPack {
    General,
    Security,
    Privacy,
    Payments,
}

/// The credential keys that every scrub redacts, in the order they are applied.
pub open spec fn base_keys() -> Seq<Seq<char>> {
    seq![
        "x-api-key"@,
        "api_key"@,
        "apikey"@,
        "access_token"@,
        "refresh_token"@,
        "password"@,
        "secret"@,
        "authorization"@,
        "auth"@,
        "token"@,
    ]
}

/// The keys a policy pack adds after the base keys.
pub open spec fn pack_keys(pack: SanitizerPolicyPack) -> Seq<Seq<char>> {
    match pack {
        SanitizerPolicyPack::General => seq![],
        SanitizerPolicyPack::Security => seq!["client_secret"@, "private_key"@, "bearer"@],
        SanitizerPolicyPack::Privacy => seq!["ssn"@, "dob"@, "birth_date"@],
        SanitizerPolicyPack::Payments => seq!["card_number"@, "pan"@, "cvv"@],
    }
}

/// Characters that may be part of a key token: ASCII letters, digits and `_`.
pub open spec fn is_word_char(c: char) -> bool {
    is_ascii_alnum(c) || c == '_'
}

/// How a character is compared with a key: its lowercase when that is one character, else
/// the replacement character `U+FFFD`, which no key holds.
pub open spec fn match_char(c: char) -> char {
    if char_lower(c).len() == 1 {
        char_lower(c)[0]
    } else {
        '\u{FFFD}'
    }
}

/// The first character of a character's lowercase (the character itself if there is none).
pub open spec fn lower_first(c: char) -> char {
    if char_lower(c).len() > 0 {
        char_lower(c)[0]
    } else {
        c
    }
}

/// The last character of a character's lowercase (the character itself if there is none).
pub open spec fn lower_last(c: char) -> char {
    if char_lower(c).len() > 0 {
        char_lower(c).last()
    } else {
        c
    }
}

/// The text as keys are matched against it, character by character.
pub open spec fn match_view(t: Seq<char>) -> Seq<char> {
    t.map_values(|c: char| match_char(c))
}

/// The key found at `[p, e)` of `t` stands alone: the lowercase of the character before it
/// does not end with a word character, and that of the character after it does not begin
/// with one.
pub open spec fn key_stands_alone(t: Seq<char>, p: int, e: int) -> bool {
    (p == 0 || !is_word_char(lower_last(t[p - 1]))) && (e >= t.len() || !is_word_char(
        lower_first(t[e]),
    ))
}

/// Position of the `=` or `:` that follows a key, when only non-word characters lie between.
pub open spec fn separator_from(t: Seq<char>, j: int) -> Option<int>
    decreases t.len() - j,
{
    if j < 0 || j >= t.len() {
        None
    } else if t[j] == '=' || t[j] == ':' {
        Some(j)
    } else if is_word_char(t[j]) {
        None
    } else {
        separator_from(t, j + 1)
    }
}

pub open spec fn is_blank(c: char) -> bool {
    c == ' ' || c == '\t'
}

/// First position at or after `j` that is not a space or a tab.
pub open spec fn skip_blanks(t: Seq<char>, j: int) -> int
    decreases t.len() - j,
{
    if 0 <= j < t.len() && is_blank(t[j]) {
        skip_blanks(t, j + 1)
    } else {
        j
    }
}

/// Characters that end a redacted value.
pub open spec fn is_value_delimiter(c: char) -> bool {
    c == ' ' || c == '\t' || c == '\r' || c == '\n' || c == ';' || c == ','
}

/// First position at or after `j` that holds a value delimiter, or the end.
pub open spec fn value_end(t: Seq<char>, j: int) -> int
    decreases t.len() - j,
{
    if 0 <= j < t.len() && !is_value_delimiter(t[j]) {
        value_end(t, j + 1)
    } else {
        j
    }
}

pub proof fn lemma_separator_bounds(t: Seq<char>, j: int)
    ensures
        separator_from(t, j) matches Some(q) ==> j <= q < t.len() && (t[q] == '=' || t[q] == ':'),
    decreases t.len() - j,
{
    if j < 0 || j >= t.len() {
    } else if t[j] == '=' || t[j] == ':' {
    } else if is_word_char(t[j]) {
    } else {
        lemma_separator_bounds(t, j + 1);
    }
}

pub proof fn lemma_skip_blanks_bounds(t: Seq<char>, j: int)
    requires
        0 <= j <= t.len(),
    ensures
        j <= skip_blanks(t, j) <= t.len(),
        forall|m: int| j <= m < skip_blanks(t, j) ==> is_blank(t[m]),
    decreases t.len() - j,
{
    if 0 <= j < t.len() && is_blank(t[j]) {
        lemma_skip_blanks_bounds(t, j + 1);
    }
}

pub proof fn lemma_value_end_bounds(t: Seq<char>, j: int)
    requires
        0 <= j <= t.len(),
    ensures
        j <= value_end(t, j) <= t.len(),
    decreases t.len() - j,
{
    if 0 <= j < t.len() && !is_value_delimiter(t[j]) {
        lemma_value_end_bounds(t, j + 1);
    }
}

/// Left-to-right rewriting of `t[c..]` for one key `k`: wherever the match view `l` of `t`
/// holds `k` as a standalone token followed by `=` or `:`, the value after the separator
/// and any spaces or tabs is replaced by the marker, up to the next value delimiter.
pub open spec fn redact_from(t: Seq<char>, l: Seq<char>, k: Seq<char>, c: int) -> Seq<char>
    decreases t.len() - c,
{
    if c < 0 || c >= t.len() {
        seq![]
    } else if k.len() > 0 && c + k.len() <= t.len() && occurs_at(l, k, c) {
        let e = c + k.len();
        if key_stands_alone(t, c, e) && separator_from(t, e) is Some {
            let j = separator_from(t, e)->0;
            proof {
                lemma_separator_bounds(t, e);
                lemma_skip_blanks_bounds(t, j + 1);
                lemma_value_end_bounds(t, skip_blanks(t, j + 1));
            }
            let s = skip_blanks(t, j + 1);
            let v = value_end(t, s);
            t.subrange(c, s) + REDACTED@ + redact_from(t, l, k, v)
        } else {
            t.subrange(c, e) + redact_from(t, l, k, e)
        }
    } else {
        seq![t[c]] + redact_from(t, l, k, c + 1)
    }
}

/// The rewriting of `t` for the (lowercase) key `k`. Keys are matched character by character
/// against the lowercase of each character of `t`, so a character whose lowercase has another
/// length or UTF-8 width moves no match.
pub open spec fn redact_key(t: Seq<char>, k: Seq<char>) -> Seq<char> {
    redact_from(t, match_view(t), k, 0)
}

/// Rewriting for each key in turn.
pub open spec fn redact_keys(t: Seq<char>, keys: Seq<Seq<char>>) -> Seq<char>
    decreases keys.len(),
{
    if keys.len() == 0 {
        t
    } else {
        redact_keys(redact_key(t, keys[0]), keys.drop_first())
    }
}

fn match_view_of(t: &Vec<char>) -> (r: Vec<char>)
    ensures
        r@ == match_view(t@),
{
    let mut out: Vec<char> = Vec::new();
    let mut i: usize = 0;
    while i < t.len()
        invariant
            i <= t@.len(),
            out@.len() == i,
            forall|m: int| 0 <= m < i ==> out@[m] == match_char(t@[m]),
        decreases t.len() - i,
    {
        let lower = char_to_lowercase(t[i]);
        if lower.len() == 1 {
            out.push(lower[0]);
        } else {
            out.push('\u{FFFD}');
        }
        i = i + 1;
    }
    assert(out@ =~= match_view(t@));
    out
}

fn first_lower(c: char) -> (r: char)
    ensures
        r == lower_first(c),
{
    let lower = char_to_lowercase(c);
    lower[0]
}

fn last_lower(c: char) -> (r: char)
    ensures
        r == lower_last(c),
{
    let lower = char_to_lowercase(c);
    lower[lower.len() - 1]
}

fn word_char(c: char) -> (r: bool)
    ensures
        r == is_word_char(c),
{
    ascii_alnum(c) || c == '_'
}

fn find_separator(t: &Vec<char>, from: usize) -> (r: Option<usize>)
    requires
        from <= t@.len(),
    ensures
        r matches Some(j) ==> separator_from(t@, from as int) == Some(j as int),
        r is None ==> separator_from(t@, from as int) is None,
{
    let mut j = from;
    while j < t.len()
        invariant
            from <= j <= t@.len(),
            separator_from(t@, from as int) == separator_from(t@, j as int),
        decreases t.len() - j,
    {
        let ch = t[j];
        if ch == '=' || ch == ':' {
            return Some(j);
        }
        if word_char(ch) {
            return None;
        }
        j = j + 1;
    }
    None
}

fn skip_blanks_at(t: &Vec<char>, from: usize) -> (r: usize)
    requires
        from <= t@.len(),
    ensures
        r as int == skip_blanks(t@, from as int),
        from <= r <= t@.len(),
{
    let mut j = from;
    while j < t.len() && (t[j] == ' ' || t[j] == '\t')
        invariant
            from <= j <= t@.len(),
            skip_blanks(t@, from as int) == skip_blanks(t@, j as int),
        decreases t.len() - j,
    {
        j = j + 1;
    }
    j
}

fn value_end_at(t: &Vec<char>, from: usize) -> (r: usize)
    requires
        from <= t@.len(),
    ensures
        r as int == value_end(t@, from as int),
        from <= r <= t@.len(),
{
    let mut j = from;
    while j < t.len() && !(t[j] == ' ' || t[j] == '\t' || t[j] == '\r' || t[j] == '\n' || t[j]
        == ';' || t[j] == ',')
        invariant
            from <= j <= t@.len(),
            value_end(t@, from as int) == value_end(t@, j as int),
        decreases t.len() - j,
    {
        j = j + 1;
    }
    j
}

proof fn lemma_no_key_copies(t: Seq<char>, l: Seq<char>, k: Seq<char>, c: int)
    requires
        0 <= c <= t.len(),
        k.len() == 0,
    ensures
        redact_from(t, l, k, c) == t.subrange(c, t.len() as int),
    decreases t.len() - c,
{
    if c == t.len() {
        assert(t.subrange(c, c) =~= Seq::<char>::empty());
    } else {
        lemma_no_key_copies(t, l, k, c + 1);
        assert(t.subrange(c, t.len() as int) =~= seq![t[c]] + t.subrange(c + 1, t.len() as int));
    }
}

proof fn lemma_skip_to_occurrence(t: Seq<char>, l: Seq<char>, k: Seq<char>, c: int, p: int)
    requires
        0 <= c <= p <= t.len(),
        t.len() == l.len(),
        k.len() > 0,
        forall|m: int| c <= m < p ==> !occurs_at(l, k, m),
    ensures
        redact_from(t, l, k, c) == t.subrange(c, p) + redact_from(t, l, k, p),
    decreases p - c,
{
    if c == p {
        assert(t.subrange(c, p) =~= Seq::<char>::empty());
    } else {
        lemma_skip_to_occurrence(t, l, k, c + 1, p);
        assert(t.subrange(c, p) =~= seq![t[c]] + t.subrange(c + 1, p));
    }
}

/// Rewrites `text` for one key, given in lowercase.
fn redact_key_value(text: &str, key: &str) -> (r: String)
    ensures
        r@ == redact_key(text@, key@),
{
    let t = chars_of(text);
    let l = match_view_of(&t);
    let k = chars_of(key);
    if k.len() == 0 {
        proof {
            lemma_no_key_copies(t@, l@, k@, 0);
            assert(t@.subrange(0, t@.len() as int) =~= t@);
        }
        return string_from_chars(&t);
    }
    let marker = chars_of(REDACTED);
    let n = t.len();
    let ghost whole = redact_from(t@, l@, k@, 0);
    let mut out: Vec<char> = Vec::new();
    let mut cursor: usize = 0;
    while cursor < n
        invariant
            n == t@.len(),
            t@ == text@,
            l@ == match_view(text@),
            l@.len() == n,
            k@ == key@,
            k@.len() > 0,
            marker@ == REDACTED@,
            cursor <= n,
            out@ + redact_from(t@, l@, k@, cursor as int) == whole,
        decreases n - cursor,
    {
        let found = find_chars(&l, &k, cursor);
        proof {
            lemma_find_from_some(l@, k@, cursor as int);
        }
        match found {
            None => {
                proof {
                    lemma_skip_to_occurrence(t@, l@, k@, cursor as int, n as int);
                }
                append_range(&mut out, &t, cursor, n);
                proof {
                    assert(redact_from(t@, l@, k@, n as int) =~= Seq::<char>::empty());
                    assert(out@ =~= whole);
                }
                cursor = n;
            },
            Some(key_start) => {
                proof {
                    lemma_skip_to_occurrence(t@, l@, k@, cursor as int, key_start as int);
                }
                let key_end = key_start + k.len();
                let before_ok = key_start == 0 || !word_char(last_lower(t[key_start - 1]));
                let after_ok = key_end >= t.len() || !word_char(first_lower(t[key_end]));
                if !(before_ok && after_ok) {
                    append_range(&mut out, &t, cursor, key_end);
                    proof {
                        assert(t@.subrange(cursor as int, key_start as int) + t@.subrange(
                            key_start as int,
                            key_end as int,
                        ) =~= t@.subrange(cursor as int, key_end as int));
                        assert(out@ + redact_from(t@, l@, k@, key_end as int) =~= whole);
                    }
                    cursor = key_end;
                } else {
                    match find_separator(&t, key_end) {
                        None => {
                            append_range(&mut out, &t, cursor, key_end);
                            proof {
                                assert(t@.subrange(cursor as int, key_start as int) + t@.subrange(
                                    key_start as int,
                                    key_end as int,
                                ) =~= t@.subrange(cursor as int, key_end as int));
                                assert(out@ + redact_from(t@, l@, k@, key_end as int) =~= whole);
                            }
                            cursor = key_end;
                        },
                        Some(sep) => {
                            proof {
                                lemma_separator_bounds(t@, key_end as int);
                            }
                            let blanks_end = skip_blanks_at(&t, sep + 1);
                            let value_stop = value_end_at(&t, blanks_end);
                            append_range(&mut out, &t, cursor, blanks_end);
                            append_chars(&mut out, &marker);
                            proof {
                                assert(t@.subrange(cursor as int, key_start as int) + t@.subrange(
                                    key_start as int,
                                    blanks_end as int,
                                ) =~= t@.subrange(cursor as int, blanks_end as int));
                                assert(out@ + redact_from(t@, l@, k@, value_stop as int) =~= whole);
                            }
                            cursor = value_stop;
                        },
                    }
                }
            },
        }
    }
    proof {
        assert(redact_from(t@, l@, k@, cursor as int) =~= Seq::<char>::empty());
        assert(out@ =~= whole);
    }
    string_from_chars(&out)
}


/// Length of the run of non-whitespace characters at the front of `s`.
pub open spec fn word_len(s: Seq<char>) -> nat
    decreases s.len(),
{
    if s.len() == 0 || is_ws(s[0]) {
        0
    } else {
        1 + word_len(s.drop_first())
    }
}

pub proof fn lemma_word_len_bounds(s: Seq<char>)
    ensures
        word_len(s) <= s.len(),
        s.len() > 0 && !is_ws(s[0]) ==> word_len(s) >= 1,
        forall|i: int| 0 <= i < word_len(s) ==> !is_ws(s[i]),
        word_len(s) < s.len() ==> is_ws(s[word_len(s) as int]),
    decreases s.len(),
{
    if s.len() == 0 || is_ws(s[0]) {
    } else {
        lemma_word_len_bounds(s.drop_first());
        assert forall|i: int| 0 <= i < word_len(s) implies !is_ws(s[i]) by {
            if i > 0 {
                assert(s[i] == s.drop_first()[i - 1]);
            }
        }
        if word_len(s) < s.len() {
            assert(s[word_len(s) as int] == s.drop_first()[word_len(s.drop_first()) as int]);
        }
    }
}

/// The whitespace-separated tokens of `s`, as `str::split_whitespace` yields them.
pub open spec fn split_ws(s: Seq<char>) -> Seq<Seq<char>>
    decreases s.len(),
{
    if s.len() == 0 {
        seq![]
    } else if is_ws(s[0]) {
        split_ws(s.drop_first())
    } else {
        proof {
            lemma_word_len_bounds(s);
        }
        let n = word_len(s) as int;
        seq![s.take(n)] + split_ws(s.skip(n))
    }
}

/// Tokens joined with single spaces, as `join(" ")` does it.
pub open spec fn join_space(ts: Seq<Seq<char>>) -> Seq<char>
    decreases ts.len(),
{
    if ts.len() == 0 {
        seq![]
    } else if ts.len() == 1 {
        ts[0]
    } else {
        ts[0] + seq![' '] + join_space(ts.drop_first())
    }
}

/// A token is a word: it is not empty and holds no whitespace.
pub open spec fn is_word(t: Seq<char>) -> bool {
    t.len() > 0 && forall|i: int| 0 <= i < t.len() ==> !is_ws(t[i])
}

/// A token that looks like an e-mail address.
pub open spec fn looks_like_email(t: Seq<char>) -> bool {
    t.contains('@') && t.contains('.')
}

/// Number of ASCII digits in `t`.
pub open spec fn digit_count(t: Seq<char>) -> nat
    decreases t.len(),
{
    if t.len() == 0 {
        0
    } else {
        (if '0' <= t.last() <= '9' { 1nat } else { 0nat }) + digit_count(t.drop_last())
    }
}

/// A token that looks like a phone number: ten digits or more.
pub open spec fn looks_like_phone(t: Seq<char>) -> bool {
    digit_count(t) >= 10
}

/// Each token masked for e-mail addresses.
pub open spec fn mask_emails(ts: Seq<Seq<char>>) -> Seq<Seq<char>> {
    ts.map_values(|t: Seq<char>| mask_email(t))
}

/// Each token masked for phone numbers.
pub open spec fn mask_phones(ts: Seq<Seq<char>>) -> Seq<Seq<char>> {
    ts.map_values(|t: Seq<char>| mask_phone(t))
}

pub open spec fn mask_email(t: Seq<char>) -> Seq<char> {
    if looks_like_email(t) {
        REDACTED@
    } else {
        t
    }
}

pub open spec fn mask_phone(t: Seq<char>) -> Seq<char> {
    if looks_like_phone(t) {
        REDACTED@
    } else {
        t
    }
}

/// Every e-mail-like token replaced by the marker; tokens rejoined with single spaces.
pub open spec fn redact_emails_spec(s: Seq<char>) -> Seq<char> {
    join_space(mask_emails(split_ws(s)))
}

/// Every phone-like token replaced by the marker; tokens rejoined with single spaces.
pub open spec fn redact_phones_spec(s: Seq<char>) -> Seq<char> {
    join_space(mask_phones(split_ws(s)))
}

/// What the sanitizer makes of `s` with the given pack, with or without the general
/// e-mail and phone cleanup.
pub open spec fn scrub_spec(s: Seq<char>, pack: SanitizerPolicyPack, cleanup: bool) -> Seq<char> {
    let keyed = redact_keys(redact_keys(s, base_keys()), pack_keys(pack));
    if cleanup {
        redact_phones_spec(redact_emails_spec(keyed))
    } else {
        keyed
    }
}


proof fn lemma_word_prefix(w: Seq<char>, x: Seq<char>)
    requires
        forall|i: int| 0 <= i < w.len() ==> !is_ws(w[i]),
        x.len() == 0 || is_ws(x[0]),
    ensures
        word_len(w + x) == w.len(),
    decreases w.len(),
{
    if w.len() == 0 {
        assert(w + x =~= x);
    } else {
        assert((w + x).drop_first() =~= w.drop_first() + x);
        lemma_word_prefix(w.drop_first(), x);
    }
}

/// Splitting `w + x`, where `w` holds no whitespace and `x` is empty or starts with
/// whitespace, yields `w` (when it is not empty) and then the tokens of `x`.
proof fn lemma_split_word_then(w: Seq<char>, x: Seq<char>)
    requires
        forall|i: int| 0 <= i < w.len() ==> !is_ws(w[i]),
        x.len() == 0 || is_ws(x[0]),
    ensures
        split_ws(w + x) == (if w.len() > 0 { seq![w] } else { seq![] }) + split_ws(x),
{
    if w.len() == 0 {
        assert(w + x =~= x);
        assert(Seq::<Seq<char>>::empty() + split_ws(x) =~= split_ws(x));
    } else {
        lemma_word_prefix(w, x);
        assert((w + x).take(w.len() as int) =~= w);
        assert((w + x).skip(w.len() as int) =~= x);
    }
}

proof fn lemma_join_push(ts: Seq<Seq<char>>, t: Seq<char>)
    ensures
        join_space(ts.push(t)) == (if ts.len() == 0 { t } else { join_space(ts) + seq![' '] + t }),
    decreases ts.len(),
{
    if ts.len() == 0 {
        assert(ts.push(t) =~= seq![t]);
    } else if ts.len() == 1 {
        assert(ts.push(t).drop_first() =~= seq![t]);
        assert(join_space(seq![t]) == t);
        assert(ts.push(t)[0] == ts[0]);
    } else {
        assert(ts.push(t)[0] == ts[0]);
        assert(ts.push(t).drop_first() =~= ts.drop_first().push(t));
        lemma_join_push(ts.drop_first(), t);
        assert(ts[0] + seq![' '] + (join_space(ts.drop_first()) + seq![' '] + t) =~= ts[0] + seq![
            ' ',
        ] + join_space(ts.drop_first()) + seq![' '] + t);
    }
}

/// The tokens of a string are words.
pub proof fn lemma_split_words(s: Seq<char>)
    ensures
        forall|i: int| 0 <= i < split_ws(s).len() ==> is_word(#[trigger] split_ws(s)[i]),
    decreases s.len(),
{
    if s.len() == 0 {
    } else if is_ws(s[0]) {
        lemma_split_words(s.drop_first());
        assert(split_ws(s) == split_ws(s.drop_first()));
    } else {
        lemma_word_len_bounds(s);
        let n = word_len(s) as int;
        lemma_split_words(s.skip(n));
        assert forall|i: int| 0 <= i < split_ws(s).len() implies is_word(
            #[trigger] split_ws(s)[i],
        ) by {
            assert(split_ws(s) == seq![s.take(n)] + split_ws(s.skip(n)));
            if i == 0 {
                assert(split_ws(s)[0] == s.take(n));
                assert forall|j: int| 0 <= j < s.take(n).len() implies !is_ws(s.take(n)[j]) by {
                    assert(s.take(n)[j] == s[j]);
                }
            } else {
                assert(split_ws(s)[i] == split_ws(s.skip(n))[i - 1]);
            }
        }
    }
}

/// Splitting words joined with spaces gives the words back.
pub proof fn lemma_split_join(ts: Seq<Seq<char>>)
    requires
        forall|i: int| 0 <= i < ts.len() ==> is_word(#[trigger] ts[i]),
    ensures
        split_ws(join_space(ts)) == ts,
    decreases ts.len(),
{
    if ts.len() == 0 {
    } else if ts.len() == 1 {
        assert(is_word(ts[0]));
        lemma_split_word_then(ts[0], seq![]);
        assert(ts[0] + Seq::<char>::empty() =~= ts[0]);
        assert(seq![ts[0]] + Seq::<Seq<char>>::empty() =~= ts);
    } else {
        let rest = ts.drop_first();
        assert(is_word(ts[0]));
        assert forall|i: int| 0 <= i < rest.len() implies is_word(#[trigger] rest[i]) by {
            assert(rest[i] == ts[i + 1]);
        }
        lemma_split_join(rest);
        let x = seq![' '] + join_space(rest);
        assert(ts[0] + seq![' '] + join_space(rest) =~= ts[0] + x);
        lemma_split_word_then(ts[0], x);
        assert(x.drop_first() =~= join_space(rest));
        assert(seq![ts[0]] + rest =~= ts);
    }
}

pub(crate) fn split_whitespace_tokens(s: &Vec<char>) -> (r: Vec<Vec<char>>)
    ensures
        token_views(r@) == split_ws(s@),
{
    let mut acc: Vec<Vec<char>> = Vec::new();
    let mut cur: Vec<char> = Vec::new();
    let mut i: usize = 0;
    assert(cur@ + s@.skip(0) =~= s@);
    assert(token_views(acc@) + split_ws(s@) =~= split_ws(s@));
    while i < s.len()
        invariant
            i <= s@.len(),
            forall|m: int| 0 <= m < cur@.len() ==> !is_ws(cur@[m]),
            split_ws(s@) == token_views(acc@) + split_ws(cur@ + s@.skip(i as int)),
        decreases s.len() - i,
    {
        let c = s[i];
        let ghost rest = s@.skip(i as int);
        assert(rest[0] == c);
        assert(rest.drop_first() =~= s@.skip(i + 1));
        if is_whitespace(c) {
            proof {
                lemma_split_word_then(cur@, rest);
            }
            if cur.len() > 0 {
                let ghost old_acc = acc@;
                acc.push(cur);
                cur = Vec::new();
                assert(token_views(acc@) =~= token_views(old_acc) + seq![token_views(acc@).last()]);
            } else {
                assert(token_views(acc@) + Seq::<Seq<char>>::empty() =~= token_views(acc@));
            }
            assert(cur@ + s@.skip(i + 1) =~= s@.skip(i + 1));
            assert(split_ws(rest) == split_ws(rest.drop_first()));
            assert(split_ws(s@) =~= token_views(acc@) + split_ws(cur@ + s@.skip(i + 1)));
        } else {
            let ghost old_cur = cur@;
            cur.push(c);
            assert(old_cur + rest =~= cur@ + s@.skip(i + 1));
        }
        i = i + 1;
    }
    proof {
        assert(s@.skip(i as int) =~= Seq::<char>::empty());
        assert(cur@ + s@.skip(i as int) =~= cur@);
        lemma_split_word_then(cur@, seq![]);
        assert(cur@ + Seq::<char>::empty() =~= cur@);
    }
    if cur.len() > 0 {
        let ghost old_acc = acc@;
        acc.push(cur);
        assert(token_views(acc@) =~= token_views(old_acc) + seq![token_views(acc@).last()]);
    } else {
        assert(token_views(acc@) + Seq::<Seq<char>>::empty() =~= token_views(acc@));
    }
    acc
}

fn join_tokens(ts: &Vec<Vec<char>>) -> (r: Vec<char>)
    ensures
        r@ == join_space(token_views(ts@)),
{
    let mut out: Vec<char> = Vec::new();
    let mut i: usize = 0;
    while i < ts.len()
        invariant
            i <= ts@.len(),
            out@ == join_space(token_views(ts@).take(i as int)),
        decreases ts.len() - i,
    {
        proof {
            lemma_join_push(token_views(ts@).take(i as int), ts@[i as int]@);
            assert(token_views(ts@).take(i as int).push(ts@[i as int]@) =~= token_views(ts@).take(
                i + 1,
            ));
        }
        if i > 0 {
            out.push(' ');
        }
        append_chars(&mut out, &ts[i]);
        i = i + 1;
    }
    assert(token_views(ts@).take(i as int) =~= token_views(ts@));
    out
}

fn copy_chars(v: &Vec<char>) -> (r: Vec<char>)
    ensures
        r@ == v@,
{
    let mut r: Vec<char> = Vec::new();
    append_chars(&mut r, v);
    r
}

fn count_digits(t: &Vec<char>) -> (r: usize)
    ensures
        r == digit_count(t@),
{
    let mut n: usize = 0;
    let mut i: usize = 0;
    while i < t.len()
        invariant
            i <= t@.len(),
            n <= i,
            n == digit_count(t@.take(i as int)),
        decreases t.len() - i,
    {
        assert(t@.take(i + 1).drop_last() =~= t@.take(i as int));
        if '0' <= t[i] && t[i] <= '9' {
            n = n + 1;
        }
        i = i + 1;
    }
    assert(t@.take(i as int) =~= t@);
    n
}

/// The e-mail stage of the general cleanup.
fn redact_emails(text: &Vec<char>) -> (r: Vec<char>)
    ensures
        r@ == redact_emails_spec(text@),
{
    let tokens = split_whitespace_tokens(text);
    let mut masked: Vec<Vec<char>> = Vec::new();
    let mut i: usize = 0;
    while i < tokens.len()
        invariant
            i <= tokens@.len(),
            masked@.len() == i,
            token_views(masked@) == mask_emails(token_views(tokens@).take(i as int)),
        decreases tokens.len() - i,
    {
        let tok = &tokens[i];
        let ghost prev = masked@;
        if has_char(tok, '@') && has_char(tok, '.') {
            masked.push(chars_of(REDACTED));
        } else {
            masked.push(copy_chars(tok));
        }
        proof {
            assert(masked@[i as int]@ == mask_email(tokens@[i as int]@));
            assert forall|m: int| 0 <= m < i + 1 implies token_views(masked@)[m] == mask_emails(
                token_views(tokens@).take(i + 1),
            )[m] by {
                if m < i {
                    assert(masked@[m] == prev[m]);
                    assert(token_views(prev)[m] == mask_emails(token_views(tokens@).take(i as int))[m]);
                }
            }
        }
        i = i + 1;
        assert(token_views(masked@) =~= mask_emails(token_views(tokens@).take(i as int)));
    }
    assert(token_views(tokens@).take(i as int) =~= token_views(tokens@));
    join_tokens(&masked)
}

/// The phone stage of the general cleanup.
fn redact_phone_like(text: &Vec<char>) -> (r: Vec<char>)
    ensures
        r@ == redact_phones_spec(text@),
{
    let tokens = split_whitespace_tokens(text);
    let mut masked: Vec<Vec<char>> = Vec::new();
    let mut i: usize = 0;
    while i < tokens.len()
        invariant
            i <= tokens@.len(),
            masked@.len() == i,
            token_views(masked@) == mask_phones(token_views(tokens@).take(i as int)),
        decreases tokens.len() - i,
    {
        let tok = &tokens[i];
        let ghost prev = masked@;
        if count_digits(tok) >= 10 {
            masked.push(chars_of(REDACTED));
        } else {
            masked.push(copy_chars(tok));
        }
        proof {
            assert(masked@[i as int]@ == mask_phone(tokens@[i as int]@));
            assert forall|m: int| 0 <= m < i + 1 implies token_views(masked@)[m] == mask_phones(
                token_views(tokens@).take(i + 1),
            )[m] by {
                if m < i {
                    assert(masked@[m] == prev[m]);
                    assert(token_views(prev)[m] == mask_phones(token_views(tokens@).take(i as int))[m]);
                }
            }
        }
        i = i + 1;
        assert(token_views(masked@) =~= mask_phones(token_views(tokens@).take(i as int)));
    }
    assert(token_views(tokens@).take(i as int) =~= token_views(tokens@));
    join_tokens(&masked)
}


pub open spec fn key_views(keys: Seq<&str>) -> Seq<Seq<char>> {
    keys.map_values(|k: &str| k@)
}

proof fn lemma_redact_keys_push(t: Seq<char>, keys: Seq<Seq<char>>, k: Seq<char>)
    ensures
        redact_keys(t, keys.push(k)) == redact_key(redact_keys(t, keys), k),
    decreases keys.len(),
{
    if keys.len() == 0 {
        assert(keys.push(k).drop_first() =~= Seq::<Seq<char>>::empty());
        assert(keys.push(k)[0] == k);
        assert(redact_keys(redact_key(t, k), Seq::<Seq<char>>::empty()) == redact_key(t, k));
    } else {
        assert(keys.push(k).drop_first() =~= keys.drop_first().push(k));
        assert(keys.push(k)[0] == keys[0]);
        lemma_redact_keys_push(redact_key(t, keys[0]), keys.drop_first(), k);
    }
}

fn apply_keys(text: String, keys: &Vec<&str>) -> (r: String)
    ensures
        r@ == redact_keys(text@, key_views(keys@)),
{
    let mut out = text;
    let mut i: usize = 0;
    while i < keys.len()
        invariant
            i <= keys@.len(),
            out@ == redact_keys(text@, key_views(keys@).take(i as int)),
        decreases keys.len() - i,
    {
        proof {
            lemma_redact_keys_push(text@, key_views(keys@).take(i as int), keys@[i as int]@);
            assert(key_views(keys@).take(i as int).push(keys@[i as int]@) =~= key_views(keys@).take(
                i + 1,
            ));
        }
        out = redact_key_value(out.as_str(), keys[i]);
        i = i + 1;
    }
    assert(key_views(keys@).take(i as int) =~= key_views(keys@));
    out
}

impl SanitizerPolicyPack {
    fn extra_keys(self) -> (r: Vec<&'static str>)
        ensures
            key_views(r@) == pack_keys(self),
    {
        let r = match self {
            SanitizerPolicyPack::General => vec![],
            SanitizerPolicyPack::Security => vec!["client_secret", "private_key", "bearer"],
            SanitizerPolicyPack::Privacy => vec!["ssn", "dob", "birth_date"],
            SanitizerPolicyPack::Payments => vec!["card_number", "pan", "cvv"],
        };
        assert(key_views(r@) =~= pack_keys(self));
        r
    }
}

fn redact_with_patterns(input: &str, pack: SanitizerPolicyPack, apply_general_cleanup: bool) -> (r:
    String)
    ensures
        r@ == scrub_spec(input@, pack, apply_general_cleanup),
{
    let base: Vec<&str> = vec![
        "x-api-key",
        "api_key",
        "apikey",
        "access_token",
        "refresh_token",
        "password",
        "secret",
        "authorization",
        "auth",
        "token",
    ];
    assert(key_views(base@) =~= base_keys());
    let mut out = apply_keys(String::from_str(input), &base);
    let extra = pack.extra_keys();
    out = apply_keys(out, &extra);
    if apply_general_cleanup {
        let v = chars_of(out.as_str());
        let e = redact_emails(&v);
        let p = redact_phone_like(&e);
        out = string_from_chars(&p);
    }
    out
}

/// Scrubs credentials, e-mail addresses and phone numbers from free text.
pub fn scrub_text(input: &str) -> (r: String)
    ensures
        r@ == scrub_spec(input@, SanitizerPolicyPack::General, true),
{
    redact_with_patterns(input, SanitizerPolicyPack::General, true)
}

/// Scrubs the base credentials and those of `pack`, without the e-mail and phone cleanup.
pub fn scrub_text_with_pack(input: &str, pack: SanitizerPolicyPack) -> (r: String)
    ensures
        r@ == scrub_spec(input@, pack, false),
{
    redact_with_patterns(input, pack, false)
}

/// Scrubs the text fields of a metric (plugin, key and details) as `scrub_text` does; the
/// value stays as it is.
pub fn scrub_metric<V>(metric: &mut AnalysisMetric<V>)
    ensures
        final(metric).plugin@ == scrub_spec(old(metric).plugin@, SanitizerPolicyPack::General, true),
        final(metric).key@ == scrub_spec(old(metric).key@, SanitizerPolicyPack::General, true),
        final(metric).details@ == scrub_spec(old(metric).details@, SanitizerPolicyPack::General, true),
        final(metric).value == old(metric).value,
{
    let plugin = scrub_text(metric.plugin.as_str());
    let key = scrub_text(metric.key.as_str());
    let details = scrub_text(metric.details.as_str());
    metric.plugin = plugin;
    metric.key = key;
    metric.details = details;
}

/// Scrubs a record's repository name and release.
pub fn scrub_record_strings(repo_name: &str, release: &str) -> (r: (String, String))
    ensures
        r.0@ == scrub_spec(repo_name@, SanitizerPolicyPack::General, true),
        r.1@ == scrub_spec(release@, SanitizerPolicyPack::General, true),
{
    (scrub_text(repo_name), scrub_text(release))
}


proof fn lemma_marker_facts()
    ensures
        is_word(REDACTED@),
        !looks_like_email(REDACTED@),
        !looks_like_phone(REDACTED@),
{
    reveal_strlit("[REDACTED]");
    let m = REDACTED@;
    assert(m =~= seq!['[', 'R', 'E', 'D', 'A', 'C', 'T', 'E', 'D', ']']);
    assert(!m.contains('@')) by {
        if m.contains('@') {
            let i = choose|i: int| 0 <= i < m.len() && m[i] == '@';
        }
    }
    reveal_with_fuel(digit_count, 11);
    assert(digit_count(m) == 0);
}

proof fn lemma_masks_keep_words(ts: Seq<Seq<char>>)
    requires
        forall|i: int| 0 <= i < ts.len() ==> is_word(#[trigger] ts[i]),
    ensures
        forall|i: int| 0 <= i < ts.len() ==> is_word(#[trigger] mask_emails(ts)[i]),
        forall|i: int| 0 <= i < ts.len() ==> is_word(#[trigger] mask_phones(ts)[i]),
{
    lemma_marker_facts();
    assert forall|i: int| 0 <= i < ts.len() implies is_word(#[trigger] mask_emails(ts)[i]) by {
        assert(is_word(ts[i]));
    }
    assert forall|i: int| 0 <= i < ts.len() implies is_word(#[trigger] mask_phones(ts)[i]) by {
        assert(is_word(ts[i]));
    }
}

/// After `scrub_text`, no whitespace-separated token of the result looks like an e-mail
/// address (holds both `@` and `.`) or like a phone number (holds ten digits or more).
pub proof fn law_scrub_leaves_no_contact_tokens(s: Seq<char>)
    ensures
        forall|i: int|
            0 <= i < split_ws(scrub_spec(s, SanitizerPolicyPack::General, true)).len() ==> {
                let tok = #[trigger] split_ws(scrub_spec(s, SanitizerPolicyPack::General, true))[i];
                !(tok.contains('@') && tok.contains('.')) && digit_count(tok) < 10
            },
{
    lemma_marker_facts();
    let keyed = redact_keys(redact_keys(s, base_keys()), pack_keys(SanitizerPolicyPack::General));
    let t0 = split_ws(keyed);
    lemma_split_words(keyed);
    let t1 = mask_emails(t0);
    lemma_masks_keep_words(t0);
    lemma_split_join(t1);
    let t2 = mask_phones(t1);
    lemma_masks_keep_words(t1);
    lemma_split_join(t2);
    assert(split_ws(scrub_spec(s, SanitizerPolicyPack::General, true)) == t2);
    assert forall|i: int| 0 <= i < t2.len() implies !looks_like_email(#[trigger] t2[i])
        && !looks_like_phone(t2[i]) by {
        assert(t2[i] == mask_phone(t1[i]));
        assert(t1[i] == mask_email(t0[i]));
    }
}


/// The e-mail and phone cleanup finds nothing left to do in what `scrub_text` gives: running
/// it again on the result gives the result back.
pub proof fn law_scrub_cleanup_settles(s: Seq<char>)
    ensures
        ({
            let out = scrub_spec(s, SanitizerPolicyPack::General, true);
            redact_phones_spec(redact_emails_spec(out)) == out
        }),
{
    lemma_marker_facts();
    let keyed = redact_keys(redact_keys(s, base_keys()), pack_keys(SanitizerPolicyPack::General));
    let t0 = split_ws(keyed);
    lemma_split_words(keyed);
    let t1 = mask_emails(t0);
    lemma_masks_keep_words(t0);
    lemma_split_join(t1);
    let t2 = mask_phones(t1);
    lemma_masks_keep_words(t1);
    lemma_split_join(t2);
    let out = join_space(t2);
    assert(out == scrub_spec(s, SanitizerPolicyPack::General, true));
    assert forall|i: int| 0 <= i < t2.len() implies !looks_like_email(#[trigger] t2[i])
        && !looks_like_phone(t2[i]) by {
        assert(t2[i] == mask_phone(t1[i]));
        assert(t1[i] == mask_email(t0[i]));
    }
    assert(mask_emails(t2) =~= t2);
    assert(mask_phones(t2) =~= t2);
}

/// A policy pack only adds its own keys: scrubbing with a pack is scrubbing with the
/// general pack and then redacting the pack's extra keys.
pub proof fn law_pack_extends_general(s: Seq<char>, pack: SanitizerPolicyPack)
    ensures
        scrub_spec(s, pack, false) == redact_keys(
            scrub_spec(s, SanitizerPolicyPack::General, false),
            pack_keys(pack),
        ),
{
    let g = redact_keys(s, base_keys());
    assert(redact_keys(g, pack_keys(SanitizerPolicyPack::General)) == g);
}

/// The mandatory pre-processing bead: counts the repository name and path that the scrub
/// would change.
pub struct MandatorySanitizerPlugin;

impl MandatorySanitizerPlugin {
    pub fn name(&self) -> (r: &'static str)
        ensures
            r@ == "mandatory_sanitizer"@,
    {
        "mandatory_sanitizer"
    }

    /// How many of the repository's name and path carry something to redact.
    pub fn redaction_findings(&self, input: &AnalysisInput) -> (r: usize)
        ensures
            r == (if scrub_spec(input.repo.name@, SanitizerPolicyPack::General, true)
                != input.repo.name@ {
                1nat
            } else {
                0nat
            }) + (if scrub_spec(input.repo.path@, SanitizerPolicyPack::General, true)
                != input.repo.path@ {
                1nat
            } else {
                0nat
            }),
    {
        let mut findings: usize = 0;
        let name = scrub_text(input.repo.name.as_str());
        if !same_text(name.as_str(), input.repo.name.as_str()) {
            findings = findings + 1;
        }
        let path = scrub_text(input.repo.path.as_str());
        if !same_text(path.as_str(), input.repo.path.as_str()) {
            findings = findings + 1;
        }
        findings
    }
}


/// Every key is non-empty and free of the replacement character.
proof fn lemma_keys_plain(pack: SanitizerPolicyPack)
    ensures
        forall|i: int| 0 <= i < base_keys().len() ==> (#[trigger] base_keys()[i]).len() > 0
            && !base_keys()[i].contains('\u{FFFD}'),
        forall|i: int| 0 <= i < pack_keys(pack).len() ==> (#[trigger] pack_keys(pack)[i]).len() > 0
            && !pack_keys(pack)[i].contains('\u{FFFD}'),
{
    reveal_strlit("x-api-key");
    reveal_strlit("api_key");
    reveal_strlit("apikey");
    reveal_strlit("access_token");
    reveal_strlit("refresh_token");
    reveal_strlit("password");
    reveal_strlit("secret");
    reveal_strlit("authorization");
    reveal_strlit("auth");
    reveal_strlit("token");
    reveal_strlit("client_secret");
    reveal_strlit("private_key");
    reveal_strlit("bearer");
    reveal_strlit("ssn");
    reveal_strlit("dob");
    reveal_strlit("birth_date");
    reveal_strlit("card_number");
    reveal_strlit("pan");
    reveal_strlit("cvv");
    assert forall|i: int| 0 <= i < base_keys().len() implies (#[trigger] base_keys()[i]).len() > 0
        && !base_keys()[i].contains('\u{FFFD}') by {
        let k = base_keys()[i];
        assert forall|j: int| 0 <= j < k.len() implies k[j] != '\u{FFFD}' by {
            assert((k[j] as u32) < 0x80);
        }
    }
    assert forall|i: int| 0 <= i < pack_keys(pack).len() implies (#[trigger] pack_keys(pack)[i]).len()
        > 0 && !pack_keys(pack)[i].contains('\u{FFFD}') by {
        let k = pack_keys(pack)[i];
        assert forall|j: int| 0 <= j < k.len() implies k[j] != '\u{FFFD}' by {
            assert((k[j] as u32) < 0x80);
        }
    }
}

/// The lowercase mappings of characters that each lower to one character of `k`, in order,
/// spell `k`.
proof fn lemma_single_chunks(t: Seq<char>, k: Seq<char>)
    requires
        t.len() == k.len(),
        forall|j: int| 0 <= j < t.len() ==> char_lower(#[trigger] t[j]) == seq![k[j]],
    ensures
        lower_chars(t) == k,
    decreases t.len(),
{
    if t.len() > 0 {
        lemma_single_chunks(t.drop_last(), k.drop_last());
        assert(char_lower(t.last()) == seq![k.last()]);
        assert(lower_chars(t) =~= k);
    }
}

/// A key matched in the match view of `t` occurs in the lowercase mappings of `t`.
proof fn lemma_match_in_lowercase(t: Seq<char>, k: Seq<char>, c: int)
    requires
        occurs_at(match_view(t), k, c),
        !k.contains('\u{FFFD}'),
    ensures
        contains(lower_chars(t), k),
{
    let n = k.len() as int;
    let mid = t.subrange(c, c + n);
    assert forall|j: int| 0 <= j < mid.len() implies char_lower(#[trigger] mid[j]) == seq![
        k[j],
    ] by {
        assert(match_view(t).subrange(c, c + n)[j] == k[j]);
        assert(match_view(t)[c + j] == match_char(t[c + j]));
        if char_lower(t[c + j]).len() != 1 {
            assert(k[j] == '\u{FFFD}');
        }
        assert(char_lower(t[c + j]) =~= seq![k[j]]);
    }
    lemma_single_chunks(mid, k);
    assert(t =~= t.take(c) + mid + t.skip(c + n));
    lemma_lower_chars_append(t.take(c), mid);
    lemma_lower_chars_append(t.take(c) + mid, t.skip(c + n));
    let pre = lower_chars(t.take(c)).len() as int;
    assert(lower_chars(t).subrange(pre, pre + n) =~= k);
    assert(occurs_at(lower_chars(t), k, pre));
}

/// A key that does not occur in the lowercase mappings of `t` leaves `t` as it is.
proof fn lemma_absent_key_keeps_text(t: Seq<char>, k: Seq<char>)
    requires
        k.len() > 0,
        !k.contains('\u{FFFD}'),
        !contains(lower_chars(t), k),
    ensures
        redact_key(t, k) == t,
{
    let l = match_view(t);
    assert forall|m: int| 0 <= m < t.len() implies !occurs_at(l, k, m) by {
        if occurs_at(l, k, m) {
            lemma_match_in_lowercase(t, k, m);
        }
    }
    lemma_skip_to_occurrence(t, l, k, 0, t.len() as int);
    assert(t.subrange(0, t.len() as int) =~= t);
    assert(redact_from(t, l, k, t.len() as int) =~= Seq::<char>::empty());
}

proof fn lemma_absent_keys_keep_text(t: Seq<char>, keys: Seq<Seq<char>>)
    requires
        forall|i: int| 0 <= i < keys.len() ==> (#[trigger] keys[i]).len() > 0 && !keys[i].contains(
            '\u{FFFD}',
        ) && !contains(lower_chars(t), keys[i]),
    ensures
        redact_keys(t, keys) == t,
    decreases keys.len(),
{
    if keys.len() > 0 {
        lemma_absent_key_keeps_text(t, keys[0]);
        assert forall|i: int| 0 <= i < keys.drop_first().len() implies (#[trigger] keys.drop_first()[i]).len()
            > 0 && !keys.drop_first()[i].contains('\u{FFFD}') && !contains(
            lower_chars(t),
            keys.drop_first()[i],
        ) by {
            assert(keys.drop_first()[i] == keys[i + 1]);
        }
        lemma_absent_keys_keep_text(t, keys.drop_first());
    }
}

/// A text in whose lowercase form (character by character, as `str::to_lowercase` gives it for
/// a text without `Σ`) no base key and no key of the pack occurs comes back from the pack scrub
/// unchanged.
pub proof fn law_pack_scrub_keeps_keyless_text(s: Seq<char>, pack: SanitizerPolicyPack)
    requires
        forall|i: int| 0 <= i < base_keys().len() ==> !contains(lower_chars(s), #[trigger] base_keys()[i]),
        forall|i: int| 0 <= i < pack_keys(pack).len() ==> !contains(
            lower_chars(s),
            #[trigger] pack_keys(pack)[i],
        ),
    ensures
        scrub_spec(s, pack, false) == s,
{
    lemma_keys_plain(pack);
    lemma_absent_keys_keep_text(s, base_keys());
    lemma_absent_keys_keep_text(s, pack_keys(pack));
}


/// A character credential keys are spelled with: a lowercase ASCII letter, `_` or `-`.
pub open spec fn key_char(c: char) -> bool {
    ('a' <= c <= 'z') || c == '_' || c == '-'
}

/// A non-empty key spelled with key characters only.
pub open spec fn key_spelled(k: Seq<char>) -> bool {
    k.len() > 0 && forall|i: int| 0 <= i < k.len() ==> key_char(#[trigger] k[i])
}

/// A value that ends at the end of the text: no value delimiter and no `=` or `:` in it.
pub open spec fn plain_value(v: Seq<char>) -> bool {
    forall|i: int| 0 <= i < v.len() ==> !is_value_delimiter(#[trigger] v[i]) && v[i] != '=' && v[i] != ':'
}

/// Every occurrence of `k2` inside `k` touches a word character of `k` on one side.
pub open spec fn inner_clear(k: Seq<char>, k2: Seq<char>) -> bool {
    forall|c: int|
        0 <= c && c + k2.len() <= k.len() && #[trigger] k.subrange(c, c + k2.len()) == k2 ==> (c > 0
            && is_word_char(k[c - 1])) || (c + k2.len() < k.len() && is_word_char(k[c + k2.len()]))
}

proof fn lemma_key_char_facts(c: char)
    requires
        key_char(c),
    ensures
        match_char(c) == c,
        lower_first(c) == c,
        lower_last(c) == c,
        !is_ws(c),
        !('0' <= c <= '9'),
        c != '@',
        c != '=' && c != ':',
        !is_value_delimiter(c),
{
    assert(is_ascii_char(c));
}

proof fn lemma_sep_facts(c: char)
    requires
        c == '=' || c == ':',
    ensures
        match_char(c) == c,
        lower_first(c) == c,
        !is_word_char(c),
        !is_ws(c),
        !('0' <= c <= '9'),
        c != '@',
{
    assert(is_ascii_char(c));
}

proof fn lemma_no_separator(t: Seq<char>, j: int)
    requires
        0 <= j,
        forall|i: int| j <= i < t.len() ==> t[i] != '=' && t[i] != ':',
    ensures
        separator_from(t, j) is None,
    decreases t.len() - j,
{
    if j < t.len() && !is_word_char(t[j]) {
        lemma_no_separator(t, j + 1);
    }
}

proof fn lemma_value_to_end(t: Seq<char>, j: int)
    requires
        0 <= j <= t.len(),
        forall|i: int| j <= i < t.len() ==> !is_value_delimiter(t[i]),
    ensures
        value_end(t, j) == t.len(),
    decreases t.len() - j,
{
    if j < t.len() {
        lemma_value_to_end(t, j + 1);
    }
}

/// Where no occurrence of `k2` from `c` on is both standalone and followed by a separator,
/// the rewriting copies the text.
proof fn lemma_key_untouched(t: Seq<char>, k2: Seq<char>, c: int)
    requires
        0 <= c <= t.len(),
        k2.len() > 0,
        forall|m: int|
            c <= m && #[trigger] occurs_at(match_view(t), k2, m) ==> !key_stands_alone(
                t,
                m,
                m + k2.len(),
            ) || separator_from(t, m + k2.len()) is None,
    ensures
        redact_from(t, match_view(t), k2, c) == t.subrange(c, t.len() as int),
    decreases t.len() - c,
{
    if c == t.len() {
        assert(t.subrange(c, c) =~= Seq::<char>::empty());
    } else if c + k2.len() <= t.len() && occurs_at(match_view(t), k2, c) {
        let e = c + k2.len();
        lemma_key_untouched(t, k2, e);
        assert(t.subrange(c, t.len() as int) =~= t.subrange(c, e) + t.subrange(e, t.len() as int));
    } else {
        lemma_key_untouched(t, k2, c + 1);
        assert(t.subrange(c, t.len() as int) =~= seq![t[c]] + t.subrange(c + 1, t.len() as int));
    }
}

/// In `k`, a separator and a plain value, another key whose occurrences in `k` are not
/// standalone changes nothing.
proof fn lemma_other_key_keeps(k: Seq<char>, sep: char, x: Seq<char>, k2: Seq<char>)
    requires
        key_spelled(k),
        key_spelled(k2),
        sep == '=' || sep == ':',
        plain_value(x),
        inner_clear(k, k2),
    ensures
        redact_key(k + seq![sep] + x, k2) == k + seq![sep] + x,
{
    let w = k + seq![sep] + x;
    let l = match_view(w);
    let n = k2.len() as int;
    lemma_sep_facts(sep);
    assert forall|m: int| 0 <= m && #[trigger] occurs_at(l, k2, m) implies !key_stands_alone(
        w,
        m,
        m + n,
    ) || separator_from(w, m + n) is None by {
        let e = m + n;
        if e <= k.len() {
            assert forall|i: int| 0 <= i < n implies #[trigger] k.subrange(m, e)[i] == k2[i] by {
                lemma_key_char_facts(k[m + i]);
                assert(w[m + i] == k[m + i]);
                assert(l.subrange(m, e)[i] == k2[i]);
            }
            assert(k.subrange(m, e) =~= k2);
            if m > 0 && is_word_char(k[m - 1]) {
                lemma_key_char_facts(k[m - 1]);
                assert(w[m - 1] == k[m - 1]);
            } else {
                lemma_key_char_facts(k[e]);
                assert(w[e] == k[e]);
            }
        } else if m <= k.len() {
            let i = k.len() - m;
            assert(w[k.len() as int] == sep);
            assert(l[k.len() as int] == sep);
            assert(l.subrange(m, e)[i] == k2[i]);
            lemma_key_char_facts(k2[i]);
        } else {
            assert forall|i: int| e <= i < w.len() implies w[i] != '=' && w[i] != ':' by {
                assert(w[i] == x[i - k.len() - 1]);
            }
            lemma_no_separator(w, e);
        }
    }
    lemma_key_untouched(w, k2, 0);
    assert(w.subrange(0, w.len() as int) =~= w);
}

/// In `k`, a separator and a plain value, the key `k` gets its value replaced by the marker.
proof fn lemma_own_key_redacts(k: Seq<char>, sep: char, x: Seq<char>)
    requires
        key_spelled(k),
        sep == '=' || sep == ':',
        plain_value(x),
    ensures
        redact_key(k + seq![sep] + x, k) == k + seq![sep] + REDACTED@,
{
    let w = k + seq![sep] + x;
    let l = match_view(w);
    let n = k.len() as int;
    lemma_sep_facts(sep);
    assert forall|i: int| 0 <= i < n implies #[trigger] l.subrange(0, n)[i] == k[i] by {
        lemma_key_char_facts(k[i]);
        assert(w[i] == k[i]);
    }
    assert(l.subrange(0, n) =~= k);
    assert(occurs_at(l, k, 0));
    assert(w[n] == sep);
    assert(key_stands_alone(w, 0, n));
    assert(separator_from(w, n) == Some(n));
    assert(skip_blanks(w, n + 1) == n + 1) by {
        if n + 1 < w.len() {
            assert(w[n + 1] == x[0]);
        }
    }
    assert forall|i: int| n + 1 <= i < w.len() implies !is_value_delimiter(w[i]) by {
        assert(w[i] == x[i - n - 1]);
    }
    lemma_value_to_end(w, n + 1);
    assert(value_end(w, skip_blanks(w, n + 1)) == w.len());
    assert(redact_from(w, l, k, w.len() as int) == Seq::<char>::empty());
    assert(redact_from(w, l, k, 0) == w.subrange(0, n + 1) + REDACTED@ + redact_from(
        w,
        l,
        k,
        w.len() as int,
    ));
    assert(w.subrange(0, n + 1) =~= k + seq![sep]);
    assert(k + seq![sep] + REDACTED@ + Seq::<char>::empty() =~= k + seq![sep] + REDACTED@);
}

/// The marker is a plain value.
proof fn lemma_marker_plain()
    ensures
        plain_value(REDACTED@),
        forall|i: int| 0 <= i < REDACTED@.len() ==> !is_ws(#[trigger] REDACTED@[i]) && REDACTED@[i] != '@'
            && !('0' <= REDACTED@[i] <= '9'),
{
    reveal_strlit("[REDACTED]");
    assert(REDACTED@ =~= seq!['[', 'R', 'E', 'D', 'A', 'C', 'T', 'E', 'D', ']']);
}

/// Redacting a list of keys over `k`, a separator and a plain value: the value becomes the
/// marker when `k` is in the list, and nothing else changes.
proof fn lemma_keys_over_entry(k: Seq<char>, sep: char, x: Seq<char>, keys: Seq<Seq<char>>)
    requires
        key_spelled(k),
        sep == '=' || sep == ':',
        plain_value(x),
        forall|i: int| 0 <= i < keys.len() ==> key_spelled(#[trigger] keys[i]) && (keys[i] == k
            || inner_clear(k, keys[i])),
    ensures
        redact_keys(k + seq![sep] + x, keys) == if keys.contains(k) {
            k + seq![sep] + REDACTED@
        } else {
            k + seq![sep] + x
        },
    decreases keys.len(),
{
    if keys.len() > 0 {
        let rest = keys.drop_first();
        assert forall|i: int| 0 <= i < rest.len() implies key_spelled(#[trigger] rest[i]) && (rest[i]
            == k || inner_clear(k, rest[i])) by {
            assert(rest[i] == keys[i + 1]);
        }
        lemma_marker_plain();
        if keys[0] == k {
            lemma_own_key_redacts(k, sep, x);
            lemma_keys_over_entry(k, sep, REDACTED@, rest);
            assert(keys.contains(k));
        } else {
            lemma_other_key_keeps(k, sep, x, keys[0]);
            lemma_keys_over_entry(k, sep, x, rest);
            assert(keys.contains(k) == rest.contains(k)) by {
                if keys.contains(k) {
                    let i = choose|i: int| 0 <= i < keys.len() && keys[i] == k;
                    assert(rest[i - 1] == k);
                }
                if rest.contains(k) {
                    let i = choose|i: int| 0 <= i < rest.len() && rest[i] == k;
                    assert(keys[i + 1] == k);
                }
            }
        }
    }
}

/// A key made of word characters holds no other key standalone.
proof fn lemma_word_key_clear(k: Seq<char>, k2: Seq<char>)
    requires
        forall|i: int| 0 <= i < k.len() ==> is_word_char(#[trigger] k[i]),
        k2 != k,
    ensures
        inner_clear(k, k2),
{
    assert forall|c: int|
        0 <= c && c + k2.len() <= k.len() && #[trigger] k.subrange(c, c + k2.len()) == k2 implies (c
            > 0 && is_word_char(k[c - 1])) || (c + k2.len() < k.len() && is_word_char(
        k[c + k2.len()],
    )) by {
        if c == 0 && c + k2.len() == k.len() {
            assert(k.subrange(0, k.len() as int) =~= k);
        }
    }
}


/// `x-api-key` holds no other base key standalone.
proof fn lemma_dashed_key_clear(k2: Seq<char>)
    requires
        k2 == "api_key"@ || k2 == "apikey"@ || k2 == "access_token"@ || k2 == "refresh_token"@ || k2
            == "password"@ || k2 == "secret"@ || k2 == "authorization"@ || k2 == "auth"@ || k2
            == "token"@ || k2 == "client_secret"@ || k2 == "private_key"@ || k2 == "bearer"@ || k2
            == "ssn"@ || k2 == "dob"@ || k2 == "birth_date"@ || k2 == "card_number"@ || k2 == "pan"@
            || k2 == "cvv"@,
    ensures
        inner_clear("x-api-key"@, k2),
{
    reveal_strlit("x-api-key");
    reveal_strlit("api_key");
    reveal_strlit("apikey");
    reveal_strlit("access_token");
    reveal_strlit("refresh_token");
    reveal_strlit("password");
    reveal_strlit("secret");
    reveal_strlit("authorization");
    reveal_strlit("auth");
    reveal_strlit("token");
    reveal_strlit("client_secret");
    reveal_strlit("private_key");
    reveal_strlit("bearer");
    reveal_strlit("ssn");
    reveal_strlit("dob");
    reveal_strlit("birth_date");
    reveal_strlit("card_number");
    reveal_strlit("pan");
    reveal_strlit("cvv");
    let k = "x-api-key"@;
    assert forall|c: int|
        0 <= c && c + k2.len() <= k.len() && #[trigger] k.subrange(c, c + k2.len()) == k2 implies (c
            > 0 && is_word_char(k[c - 1])) || (c + k2.len() < k.len() && is_word_char(
        k[c + k2.len()],
    )) by {
        assert(k.subrange(c, c + k2.len())[0] == k2[0]);
        assert(k.subrange(c, c + k2.len())[1] == k2[1]);
        assert(k.subrange(c, c + k2.len())[3] == k2[3]);
    }
}

/// The base keys are spelled with key characters, and each but `x-api-key` with word
/// characters only.
proof fn lemma_base_keys_spelled()
    ensures
        forall|i: int| 0 <= i < base_keys().len() ==> key_spelled(#[trigger] base_keys()[i]),
        forall|i: int, j: int|
            1 <= i < base_keys().len() && 0 <= j < base_keys()[i].len() ==> is_word_char(
                #[trigger] base_keys()[i][j],
            ),
{
    reveal_strlit("x-api-key");
    reveal_strlit("api_key");
    reveal_strlit("apikey");
    reveal_strlit("access_token");
    reveal_strlit("refresh_token");
    reveal_strlit("password");
    reveal_strlit("secret");
    reveal_strlit("authorization");
    reveal_strlit("auth");
    reveal_strlit("token");
    assert forall|i: int| 0 <= i < base_keys().len() implies key_spelled(#[trigger] base_keys()[i]) by {
        let k = base_keys()[i];
        assert forall|j: int| 0 <= j < k.len() implies key_char(#[trigger] k[j]) by {
            assert((k[j] as u32) < 0x80);
        }
    }
}


proof fn lemma_digitless(t: Seq<char>)
    requires
        forall|i: int| 0 <= i < t.len() ==> !('0' <= #[trigger] t[i] <= '9'),
    ensures
        digit_count(t) == 0,
    decreases t.len(),
{
    if t.len() > 0 {
        assert(!('0' <= t[t.len() - 1] <= '9'));
        lemma_digitless(t.drop_last());
    }
}

/// A single word without `@` or digits passes the e-mail and phone cleanup unchanged.
proof fn lemma_cleanup_keeps_word(u: Seq<char>)
    requires
        is_word(u),
        forall|i: int| 0 <= i < u.len() ==> #[trigger] u[i] != '@' && !('0' <= u[i] <= '9'),
    ensures
        redact_phones_spec(redact_emails_spec(u)) == u,
{
    lemma_split_word_then(u, seq![]);
    assert(u + Seq::<char>::empty() =~= u);
    assert(split_ws(u) =~= seq![u]);
    assert(!u.contains('@'));
    assert(mask_emails(seq![u]) =~= seq![u]);
    assert(join_space(seq![u]) == u);
    lemma_digitless(u);
    assert(mask_phones(seq![u]) =~= seq![u]);
}

/// Every base credential key (`x-api-key`, `api_key`, `apikey`, `access_token`,
/// `refresh_token`, `password`, `secret`, `authorization`, `auth`, `token`) written with `=` or
/// `:` and a value that runs to the end of the text gets its value replaced by `[REDACTED]`, by
/// `scrub_text` and by the pack scrub with the general pack alike.
pub proof fn law_base_key_values_redacted(k: Seq<char>, sep: char, v: Seq<char>)
    requires
        k == "x-api-key"@ || k == "api_key"@ || k == "apikey"@ || k == "access_token"@ || k
            == "refresh_token"@ || k == "password"@ || k == "secret"@ || k == "authorization"@ || k
            == "auth"@ || k == "token"@,
        sep == '=' || sep == ':',
        forall|i: int|
            0 <= i < v.len() ==> #[trigger] v[i] != ' ' && v[i] != '\t' && v[i] != '\r' && v[i]
                != '\n' && v[i] != ';' && v[i] != ',' && v[i] != '=' && v[i] != ':',
    ensures
        scrub_spec(k + seq![sep] + v, SanitizerPolicyPack::General, true) == k + seq![sep]
            + "[REDACTED]"@,
        scrub_spec(k + seq![sep] + v, SanitizerPolicyPack::General, false) == k + seq![sep]
            + "[REDACTED]"@,
{
    lemma_base_keys_spelled();
    lemma_marker_plain();
    let ks = base_keys();
    let idx: int = if k == "x-api-key"@ {
        0
    } else if k == "api_key"@ {
        1
    } else if k == "apikey"@ {
        2
    } else if k == "access_token"@ {
        3
    } else if k == "refresh_token"@ {
        4
    } else if k == "password"@ {
        5
    } else if k == "secret"@ {
        6
    } else if k == "authorization"@ {
        7
    } else if k == "auth"@ {
        8
    } else {
        9
    };
    assert(ks[idx] == k);
    assert(ks.contains(k));
    assert(key_spelled(k));
    assert forall|i: int| 0 <= i < ks.len() implies key_spelled(#[trigger] ks[i]) && (ks[i] == k
        || inner_clear(k, ks[i])) by {
        if ks[i] != k {
            if idx == 0 {
                lemma_dashed_key_clear(ks[i]);
            } else {
                assert forall|j: int| 0 <= j < k.len() implies is_word_char(#[trigger] k[j]) by {
                    assert(is_word_char(ks[idx][j]));
                }
                lemma_word_key_clear(k, ks[i]);
            }
        }
    }
    assert(plain_value(v));
    lemma_keys_over_entry(k, sep, v, ks);
    let u = k + seq![sep] + REDACTED@;
    assert(redact_keys(u, pack_keys(SanitizerPolicyPack::General)) == u);
    lemma_sep_facts(sep);
    assert forall|i: int| 0 <= i < u.len() implies #[trigger] u[i] != '@' && !('0' <= u[i] <= '9')
        && !is_ws(u[i]) by {
        if i < k.len() {
            lemma_key_char_facts(k[i]);
        } else if i > k.len() {
            assert(u[i] == REDACTED@[i - k.len() - 1]);
        }
    }
    assert(is_word(u));
    lemma_cleanup_keeps_word(u);
}


/// The keys of a pack are spelled with word characters only.
proof fn lemma_pack_keys_spelled(pack: SanitizerPolicyPack)
    ensures
        forall|i: int| 0 <= i < pack_keys(pack).len() ==> key_spelled(#[trigger] pack_keys(pack)[i]),
        forall|i: int, j: int|
            0 <= i < pack_keys(pack).len() && 0 <= j < pack_keys(pack)[i].len() ==> is_word_char(
                #[trigger] pack_keys(pack)[i][j],
            ),
{
    reveal_strlit("client_secret");
    reveal_strlit("private_key");
    reveal_strlit("bearer");
    reveal_strlit("ssn");
    reveal_strlit("dob");
    reveal_strlit("birth_date");
    reveal_strlit("card_number");
    reveal_strlit("pan");
    reveal_strlit("cvv");
    assert forall|i: int| 0 <= i < pack_keys(pack).len() implies key_spelled(#[trigger] pack_keys(pack)[i]) by {
        let k = pack_keys(pack)[i];
        assert forall|j: int| 0 <= j < k.len() implies key_char(#[trigger] k[j]) by {
            assert((k[j] as u32) < 0x80);
        }
    }
}

/// Every credential key a pack adds (`client_secret`, `private_key` and `bearer` for security;
/// `ssn`, `dob` and `birth_date` for privacy; `card_number`, `pan` and `cvv` for payments)
/// written with `=` or `:` and a value that runs to the end of the text gets its value
/// replaced by `[REDACTED]` by the scrub with that pack.
pub proof fn law_pack_key_values_redacted(pack: SanitizerPolicyPack, k: Seq<char>, sep: char, v: Seq<char>)
    requires
        (pack == SanitizerPolicyPack::Security && (k == "client_secret"@ || k == "private_key"@ || k
            == "bearer"@)) || (pack == SanitizerPolicyPack::Privacy && (k == "ssn"@ || k == "dob"@
            || k == "birth_date"@)) || (pack == SanitizerPolicyPack::Payments && (k
            == "card_number"@ || k == "pan"@ || k == "cvv"@)),
        sep == '=' || sep == ':',
        forall|i: int|
            0 <= i < v.len() ==> #[trigger] v[i] != ' ' && v[i] != '\t' && v[i] != '\r' && v[i]
                != '\n' && v[i] != ';' && v[i] != ',' && v[i] != '=' && v[i] != ':',
    ensures
        scrub_spec(k + seq![sep] + v, pack, false) == k + seq![sep] + "[REDACTED]"@,
{
    lemma_base_keys_spelled();
    lemma_pack_keys_spelled(pack);
    lemma_marker_plain();
    let ks = base_keys();
    let pk = pack_keys(pack);
    reveal_strlit("x-api-key");
    reveal_strlit("api_key");
    reveal_strlit("apikey");
    reveal_strlit("access_token");
    reveal_strlit("refresh_token");
    reveal_strlit("password");
    reveal_strlit("secret");
    reveal_strlit("authorization");
    reveal_strlit("auth");
    reveal_strlit("token");
    reveal_strlit("client_secret");
    reveal_strlit("bearer");
    reveal_strlit("private_key");
    reveal_strlit("ssn");
    reveal_strlit("dob");
    reveal_strlit("birth_date");
    reveal_strlit("card_number");
    reveal_strlit("pan");
    reveal_strlit("cvv");
    let idx: int = match pack {
        SanitizerPolicyPack::Security => if k == "client_secret"@ {
            0
        } else if k == "private_key"@ {
            1
        } else {
            2
        },
        SanitizerPolicyPack::Privacy => if k == "ssn"@ {
            0
        } else if k == "dob"@ {
            1
        } else {
            2
        },
        _ => if k == "card_number"@ {
            0
        } else if k == "pan"@ {
            1
        } else {
            2
        },
    };
    assert(pk[idx] == k);
    assert(pk.contains(k));
    assert(key_spelled(k));
    assert forall|j: int| 0 <= j < k.len() implies is_word_char(#[trigger] k[j]) by {
        assert(is_word_char(pk[idx][j]));
    }
    assert forall|i: int| 0 <= i < ks.len() implies key_spelled(#[trigger] ks[i]) && (ks[i] == k
        || inner_clear(k, ks[i])) && ks[i] != k by {
        if ks[i].len() == k.len() {
            assert(ks[i][0] != k[0]);
        }
        lemma_word_key_clear(k, ks[i]);
    }
    assert(!ks.contains(k)) by {
        if ks.contains(k) {
            let i = choose|i: int| 0 <= i < ks.len() && ks[i] == k;
            assert(ks[i] != k);
        }
    }
    assert(plain_value(v));
    lemma_keys_over_entry(k, sep, v, ks);
    assert forall|i: int| 0 <= i < pk.len() implies key_spelled(#[trigger] pk[i]) && (pk[i] == k
        || inner_clear(k, pk[i])) by {
        if pk[i] != k {
            lemma_word_key_clear(k, pk[i]);
        }
    }
    lemma_keys_over_entry(k, sep, v, pk);
}


/// The base credential keys are redacted by the scrub with any pack: a base key (`x-api-key`,
/// `api_key`, `apikey`, `access_token`, `refresh_token`, `password`, `secret`,
/// `authorization`, `auth`, `token`) written with `=` or `:` and a value that runs to the end
/// of the text gets its value replaced by `[REDACTED]`.
pub proof fn law_base_key_values_redacted_in_every_pack(
    pack: SanitizerPolicyPack,
    k: Seq<char>,
    sep: char,
    v: Seq<char>,
)
    requires
        k == "x-api-key"@ || k == "api_key"@ || k == "apikey"@ || k == "access_token"@ || k
            == "refresh_token"@ || k == "password"@ || k == "secret"@ || k == "authorization"@ || k
            == "auth"@ || k == "token"@,
        sep == '=' || sep == ':',
        forall|i: int|
            0 <= i < v.len() ==> #[trigger] v[i] != ' ' && v[i] != '\t' && v[i] != '\r' && v[i]
                != '\n' && v[i] != ';' && v[i] != ',' && v[i] != '=' && v[i] != ':',
    ensures
        scrub_spec(k + seq![sep] + v, pack, false) == k + seq![sep] + "[REDACTED]"@,
{
    law_base_key_values_redacted(k, sep, v);
    let ks = base_keys();
    let u = k + seq![sep] + REDACTED@;
    assert(redact_keys(k + seq![sep] + v, ks) == u);
    lemma_base_keys_spelled();
    lemma_pack_keys_spelled(pack);
    lemma_marker_plain();
    reveal_strlit("x-api-key");
    reveal_strlit("api_key");
    reveal_strlit("apikey");
    reveal_strlit("access_token");
    reveal_strlit("refresh_token");
    reveal_strlit("password");
    reveal_strlit("secret");
    reveal_strlit("authorization");
    reveal_strlit("auth");
    reveal_strlit("token");
    reveal_strlit("client_secret");
    reveal_strlit("bearer");
    reveal_strlit("private_key");
    reveal_strlit("ssn");
    reveal_strlit("dob");
    reveal_strlit("birth_date");
    reveal_strlit("card_number");
    reveal_strlit("pan");
    reveal_strlit("cvv");
    let pk = pack_keys(pack);
    let idx: int = if k == "x-api-key"@ {
        0
    } else if k == "api_key"@ {
        1
    } else if k == "apikey"@ {
        2
    } else if k == "access_token"@ {
        3
    } else if k == "refresh_token"@ {
        4
    } else if k == "password"@ {
        5
    } else if k == "secret"@ {
        6
    } else if k == "authorization"@ {
        7
    } else if k == "auth"@ {
        8
    } else {
        9
    };
    assert(ks[idx] == k);
    assert(key_spelled(k));
    assert forall|i: int| 0 <= i < pk.len() implies key_spelled(#[trigger] pk[i]) && (pk[i] == k
        || inner_clear(k, pk[i])) && pk[i] != k by {
        if pk[i].len() == k.len() {
            assert(pk[i][0] != k[0]);
        }
        if idx == 0 {
            lemma_dashed_key_clear(pk[i]);
        } else {
            assert forall|j: int| 0 <= j < k.len() implies is_word_char(#[trigger] k[j]) by {
                assert(is_word_char(ks[idx][j]));
            }
            lemma_word_key_clear(k, pk[i]);
        }
    }
    assert(!pk.contains(k)) by {
        if pk.contains(k) {
            let i = choose|i: int| 0 <= i < pk.len() && pk[i] == k;
            assert(pk[i] != k);
        }
    }
    lemma_keys_over_entry(k, sep, REDACTED@, pk);
}

} // verus!
