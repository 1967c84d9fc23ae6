use vstd::prelude::*;

verus! {

/// Whether two character vectors are equal.
pub fn same_chars(a: &Vec<char>, b: &Vec<char>) -> (r: bool)
    ensures
        r == (a@ == b@),
{
    if a.len() != b.len() {
        return false;
    }
    let mut i: usize = 0;
    while i < a.len()
        invariant
            i <= a@.len(),
            a@.len() == b@.len(),
            forall|k: int| 0 <= k < i ==> a@[k] == b@[k],
        decreases a.len() - i,
    {
        if a[i] != b[i] {
            return false;
        }
        i = i + 1;
    }
    assert(a@ =~= b@);
    true
}

/// Whether two strings hold the same characters.
pub fn same_text(a: &str, b: &str) -> (r: bool)
    ensures
        r == (a@ == b@),
{
    let x = chars_of(a);
    let y = chars_of(b);
    same_chars(&x, &y)
}

/// The characters of a string slice, collected into a vector.
pub fn chars_of(s: &str) -> (r: Vec<char>)
    ensures
        r@ == s@,
{
    let mut out: Vec<char> = Vec::new();
    for c in it: s.chars()
        invariant
            out@ == it.seq().take(it.index() as int),
            it.seq() == s@,
    {
        out.push(c);
    }
    out
}

/// A `String` made of the given characters, in order (collects the characters with std's
/// `FromIterator<&char>` for `String`; the contract claims the string holds exactly them).
#[verifier::external_body]
pub fn string_from_chars(v: &Vec<char>) -> (r: String)
    ensures
        r@ == v@,
{
    v.iter().collect::<String>()
}

/// The lowercase form of a character sequence as std's `str::to_lowercase` computes it
/// (the Unicode lowercase mapping, with the context rule for final sigma).
pub uninterp spec fn lowercase_of(s: Seq<char>) -> Seq<char>;

/// An ASCII character.
pub open spec fn is_ascii_char(c: char) -> bool {
    (c as u32) < 0x80
}

/// The ASCII lowercase of a character: `A`..`Z` become `a`..`z`, every other character stays.
pub open spec fn ascii_lower(c: char) -> char {
    if 'A' <= c <= 'Z' {
        ((c as u32) + 32) as char
    } else {
        c
    }
}

/// Every character of `s` is ASCII.
pub open spec fn all_ascii(s: Seq<char>) -> bool {
    forall|i: int| 0 <= i < s.len() ==> is_ascii_char(#[trigger] s[i])
}

/// The ASCII lowercase of each character of `s`.
pub open spec fn ascii_lowercase(s: Seq<char>) -> Seq<char> {
    Seq::new(s.len(), |i: int| ascii_lower(s[i]))
}

/// Calls std's `str::to_lowercase`. The contract claims that the result is the named lowercase
/// form of the argument, which depends on the argument alone; for an all-ASCII argument, that
/// it is the ASCII lowercase character by character (the Unicode lowercase mapping of `A`..`Z`
/// is `a`..`z`, and every other ASCII character maps to itself); and, for an argument without
/// `Σ`, that it is the lowercase mappings of its characters in order, as `char::to_lowercase`
/// yields them (Unicode's default lowercasing maps each character by itself; its one
/// context-dependent lowercase rule is the final form of `Σ`).
#[verifier::external_body]
pub fn to_lowercase(s: &str) -> (r: String)
    ensures
        r@ == lowercase_of(s@),
        all_ascii(s@) ==> r@ == ascii_lowercase(s@),
        !s@.contains('\u{3A3}') ==> r@ == lower_chars(s@),
{
    s.to_lowercase()
}

/// The lowercase mapping of one character as std's `char::to_lowercase` yields it.
pub uninterp spec fn char_lowercase_of(c: char) -> Seq<char>;

/// The lowercase mapping of one character: for an ASCII character its ASCII lowercase (as
/// `char::to_lowercase` gives it), for any other the named mapping.
pub open spec fn char_lower(c: char) -> Seq<char> {
    if is_ascii_char(c) {
        seq![ascii_lower(c)]
    } else {
        char_lowercase_of(c)
    }
}

/// The lowercase mappings of the characters of `s`, in order.
pub open spec fn lower_chars(s: Seq<char>) -> Seq<char>
    decreases s.len(),
{
    if s.len() == 0 {
        seq![]
    } else {
        lower_chars(s.drop_last()) + char_lower(s.last())
    }
}

/// The lowercase mappings of a concatenation are those of its parts.
pub proof fn lemma_lower_chars_append(a: Seq<char>, b: Seq<char>)
    ensures
        lower_chars(a + b) == lower_chars(a) + lower_chars(b),
    decreases b.len(),
{
    if b.len() == 0 {
        assert(a + b =~= a);
        assert(lower_chars(a) + lower_chars(b) =~= lower_chars(a));
    } else {
        assert((a + b).drop_last() =~= a + b.drop_last());
        lemma_lower_chars_append(a, b.drop_last());
        assert(lower_chars(a + b) =~= lower_chars(a) + lower_chars(b));
    }
}

/// Calls std's `char::to_lowercase` and collects the characters it yields. The contract claims
/// that the result is the named mapping of `c`, that it holds at least one character (the
/// iterator yields "one or more `char`s"), and that an ASCII character maps to its ASCII
/// lowercase alone.
#[verifier::external_body]
pub fn char_to_lowercase(c: char) -> (r: Vec<char>)
    ensures
        r@ == char_lowercase_of(c),
        r@.len() >= 1,
        is_ascii_char(c) ==> r@ == seq![ascii_lower(c)],
{
    c.to_lowercase().collect()
}

/// The Unicode `White_Space` property, which `char::is_whitespace`, `str::trim` and
/// `str::split_whitespace` use.
pub open spec fn is_ws(c: char) -> bool {
    let u = c as u32;
    (0x09 <= u <= 0x0d) || u == 0x20 || u == 0x85 || u == 0xa0 || u == 0x1680
        || (0x2000 <= u <= 0x200a) || u == 0x2028 || u == 0x2029 || u == 0x202f
        || u == 0x205f || u == 0x3000
}

pub fn is_whitespace(c: char) -> (r: bool)
    ensures
        r == is_ws(c),
{
    let u = c as u32;
    (0x09 <= u && u <= 0x0d) || u == 0x20 || u == 0x85 || u == 0xa0 || u == 0x1680
        || (0x2000 <= u && u <= 0x200a) || u == 0x2028 || u == 0x2029 || u == 0x202f
        || u == 0x205f || u == 0x3000
}

/// The Unicode general category `Cc`, which `char::is_control` tests.
pub open spec fn is_cc(c: char) -> bool {
    let u = c as u32;
    u <= 0x1f || (0x7f <= u <= 0x9f)
}

pub fn is_control(c: char) -> (r: bool)
    ensures
        r == is_cc(c),
{
    let u = c as u32;
    u <= 0x1f || (0x7f <= u && u <= 0x9f)
}

/// ASCII letters and digits.
pub open spec fn is_ascii_alnum(c: char) -> bool {
    ('0' <= c <= '9') || ('a' <= c <= 'z') || ('A' <= c <= 'Z')
}

pub fn ascii_alnum(c: char) -> (r: bool)
    ensures
        r == is_ascii_alnum(c),
{
    ('0' <= c && c <= '9') || ('a' <= c && c <= 'z') || ('A' <= c && c <= 'Z')
}

/// `s` without its leading whitespace.
pub open spec fn trim_start(s: Seq<char>) -> Seq<char>
    decreases s.len(),
{
    if s.len() > 0 && is_ws(s[0]) {
        trim_start(s.drop_first())
    } else {
        s
    }
}

/// `s` without its trailing whitespace.
pub open spec fn trim_end(s: Seq<char>) -> Seq<char>
    decreases s.len(),
{
    if s.len() > 0 && is_ws(s.last()) {
        trim_end(s.drop_last())
    } else {
        s
    }
}

/// `s` without leading and trailing whitespace, as `str::trim` gives it.
pub open spec fn trim(s: Seq<char>) -> Seq<char> {
    trim_end(trim_start(s))
}

pub fn trim_chars(s: &Vec<char>) -> (r: Vec<char>)
    ensures
        r@ == trim(s@),
{
    let n = s.len();
    let mut a: usize = 0;
    assert(s@.subrange(0, n as int) =~= s@);
    while a < n && is_whitespace(s[a])
        invariant
            a <= n,
            n == s@.len(),
            trim_start(s@) == trim_start(s@.subrange(a as int, n as int)),
        decreases n - a,
    {
        assert(s@.subrange(a as int, n as int).drop_first() =~= s@.subrange(a + 1, n as int));
        a = a + 1;
    }
    assert(trim_start(s@) == s@.subrange(a as int, n as int));
    let mut b: usize = n;
    while b > a && is_whitespace(s[b - 1])
        invariant
            a <= b <= n,
            n == s@.len(),
            trim(s@) == trim_end(s@.subrange(a as int, b as int)),
        decreases b,
    {
        assert(s@.subrange(a as int, b as int).drop_last() =~= s@.subrange(a as int, b - 1));
        b = b - 1;
    }
    let mut out: Vec<char> = Vec::new();
    let mut i = a;
    while i < b
        invariant
            a <= i <= b <= n,
            n == s@.len(),
            out@ == s@.subrange(a as int, i as int),
        decreases b - i,
    {
        out.push(s[i]);
        i = i + 1;
        assert(out@ =~= s@.subrange(a as int, i as int));
    }
    out
}

/// Whether `p` occurs in `s` starting at position `i`.
pub open spec fn occurs_at(s: Seq<char>, p: Seq<char>, i: int) -> bool {
    0 <= i && i + p.len() <= s.len() && s.subrange(i, i + p.len()) == p
}

/// The first position at or after `from` where `p` occurs in `s`.
pub open spec fn find_from(s: Seq<char>, p: Seq<char>, from: int) -> Option<int>
    decreases s.len() + 1 - from,
{
    if from < 0 || from + p.len() > s.len() {
        None
    } else if occurs_at(s, p, from) {
        Some(from)
    } else {
        find_from(s, p, from + 1)
    }
}

/// Whether `p` occurs somewhere in `s`, as `str::contains` with a string pattern tests it.
pub open spec fn contains(s: Seq<char>, p: Seq<char>) -> bool {
    exists|i: int| occurs_at(s, p, i)
}

pub fn matches_at(s: &Vec<char>, p: &Vec<char>, i: usize) -> (r: bool)
    ensures
        r == occurs_at(s@, p@, i as int),
{
    if i > s.len() || p.len() > s.len() - i {
        return false;
    }
    let mut k: usize = 0;
    while k < p.len()
        invariant
            i + p@.len() <= s@.len(),
            i + p.len() <= s.len(),
            k <= p@.len(),
            forall|m: int| 0 <= m < k ==> s@[i + m] == p@[m],
        decreases p.len() - k,
    {
        if s[i + k] != p[k] {
            assert(s@.subrange(i as int, i + p@.len())[k as int] != p@[k as int]);
            return false;
        }
        k = k + 1;
    }
    assert(s@.subrange(i as int, i + p@.len()) =~= p@);
    true
}

pub proof fn lemma_find_from_some(s: Seq<char>, p: Seq<char>, from: int)
    requires
        0 <= from,
    ensures
        find_from(s, p, from) matches Some(q) ==> from <= q && occurs_at(s, p, q)
            && forall|m: int| from <= m < q ==> !occurs_at(s, p, m),
        find_from(s, p, from) is None ==> forall|m: int| from <= m ==> !occurs_at(s, p, m),
    decreases s.len() + 1 - from,
{
    if from + p.len() > s.len() {
    } else if occurs_at(s, p, from) {
    } else {
        lemma_find_from_some(s, p, from + 1);
    }
}

pub fn find_chars(s: &Vec<char>, p: &Vec<char>, from: usize) -> (r: Option<usize>)
    ensures
        r matches Some(q) ==> find_from(s@, p@, from as int) == Some(q as int),
        r is None ==> find_from(s@, p@, from as int) is None,
        r matches Some(q) ==> q + p@.len() <= s@.len(),
{
    let mut i = from;
    if i > s.len() || p.len() > s.len() - i {
        return None;
    }
    let last = s.len() - p.len();
    loop
        invariant
            from <= i <= last,
            p@.len() <= s@.len(),
            last == s@.len() - p@.len(),
            find_from(s@, p@, from as int) == find_from(s@, p@, i as int),
        decreases last - i,
    {
        if matches_at(s, p, i) {
            return Some(i);
        }
        if i == last {
            assert(find_from(s@, p@, i + 1) is None);
            return None;
        }
        i = i + 1;
    }
}

pub fn contains_chars(s: &Vec<char>, p: &Vec<char>) -> (r: bool)
    ensures
        r == contains(s@, p@),
{
    let r = find_chars(s, p, 0);
    proof {
        lemma_find_from_some(s@, p@, 0);
    }
    match r {
        Some(_) => true,
        None => {
            assert forall|i: int| !occurs_at(s@, p@, i) by {
                if i < 0 {
                }
            }
            false
        },
    }
}

pub fn contains_str(s: &Vec<char>, p: &str) -> (r: bool)
    ensures
        r == contains(s@, p@),
{
    let pv = chars_of(p);
    contains_chars(s, &pv)
}

/// Whether the character `c` occurs in `s`.
pub fn has_char(s: &Vec<char>, c: char) -> (r: bool)
    ensures
        r == s@.contains(c),
{
    let mut i: usize = 0;
    while i < s.len()
        invariant
            i <= s@.len(),
            forall|m: int| 0 <= m < i ==> s@[m] != c,
        decreases s.len() - i,
    {
        if s[i] == c {
            return true;
        }
        i = i + 1;
    }
    false
}

/// Appends `src` to `dst`.
pub fn append_chars(dst: &mut Vec<char>, src: &Vec<char>)
    ensures
        final(dst)@ == old(dst)@ + src@,
{
    let mut i: usize = 0;
    let ghost start = dst@;
    while i < src.len()
        invariant
            i <= src@.len(),
            dst@ == start + src@.take(i as int),
        decreases src.len() - i,
    {
        dst.push(src[i]);
        i = i + 1;
        assert(dst@ =~= start + src@.take(i as int));
    }
    assert(src@.take(i as int) =~= src@);
}

/// Appends the characters of `src` to `dst`.
pub fn append_str(dst: &mut Vec<char>, src: &str)
    ensures
        final(dst)@ == old(dst)@ + src@,
{
    let v = chars_of(src);
    append_chars(dst, &v);
}

/// Appends `s[from..to]` to `dst`.
pub fn append_range(dst: &mut Vec<char>, s: &Vec<char>, from: usize, to: usize)
    requires
        from <= to <= s@.len(),
    ensures
        final(dst)@ == old(dst)@ + s@.subrange(from as int, to as int),
{
    let mut i = from;
    let ghost start = dst@;
    while i < to
        invariant
            from <= i <= to <= s@.len(),
            dst@ == start + s@.subrange(from as int, i as int),
        decreases to - i,
    {
        dst.push(s[i]);
        i = i + 1;
        assert(dst@ =~= start + s@.subrange(from as int, i as int));
    }
}

/// The character of a decimal digit.
pub open spec fn digit_char(d: nat) -> char {
    if d == 0 { '0' } else if d == 1 { '1' } else if d == 2 { '2' } else if d == 3 { '3' }
    else if d == 4 { '4' } else if d == 5 { '5' } else if d == 6 { '6' } else if d == 7 { '7' }
    else if d == 8 { '8' } else { '9' }
}

/// The decimal digits of `n`, most significant first, without leading zeros.
pub open spec fn decimal(n: nat) -> Seq<char>
    decreases n,
{
    if n < 10 {
        seq![digit_char(n)]
    } else {
        decimal(n / 10).push(digit_char(n % 10))
    }
}

fn digit_of(d: u64) -> (c: char)
    requires
        d < 10,
    ensures
        c == digit_char(d as nat),
{
    if d == 0 { '0' } else if d == 1 { '1' } else if d == 2 { '2' } else if d == 3 { '3' }
    else if d == 4 { '4' } else if d == 5 { '5' } else if d == 6 { '6' } else if d == 7 { '7' }
    else if d == 8 { '8' } else { '9' }
}

/// Appends the decimal form of `n` to `dst`, as `{}` formats an unsigned integer.
pub fn push_decimal(dst: &mut Vec<char>, n: u64)
    ensures
        final(dst)@ == old(dst)@ + decimal(n as nat),
    decreases n,
{
    if n < 10 {
        dst.push(digit_of(n));
    } else {
        push_decimal(dst, n / 10);
        dst.push(digit_of(n % 10));
    }
}


/// Pieces joined with `sep` between them, as `[String]::join` does it.
pub open spec fn join_with(ts: Seq<Seq<char>>, sep: Seq<char>) -> Seq<char>
    decreases ts.len(),
{
    if ts.len() == 0 {
        seq![]
    } else if ts.len() == 1 {
        ts[0]
    } else {
        ts[0] + sep + join_with(ts.drop_first(), sep)
    }
}

pub open spec fn string_views(v: Seq<String>) -> Seq<Seq<char>> {
    v.map_values(|s: String| s@)
}

/// A copy of a list of strings, item for item.
pub fn copy_strings(v: &Vec<String>) -> (r: Vec<String>)
    ensures
        string_views(r@) == string_views(v@),
{
    let mut out: Vec<String> = Vec::new();
    let mut i: usize = 0;
    while i < v.len()
        invariant
            i <= v@.len(),
            out@.len() == i,
            forall|k: int| 0 <= k < i ==> #[trigger] out@[k]@ == v@[k]@,
        decreases v.len() - i,
    {
        out.push(String::from_str(v[i].as_str()));
        i = i + 1;
    }
    assert(string_views(out@) =~= string_views(v@));
    out
}

pub proof fn lemma_join_with_push(ts: Seq<Seq<char>>, sep: Seq<char>, t: Seq<char>)
    ensures
        join_with(ts.push(t), sep) == (if ts.len() == 0 { t } else { join_with(ts, sep) + sep + t }),
    decreases ts.len(),
{
    if ts.len() == 0 {
        assert(ts.push(t) =~= seq![t]);
    } else if ts.len() == 1 {
        assert(ts.push(t).drop_first() =~= seq![t]);
        assert(join_with(seq![t], sep) == t);
        assert(ts.push(t)[0] == ts[0]);
    } else {
        assert(ts.push(t)[0] == ts[0]);
        assert(ts.push(t).drop_first() =~= ts.drop_first().push(t));
        lemma_join_with_push(ts.drop_first(), sep, t);
        assert(ts[0] + sep + (join_with(ts.drop_first(), sep) + sep + t) =~= ts[0] + sep + join_with(
            ts.drop_first(),
            sep,
        ) + sep + t);
    }
}

/// Appends the strings of `items`, with `sep` between them, to `dst`.
pub fn append_joined(dst: &mut Vec<char>, items: &Vec<String>, sep: &str)
    ensures
        final(dst)@ == old(dst)@ + join_with(string_views(items@), sep@),
{
    let ghost start = dst@;
    let mut i: usize = 0;
    assert(string_views(items@).take(0) =~= Seq::<Seq<char>>::empty());
    assert(start + Seq::<char>::empty() =~= start);
    while i < items.len()
        invariant
            i <= items@.len(),
            dst@ == start + join_with(string_views(items@).take(i as int), sep@),
        decreases items.len() - i,
    {
        proof {
            lemma_join_with_push(string_views(items@).take(i as int), sep@, items@[i as int]@);
            assert(string_views(items@).take(i as int).push(items@[i as int]@) =~= string_views(
                items@,
            ).take(i + 1));
        }
        let ghost before = dst@;
        if i > 0 {
            append_str(dst, sep);
        }
        append_str(dst, items[i].as_str());
        proof {
            if i > 0 {
                assert(dst@ =~= start + (join_with(string_views(items@).take(i as int), sep@) + sep@
                    + items@[i as int]@));
            } else {
                assert(dst@ =~= start + items@[i as int]@);
            }
        }
        i = i + 1;
    }
    assert(string_views(items@).take(i as int) =~= string_views(items@));
}

/// `s` without the trailing characters `c`, as `str::trim_end_matches` with a `char` gives it.
pub open spec fn trim_end_char(s: Seq<char>, c: char) -> Seq<char>
    decreases s.len(),
{
    if s.len() > 0 && s.last() == c {
        trim_end_char(s.drop_last(), c)
    } else {
        s
    }
}

pub fn trim_end_char_chars(s: &Vec<char>, c: char) -> (r: Vec<char>)
    ensures
        r@ == trim_end_char(s@, c),
{
    let mut b = s.len();
    assert(s@.take(b as int) =~= s@);
    while b > 0 && s[b - 1] == c
        invariant
            b <= s@.len(),
            trim_end_char(s@, c) == trim_end_char(s@.take(b as int), c),
        decreases b,
    {
        assert(s@.take(b as int).drop_last() =~= s@.take(b - 1));
        b = b - 1;
    }
    let mut out: Vec<char> = Vec::new();
    append_range(&mut out, s, 0, b);
    assert(out@ =~= s@.take(b as int));
    out
}

/// The character sequences of a list of character vectors.
pub open spec fn token_views(v: Seq<Vec<char>>) -> Seq<Seq<char>> {
    v.map_values(|x: Vec<char>| x@)
}

/// Length of the run of characters other than `c` at the front of `s`.
pub open spec fn segment_len(s: Seq<char>, c: char) -> nat
    decreases s.len(),
{
    if s.len() == 0 || s[0] == c {
        0
    } else {
        1 + segment_len(s.drop_first(), c)
    }
}

pub proof fn lemma_segment_len(s: Seq<char>, c: char)
    ensures
        segment_len(s, c) <= s.len(),
        segment_len(s, c) < s.len() ==> s[segment_len(s, c) as int] == c,
        forall|i: int| 0 <= i < segment_len(s, c) ==> s[i] != c,
    decreases s.len(),
{
    if s.len() == 0 || s[0] == c {
    } else {
        lemma_segment_len(s.drop_first(), c);
        assert forall|i: int| 0 <= i < segment_len(s, c) implies s[i] != c by {
            if i > 0 {
                assert(s[i] == s.drop_first()[i - 1]);
            }
        }
        if segment_len(s, c) < s.len() {
            assert(s[segment_len(s, c) as int] == s.drop_first()[segment_len(s.drop_first(), c) as int]);
        }
    }
}

/// The pieces of `s` between occurrences of `c`, as `str::split` with a `char` yields them.
pub open spec fn split_on(s: Seq<char>, c: char) -> Seq<Seq<char>>
    decreases s.len(),
{
    proof {
        lemma_segment_len(s, c);
    }
    let n = segment_len(s, c) as int;
    if n >= s.len() {
        seq![s]
    } else {
        seq![s.take(n)] + split_on(s.skip(n + 1), c)
    }
}

proof fn lemma_segment_prefix(w: Seq<char>, x: Seq<char>, c: char)
    requires
        forall|i: int| 0 <= i < w.len() ==> w[i] != c,
        x.len() == 0 || x[0] == c,
    ensures
        segment_len(w + x, c) == w.len(),
    decreases w.len(),
{
    if w.len() == 0 {
        assert(w + x =~= x);
    } else {
        assert((w + x).drop_first() =~= w.drop_first() + x);
        lemma_segment_prefix(w.drop_first(), x, c);
    }
}

/// Splitting `w + c + x`, where `w` holds no `c`, gives `w` and then the pieces of `x`.
pub proof fn lemma_split_on_piece(w: Seq<char>, x: Seq<char>, c: char)
    requires
        forall|i: int| 0 <= i < w.len() ==> w[i] != c,
    ensures
        split_on(w + seq![c] + x, c) == seq![w] + split_on(x, c),
        split_on(w, c) == seq![w],
{
    lemma_segment_prefix(w, seq![c] + x, c);
    assert(w + seq![c] + x =~= w + (seq![c] + x));
    assert((w + seq![c] + x).take(w.len() as int) =~= w);
    assert((w + seq![c] + x).skip(w.len() as int + 1) =~= x);
    lemma_segment_prefix(w, seq![], c);
    assert(w + Seq::<char>::empty() =~= w);
}

pub fn split_chars(s: &Vec<char>, c: char) -> (r: Vec<Vec<char>>)
    ensures
        token_views(r@) == split_on(s@, c),
{
    let mut acc: Vec<Vec<char>> = Vec::new();
    let mut cur: Vec<char> = Vec::new();
    let mut i: usize = 0;
    assert(cur@ + s@.skip(0) =~= s@);
    assert(token_views(acc@) + split_on(s@, c) =~= split_on(s@, c));
    while i < s.len()
        invariant
            i <= s@.len(),
            forall|m: int| 0 <= m < cur@.len() ==> cur@[m] != c,
            split_on(s@, c) == token_views(acc@) + split_on(
                cur@ + s@.skip(i as int),
                c,
            ),
        decreases s.len() - i,
    {
        let ch = s[i];
        let ghost rest = s@.skip(i as int);
        assert(rest =~= seq![ch] + s@.skip(i + 1));
        if ch == c {
            proof {
                lemma_split_on_piece(cur@, s@.skip(i + 1), c);
                assert(cur@ + rest =~= cur@ + seq![c] + s@.skip(i + 1));
            }
            let ghost old_acc = acc@;
            acc.push(cur);
            cur = Vec::new();
            assert(token_views(acc@) =~= token_views(old_acc)
                + seq![acc@.last()@]);
            assert(cur@ + s@.skip(i + 1) =~= s@.skip(i + 1));
        } else {
            let ghost old_cur = cur@;
            cur.push(ch);
            assert(old_cur + rest =~= cur@ + s@.skip(i + 1));
        }
        i = i + 1;
    }
    proof {
        assert(cur@ + s@.skip(i as int) =~= cur@);
        lemma_split_on_piece(cur@, seq![], c);
    }
    let ghost old_acc = acc@;
    acc.push(cur);
    assert(token_views(acc@) =~= token_views(old_acc) + seq![
        acc@.last()@,
    ]);
    acc
}

/// How many times `p` occurs in `s` from position `from` on, counting non-overlapping
/// occurrences from the left, as `str::matches(..).count()` does for a non-empty pattern.
pub open spec fn match_count(s: Seq<char>, p: Seq<char>, from: int) -> nat
    decreases s.len() + 1 - from,
{
    if p.len() == 0 || from < 0 || from + p.len() > s.len() {
        0
    } else if occurs_at(s, p, from) {
        1 + match_count(s, p, from + p.len())
    } else {
        match_count(s, p, from + 1)
    }
}

/// How many times `p` occurs in `s`, counted as `match_count` does.
pub fn count_matches(s: &Vec<char>, p: &str) -> (r: usize)
    requires
        p@.len() > 0,
    ensures
        r == match_count(s@, p@, 0),
{
    let pv = chars_of(p);
    let mut count: usize = 0;
    let mut i: usize = 0;
    while i < s.len()
        invariant
            i <= s@.len(),
            pv@ == p@,
            pv@.len() > 0,
            count <= i,
            match_count(s@, p@, 0) == count + match_count(s@, p@, i as int),
        decreases s.len() - i,
    {
        if matches_at(s, &pv, i) {
            count = count + 1;
            i = i + pv.len();
        } else {
            i = i + 1;
        }
    }
    count
}

/// The pieces of `s` between the occurrences of `p`, as `str::split` with a non-empty string
/// pattern yields them.
pub open spec fn split_pat(s: Seq<char>, p: Seq<char>) -> Seq<Seq<char>>
    decreases s.len(),
{
    if p.len() == 0 {
        seq![s]
    } else {
        match find_from(s, p, 0) {
            Some(j) => {
                proof {
                    lemma_find_from_some(s, p, 0);
                }
                seq![s.take(j)] + split_pat(s.skip(j + p.len()), p)
            },
            None => seq![s],
        }
    }
}

/// Splits `s` at each occurrence of the non-empty pattern `p`.
pub fn split_str(s: &Vec<char>, p: &str) -> (r: Vec<Vec<char>>)
    requires
        p@.len() > 0,
    ensures
        token_views(r@) == split_pat(s@, p@),
{
    let pv = chars_of(p);
    let mut acc: Vec<Vec<char>> = Vec::new();
    let mut rest: Vec<char> = Vec::new();
    append_chars(&mut rest, s);
    assert(token_views(acc@) + split_pat(s@, p@) =~= split_pat(s@, p@));
    loop
        invariant
            pv@ == p@,
            p@.len() > 0,
            split_pat(s@, p@) == token_views(acc@) + split_pat(rest@, p@),
        decreases rest@.len(),
    {
        let found = find_chars(&rest, &pv, 0);
        proof {
            lemma_find_from_some(rest@, p@, 0);
        }
        match found {
            Some(j) => {
                let total = rest.len();
                assert(j + pv@.len() <= total);
                let end: usize = j + pv.len();
                let mut piece: Vec<char> = Vec::new();
                append_range(&mut piece, &rest, 0, j);
                let mut next: Vec<char> = Vec::new();
                append_range(&mut next, &rest, end, rest.len());
                let ghost old_acc = acc@;
                proof {
                    assert(piece@ =~= rest@.take(j as int));
                    assert(next@ =~= rest@.skip(j + p@.len()));
                }
                acc.push(piece);
                assert(token_views(acc@) =~= token_views(old_acc).push(rest@.take(j as int)));
                assert(token_views(acc@) + split_pat(next@, p@) =~= token_views(old_acc) + (seq![
                    rest@.take(j as int),
                ] + split_pat(next@, p@)));
                rest = next;
            },
            None => {
                let ghost old_acc = acc@;
                acc.push(rest);
                assert(token_views(acc@) =~= token_views(old_acc) + seq![acc@.last()@]);
                return acc;
            },
        }
    }
}

/// How many of the pieces hold something other than whitespace.
pub open spec fn count_nonblank(pieces: Seq<Seq<char>>) -> nat
    decreases pieces.len(),
{
    if pieces.len() == 0 {
        0
    } else {
        count_nonblank(pieces.drop_last()) + if trim(pieces.last()).len() > 0 {
            1nat
        } else {
            0nat
        }
    }
}

/// How many of the pieces contain `p`.
pub open spec fn count_containing(pieces: Seq<Seq<char>>, p: Seq<char>) -> nat
    decreases pieces.len(),
{
    if pieces.len() == 0 {
        0
    } else {
        count_containing(pieces.drop_last(), p) + if contains(pieces.last(), p) {
            1nat
        } else {
            0nat
        }
    }
}

/// How many of the pieces hold something other than whitespace.
pub fn nonblank_pieces(pieces: &Vec<Vec<char>>) -> (r: usize)
    ensures
        r == count_nonblank(token_views(pieces@)),
{
    let mut n: usize = 0;
    let mut i: usize = 0;
    while i < pieces.len()
        invariant
            i <= pieces@.len(),
            n <= i,
            n == count_nonblank(token_views(pieces@).take(i as int)),
        decreases pieces.len() - i,
    {
        assert(token_views(pieces@).take(i + 1).drop_last() =~= token_views(pieces@).take(i as int));
        let t = trim_chars(&pieces[i]);
        if t.len() > 0 {
            n = n + 1;
        }
        i = i + 1;
    }
    assert(token_views(pieces@).take(i as int) =~= token_views(pieces@));
    n
}

/// How many of the pieces contain `p`.
pub fn pieces_containing(pieces: &Vec<Vec<char>>, p: &str) -> (r: usize)
    ensures
        r == count_containing(token_views(pieces@), p@),
{
    let mut n: usize = 0;
    let mut i: usize = 0;
    while i < pieces.len()
        invariant
            i <= pieces@.len(),
            n <= i,
            n == count_containing(token_views(pieces@).take(i as int), p@),
        decreases pieces.len() - i,
    {
        assert(token_views(pieces@).take(i + 1).drop_last() =~= token_views(pieces@).take(i as int));
        if contains_str(&pieces[i], p) {
            n = n + 1;
        }
        i = i + 1;
    }
    assert(token_views(pieces@).take(i as int) =~= token_views(pieces@));
    n
}

} // verus!
