//! Character classes and string plumbing shared by validation, token
//! framing and the string helpers: ASCII classes, trimming, lowercasing,
//! and conversions between `String`, `Vec<char>` and `Vec<u8>`.
//!
//! The text model here is deliberately ASCII: whitespace, letter, digit
//! and case are the ASCII notions, and lengths count characters. Every
//! input the authentication core feeds through these helpers is
//! validated against ASCII grammars first, so the core is unaffected;
//! general text put through the public string utilities is transformed
//! by these ASCII rules, not by Unicode folding or Unicode whitespace.

use vstd::prelude::*;

verus! {

/// ASCII lowercase letter.
pub open spec fn is_lower(c: char) -> bool {
    'a' <= c && c <= 'z'
}

/// ASCII uppercase letter.
pub open spec fn is_upper(c: char) -> bool {
    'A' <= c && c <= 'Z'
}

/// ASCII decimal digit.
pub open spec fn is_digit(c: char) -> bool {
    '0' <= c && c <= '9'
}

/// ASCII letter.
pub open spec fn is_alpha(c: char) -> bool {
    is_lower(c) || is_upper(c)
}

/// ASCII letter or digit.
pub open spec fn is_alnum(c: char) -> bool {
    is_alpha(c) || is_digit(c)
}

/// ASCII whitespace: space, tab, line feed, form feed, carriage return.
pub open spec fn is_space(c: char) -> bool {
    c == ' ' || c == '\t' || c == '\n' || c == '\u{c}' || c == '\r'
}

/// Printable ASCII, excluding space.
pub open spec fn is_graphic(c: char) -> bool {
    '!' <= c && c <= '~'
}

/// The ASCII lowercase image of a character: uppercase letters are shifted
/// into their lowercase partners, everything else is unchanged.
pub open spec fn lower_char(c: char) -> char {
    if is_upper(c) {
        (c as u8 + 32) as char
    } else {
        c
    }
}

/// A sequence with every character lowercased.
pub open spec fn lower_seq(s: Seq<char>) -> Seq<char> {
    s.map_values(|c: char| lower_char(c))
}

/// `s` with leading and trailing ASCII whitespace removed.
pub open spec fn trim_seq(s: Seq<char>) -> Seq<char>
    decreases s.len(),
{
    if s.len() == 0 {
        s
    } else if is_space(s.first()) {
        trim_seq(s.drop_first())
    } else if is_space(s.last()) {
        trim_seq(s.drop_last())
    } else {
        s
    }
}

/// Exec test for [`is_space`].
pub fn space_char(c: char) -> (r: bool)
    ensures
        r == is_space(c),
{
    c == ' ' || c == '\t' || c == '\n' || c == '\u{c}' || c == '\r'
}

/// Exec ASCII lowercasing of one character, matching [`lower_char`].
pub fn lower_char_exec(c: char) -> (r: char)
    ensures
        r == lower_char(c),
{
    if 'A' <= c && c <= 'Z' {
        ((c as u8) + 32) as char
    } else {
        c
    }
}

/// Reads the characters of a string into a vector, so that callers can
/// index and slice them freely.
pub fn str_chars(s: &str) -> (r: Vec<char>)
    ensures
        r@ == s@,
{
    let n: usize = s.unicode_len();
    let mut out: Vec<char> = Vec::new();
    let mut i: usize = 0;
    while i < n
        invariant
            n == s@.len(),
            i <= n,
            out@ == s@.subrange(0, i as int),
        decreases n - i,
    {
        out.push(s.get_char(i));
        i = i + 1;
    }
    proof {
        assert(out@ =~= s@);
    }
    out
}

/// Builds the `String` whose characters are exactly `v`.
///
/// Relies on `String: FromIterator<char>`: collecting characters yields a
/// string containing those characters in order.
#[verifier::external_body]
pub fn chars_to_string(v: &Vec<char>) -> (r: String)
    ensures
        r@ == v@,
{
    v.iter().collect()
}

/// Trims ASCII whitespace from both ends of a character vector.
pub fn trim_chars(v: &Vec<char>) -> (r: Vec<char>)
    ensures
        r@ == trim_seq(v@),
{
    let n: usize = v.len();
    let mut start: usize = 0;
    while start < n && space_char(v[start])
        invariant
            n == v@.len(),
            start <= n,
            forall|k: int| 0 <= k < start ==> is_space(v@[k]),
        decreases n - start,
    {
        start = start + 1;
    }
    let mut end: usize = n;
    while end > start && space_char(v[end - 1])
        invariant
            n == v@.len(),
            start <= end <= n,
            forall|k: int| 0 <= k < start ==> is_space(v@[k]),
            forall|k: int| end <= k < n ==> is_space(v@[k]),
        decreases end,
    {
        end = end - 1;
    }
    let mut out: Vec<char> = Vec::new();
    let mut i: usize = start;
    while i < end
        invariant
            start <= i <= end <= n,
            n == v@.len(),
            out@ == v@.subrange(start as int, i as int),
        decreases end - i,
    {
        out.push(v[i]);
        i = i + 1;
    }
    proof {
        lemma_trim_prefix_suffix(v@, start as int, end as int);
        assert(out@ =~= v@.subrange(start as int, end as int));
    }
    out
}

/// If everything before `start` and everything from `end` on is whitespace,
/// and the ends of the middle are not, the middle is the trim of `s`.
proof fn lemma_trim_prefix_suffix(s: Seq<char>, start: int, end: int)
    requires
        0 <= start <= end <= s.len(),
        forall|k: int| 0 <= k < start ==> is_space(s[k]),
        forall|k: int| end <= k < s.len() ==> is_space(s[k]),
        start < end ==> !is_space(s[start]),
        start < end ==> !is_space(s[end - 1]),
        start == end ==> start == s.len() || end == 0,
    ensures
        trim_seq(s) == s.subrange(start, end),
    decreases s.len(),
{
    if s.len() == 0 {
        assert(trim_seq(s) =~= s.subrange(start, end));
    } else if is_space(s.first()) {
        if start == end {
            if end == 0 {
                lemma_trim_all_space(s);
                assert(trim_seq(s) =~= s.subrange(start, end));
            } else {
                lemma_trim_all_space(s);
                assert(trim_seq(s) =~= s.subrange(start, end));
            }
        } else {
            assert(start >= 1);
            let t = s.drop_first();
            lemma_trim_prefix_suffix(t, start - 1, end - 1);
            assert(t.subrange(start - 1, end - 1) =~= s.subrange(start, end));
        }
    } else if is_space(s.last()) {
        if start == end {
            lemma_trim_all_space(s);
            assert(trim_seq(s) =~= s.subrange(start, end));
        } else {
            assert(end <= s.len() - 1);
            let t = s.drop_last();
            lemma_trim_prefix_suffix(t, start, end);
            assert(t.subrange(start, end) =~= s.subrange(start, end));
        }
    } else {
        assert(start == 0 && end == s.len());
        assert(trim_seq(s) == s);
        assert(s.subrange(0, s.len() as int) =~= s);
    }
}

/// A sequence of nothing but whitespace trims to the empty sequence.
proof fn lemma_trim_all_space(s: Seq<char>)
    requires
        forall|k: int| 0 <= k < s.len() ==> is_space(s[k]),
    ensures
        trim_seq(s).len() == 0,
    decreases s.len(),
{
    if s.len() > 0 {
        lemma_trim_all_space(s.drop_first());
    }
}

/// The byte values of a character sequence, one byte per character;
/// faithful exactly on ASCII text.
pub open spec fn ascii_bytes(s: Seq<char>) -> Seq<u8> {
    s.map_values(|c: char| c as u8)
}

/// Maps characters to their byte values, matching [`ascii_bytes`].
pub fn chars_to_ascii_bytes(v: &Vec<char>) -> (r: Vec<u8>)
    ensures
        r@ == ascii_bytes(v@),
{
    let n: usize = v.len();
    let mut out: Vec<u8> = Vec::new();
    let mut i: usize = 0;
    while i < n
        invariant
            n == v@.len(),
            i <= n,
            out@ == ascii_bytes(v@.subrange(0, i as int)),
        decreases n - i,
    {
        out.push(v[i] as u8);
        i = i + 1;
        proof {
            assert(ascii_bytes(v@.subrange(0, i as int)) =~= ascii_bytes(
                v@.subrange(0, i as int - 1),
            ).push(v@[i - 1] as u8));
        }
    }
    proof {
        assert(v@.subrange(0, n as int) =~= v@);
    }
    out
}

/// Reads bytes back as characters, one character per byte.
pub fn bytes_to_chars(v: &Vec<u8>) -> (r: Vec<char>)
    ensures
        r@ == v@.map_values(|b: u8| b as char),
{
    let n: usize = v.len();
    let mut out: Vec<char> = Vec::new();
    let mut i: usize = 0;
    while i < n
        invariant
            n == v@.len(),
            i <= n,
            out@ == v@.subrange(0, i as int).map_values(|b: u8| b as char),
        decreases n - i,
    {
        out.push(v[i] as char);
        i = i + 1;
        proof {
            assert(v@.subrange(0, i as int).map_values(|b: u8| b as char) =~= v@.subrange(
                0,
                i as int - 1,
            ).map_values(|b: u8| b as char).push(v@[i - 1] as char));
        }
    }
    proof {
        assert(v@.subrange(0, n as int) =~= v@);
    }
    out
}

/// On ASCII text, reading the byte values back as characters restores
/// the text.
pub proof fn lemma_ascii_roundtrip(s: Seq<char>)
    requires
        vstd::utf8::is_ascii_chars(s),
    ensures
        ascii_bytes(s).map_values(|b: u8| b as char) == s,
{
    assert(ascii_bytes(s).map_values(|b: u8| b as char) =~= s);
}

/// Lowercases a character vector, matching [`lower_seq`].
pub fn lower_chars(v: &Vec<char>) -> (r: Vec<char>)
    ensures
        r@ == lower_seq(v@),
{
    let n: usize = v.len();
    let mut out: Vec<char> = Vec::new();
    let mut i: usize = 0;
    while i < n
        invariant
            n == v@.len(),
            i <= n,
            out@ == lower_seq(v@.subrange(0, i as int)),
        decreases n - i,
    {
        out.push(lower_char_exec(v[i]));
        i = i + 1;
        proof {
            assert(v@.subrange(0, i as int).map_values(|c: char| lower_char(c)) =~= v@.subrange(
                0,
                i as int - 1,
            ).map_values(|c: char| lower_char(c)).push(lower_char(v@[i - 1])));
        }
    }
    proof {
        assert(v@.subrange(0, n as int) =~= v@);
    }
    out
}

} // verus!
