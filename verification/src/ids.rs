//! Account identifiers: a 128-bit id held as two words, its canonical
//! hyphenated hexadecimal rendering, and the parser for that rendering.

use vstd::prelude::*;

use crate::text::chars_to_string;

verus! {

/// A 128-bit account identifier, split into its high and low words.
#[derive(Debug, Clone, Copy, PartialEq, Eq, Hash, Structural)]
pub struct UserId {
    pub hi: u64,
    pub lo: u64,
}

/// Whether `c` is a hexadecimal digit, either case.
pub open spec fn is_hex_char(c: char) -> bool {
    ('0' <= c && c <= '9') || ('a' <= c && c <= 'f') || ('A' <= c && c <= 'F')
}

/// The numeric value of a hexadecimal digit.
pub open spec fn hex_char_val(c: char) -> int {
    if '0' <= c && c <= '9' {
        c as int - 48
    } else if 'a' <= c && c <= 'f' {
        c as int - 97 + 10
    } else if 'A' <= c && c <= 'F' {
        c as int - 65 + 10
    } else {
        0
    }
}

/// The lowercase hexadecimal digit for a value below sixteen.
pub open spec fn hex_digit_char(v: u8) -> char {
    if v < 10 {
        (48 + v) as char
    } else {
        (87 + v) as char
    }
}

/// The `j`-th nibble of `w`, counting from the most significant.
pub open spec fn nib_of(w: u64, j: int) -> u8 {
    ((w >> ((60 - 4 * j) as u64)) & 0xf) as u8
}

/// The value of a big-endian sequence of hexadecimal digits, folded four
/// bits at a time.
pub open spec fn hex_fold(ds: Seq<char>) -> u64
    decreases ds.len(),
{
    if ds.len() == 0 {
        0u64
    } else {
        (hex_fold(ds.drop_last()) << 4u64) | (hex_char_val(ds.last()) as u64)
    }
}

/// Positions of the four hyphens in the canonical rendering.
pub open spec fn uuid_hyphen_pos(i: int) -> bool {
    i == 8 || i == 13 || i == 18 || i == 23
}

/// Which of the 32 digits stands at rendering position `i`.
pub open spec fn uuid_digit_index(i: int) -> int {
    if i < 8 {
        i
    } else if i < 13 {
        i - 1
    } else if i < 18 {
        i - 2
    } else if i < 23 {
        i - 3
    } else {
        i - 4
    }
}

/// The 32 hexadecimal digits of an identifier, most significant first.
pub open spec fn uuid_digit_seq(id: UserId) -> Seq<char> {
    Seq::new(
        32,
        |j: int|
            if j < 16 {
                hex_digit_char(nib_of(id.hi, j))
            } else {
                hex_digit_char(nib_of(id.lo, j - 16))
            },
    )
}

/// The canonical rendering: 32 lowercase hexadecimal digits in five
/// hyphen-separated groups of 8, 4, 4, 4 and 12.
pub open spec fn uuid_str_of(id: UserId) -> Seq<char> {
    Seq::new(
        36,
        |i: int|
            if uuid_hyphen_pos(i) {
                '-'
            } else {
                uuid_digit_seq(id)[uuid_digit_index(i)]
            },
    )
}

/// A rendering is well-formed when the hyphens sit at their four places
/// and every other position holds a hexadecimal digit of either case.
pub open spec fn uuid_format_ok(s: Seq<char>) -> bool {
    s.len() == 36 && (forall|i: int|
        0 <= i < 36 ==> if uuid_hyphen_pos(i) {
            s[i] == '-'
        } else {
            is_hex_char(s[i])
        })
}

/// The 32 digit characters of a well-formed rendering, hyphens removed.
pub open spec fn uuid_extract_digits(s: Seq<char>) -> Seq<char> {
    s.subrange(0, 8) + s.subrange(9, 13) + s.subrange(14, 18) + s.subrange(19, 23) + s.subrange(
        24,
        36,
    )
}

/// The identifier a hyphenated rendering denotes, when it is
/// well-formed.
pub open spec fn spec_parse_hyphenated(s: Seq<char>) -> Option<UserId> {
    if uuid_format_ok(s) {
        let d = uuid_extract_digits(s);
        Option::Some(UserId { hi: hex_fold(d.take(16)), lo: hex_fold(d.skip(16)) })
    } else {
        Option::None
    }
}

/// A 32-digit rendering without separators.
pub open spec fn uuid_simple_ok(s: Seq<char>) -> bool {
    s.len() == 32 && (forall|i: int| 0 <= i < 32 ==> is_hex_char(#[trigger] s[i]))
}

/// The identifier a simple rendering denotes, when it is well-formed.
pub open spec fn spec_parse_simple(s: Seq<char>) -> Option<UserId> {
    if uuid_simple_ok(s) {
        Option::Some(UserId { hi: hex_fold(s.take(16)), lo: hex_fold(s.skip(16)) })
    } else {
        Option::None
    }
}

/// Whether `s` opens with the URN prefix, ASCII case disregarded.
pub open spec fn urn_prefix_ok(s: Seq<char>) -> bool {
    s.len() >= 9 && crate::text::lower_seq(s.take(9)) == "urn:uuid:"@
}

/// The identifier a rendering in any accepted form denotes: the
/// hyphenated form, the 32-digit simple form, the braced form, and the
/// URN form, hexadecimal digits of either case throughout.
pub open spec fn spec_parse_uuid(s: Seq<char>) -> Option<UserId> {
    if s.len() == 32 {
        spec_parse_simple(s)
    } else if s.len() == 36 {
        spec_parse_hyphenated(s)
    } else if s.len() == 38 {
        if s.first() == '{' && s.last() == '}' {
            spec_parse_hyphenated(s.subrange(1, 37))
        } else {
            Option::None
        }
    } else if s.len() == 45 {
        if urn_prefix_ok(s) {
            spec_parse_hyphenated(s.skip(9))
        } else {
            Option::None
        }
    } else {
        Option::None
    }
}

/// Exec hexadecimal digit test matching [`is_hex_char`].
pub fn hex_char(c: char) -> (r: bool)
    ensures
        r == is_hex_char(c),
{
    ('0' <= c && c <= '9') || ('a' <= c && c <= 'f') || ('A' <= c && c <= 'F')
}

/// Exec digit value matching [`hex_char_val`] on hexadecimal digits.
pub fn hex_char_val_exec(c: char) -> (r: u8)
    requires
        is_hex_char(c),
    ensures
        r as int == hex_char_val(c),
        r < 16,
{
    if '0' <= c && c <= '9' {
        (c as u8) - 48
    } else if 'a' <= c && c <= 'f' {
        (c as u8) - 97 + 10
    } else {
        (c as u8) - 65 + 10
    }
}

/// Exec digit rendering matching [`hex_digit_char`].
pub fn hex_digit_char_exec(v: u8) -> (r: char)
    requires
        v < 16,
    ensures
        r == hex_digit_char(v),
{
    if v < 10 {
        (48 + v) as char
    } else {
        (87 + v) as char
    }
}

/// A nibble is below sixteen.
pub proof fn lemma_nib_bound(w: u64, j: int)
    ensures
        nib_of(w, j) < 16,
{
    let s = (60 - 4 * j) as u64;
    assert((w >> s) & 0xf < 16) by (bit_vector);
}

/// A rendered digit is a hexadecimal digit, and reading it back yields
/// the nibble it was made from.
pub proof fn lemma_hex_digit_roundtrip(v: u8)
    requires
        v < 16,
    ensures
        is_hex_char(hex_digit_char(v)),
        hex_char_val(hex_digit_char(v)) == v,
        hex_digit_char(v) != '-',
{
}

/// Folding the rendered nibbles of a word yields the word again.
proof fn lemma_hex_fold_nibbles_prefix(w: u64, i: int)
    requires
        1 <= i <= 16,
    ensures
        hex_fold(Seq::new(16, |j: int| hex_digit_char(nib_of(w, j))).take(i)) == w >> ((64 - 4 * i)
            as u64),
    decreases i,
{
    let ds = Seq::new(16, |j: int| hex_digit_char(nib_of(w, j)));
    if i == 1 {
        assert(ds.take(1).drop_last() =~= Seq::<char>::empty());
        assert(ds.take(1).last() == hex_digit_char(nib_of(w, 0)));
        lemma_nib_bound(w, 0);
        lemma_hex_digit_roundtrip(nib_of(w, 0));
        assert(ds.take(1).len() == 1);
        assert(hex_fold(ds.take(1).drop_last()) == 0u64);
        assert(hex_fold(ds.take(1)) == (hex_fold(ds.take(1).drop_last()) << 4u64) | (hex_char_val(
            ds.take(1).last(),
        ) as u64));
        assert(hex_fold(ds.take(1)) == (0u64 << 4u64) | (nib_of(w, 0) as u64));
        assert((w >> 60u64) & 0xf < 16) by (bit_vector);
        assert(nib_of(w, 0) as u64 == (w >> 60u64) & 0xf);
        assert((0u64 << 4u64) | ((w >> 60u64) & 0xf) == w >> 60u64) by (bit_vector);
    } else {
        lemma_hex_fold_nibbles_prefix(w, i - 1);
        assert(ds.take(i).drop_last() =~= ds.take(i - 1));
        assert(ds.take(i).last() == hex_digit_char(nib_of(w, i - 1)));
        lemma_nib_bound(w, i - 1);
        lemma_hex_digit_roundtrip(nib_of(w, i - 1));
        let s = (64 - 4 * i) as u64;
        let prev = hex_fold(ds.take(i - 1));
        assert(hex_fold(ds.take(i)) == (prev << 4u64) | (nib_of(w, i - 1) as u64));
        assert((64 - 4 * (i - 1)) as u64 == s + 4);
        assert(prev == w >> (s + 4));
        assert((60 - 4 * (i - 1)) as u64 == s);
        assert((w >> s) & 0xf < 16) by (bit_vector);
        assert(nib_of(w, i - 1) as u64 == (w >> s) & 0xf);
        assert((((w >> (s + 4)) << 4u64) | ((w >> s) & 0xf)) == (w >> s)) by (bit_vector)
            requires
                s <= 56,
                s % 4 == 0,
        ;
    }
}

/// Folding all sixteen rendered nibbles of a word yields the word.
proof fn lemma_hex_fold_nibbles(w: u64)
    ensures
        hex_fold(Seq::new(16, |j: int| hex_digit_char(nib_of(w, j)))) == w,
{
    lemma_hex_fold_nibbles_prefix(w, 16);
    let ds = Seq::new(16, |j: int| hex_digit_char(nib_of(w, j)));
    assert(ds.take(16) =~= ds);
    assert(w >> 0u64 == w) by (bit_vector);
}

/// Parsing the canonical rendering of an identifier yields it back.
pub proof fn lemma_uuid_roundtrip(id: UserId)
    ensures
        spec_parse_uuid(uuid_str_of(id)) == Option::Some(id),
{
    assert(uuid_str_of(id).len() == 36);
    let s = uuid_str_of(id);
    let d = uuid_digit_seq(id);
    assert forall|i: int| 0 <= i < 36 implies (if uuid_hyphen_pos(i) {
        s[i] == '-'
    } else {
        is_hex_char(s[i])
    }) by {
        if !uuid_hyphen_pos(i) {
            let j = uuid_digit_index(i);
            if j < 16 {
                lemma_nib_bound(id.hi, j);
                lemma_hex_digit_roundtrip(nib_of(id.hi, j));
            } else {
                lemma_nib_bound(id.lo, j - 16);
                lemma_hex_digit_roundtrip(nib_of(id.lo, j - 16));
            }
        }
    }
    assert(uuid_format_ok(s));
    assert(uuid_extract_digits(s) =~= d);
    let hi_ds = Seq::new(16, |j: int| hex_digit_char(nib_of(id.hi, j)));
    let lo_ds = Seq::new(16, |j: int| hex_digit_char(nib_of(id.lo, j)));
    assert(d.take(16) =~= hi_ds);
    assert(d.skip(16) =~= lo_ds);
    lemma_hex_fold_nibbles(id.hi);
    lemma_hex_fold_nibbles(id.lo);
}

impl UserId {
    /// Renders the identifier in its canonical hyphenated form.
    pub fn to_string(&self) -> (r: String)
        ensures
            r@ == uuid_str_of(*self),
    {
        let mut out: Vec<char> = Vec::new();
        let mut i: usize = 0;
        while i < 36
            invariant
                i <= 36,
                out@ == uuid_str_of(*self).take(i as int),
            decreases 36 - i,
        {
            let c: char = if i == 8 || i == 13 || i == 18 || i == 23 {
                '-'
            } else {
                let j: usize = if i < 8 {
                    i
                } else if i < 13 {
                    i - 1
                } else if i < 18 {
                    i - 2
                } else if i < 23 {
                    i - 3
                } else {
                    i - 4
                };
                let v: u8 = if j < 16 {
                    let sh: u64 = 60 - 4 * (j as u64);
                    proof {
                        lemma_nib_bound(self.hi, j as int);
                    }
                    ((self.hi >> sh) & 0xf) as u8
                } else {
                    let sh: u64 = 60 - 4 * ((j - 16) as u64);
                    proof {
                        lemma_nib_bound(self.lo, j - 16);
                    }
                    ((self.lo >> sh) & 0xf) as u8
                };
                hex_digit_char_exec(v)
            };
            out.push(c);
            proof {
                assert(uuid_str_of(*self).take(i + 1) =~= uuid_str_of(*self).take(i as int).push(
                    uuid_str_of(*self)[i as int],
                ));
            }
            i = i + 1;
        }
        proof {
            assert(uuid_str_of(*self).take(36) =~= uuid_str_of(*self));
        }
        chars_to_string(&out)
    }

    /// Parses an identifier rendering in any form the library accepts:
    /// hyphenated, 32-digit simple, braced, or URN, hexadecimal digits
    /// of either case throughout.
    pub fn parse(s: &str) -> (r: Option<UserId>)
        ensures
            r == spec_parse_uuid(s@),
    {
        let chars = crate::text::str_chars(s);
        let n: usize = chars.len();
        if n == 32 {
            parse_simple_chars(&chars)
        } else if n == 36 {
            parse_hyphenated_chars(&chars)
        } else if n == 38 {
            if chars[0] != '{' || chars[37] != '}' {
                return Option::None;
            }
            let mut inner: Vec<char> = Vec::new();
            let mut i: usize = 1;
            while i < 37
                invariant
                    chars@ == s@,
                    s@.len() == 38,
                    1 <= i <= 37,
                    inner@ == s@.subrange(1, i as int),
                decreases 37 - i,
            {
                inner.push(chars[i]);
                proof {
                    assert(s@.subrange(1, i + 1) =~= s@.subrange(1, i as int).push(s@[i as int]));
                }
                i = i + 1;
            }
            parse_hyphenated_chars(&inner)
        } else if n == 45 {
            let prefix = crate::text::str_chars("urn:uuid:");
            proof {
                reveal_strlit("urn:uuid:");
            }
            let mut k: usize = 0;
            while k < 9
                invariant
                    chars@ == s@,
                    s@.len() == 45,
                    prefix@ == "urn:uuid:"@,
                    prefix@.len() == 9,
                    k <= 9,
                    forall|t: int|
                        0 <= t < k ==> crate::text::lower_char(s@[t]) == "urn:uuid:"@[t],
                decreases 9 - k,
            {
                if crate::text::lower_char_exec(chars[k]) != prefix[k] {
                    proof {
                        assert(crate::text::lower_seq(s@.take(9))[k as int] != "urn:uuid:"@[k
                            as int]);
                    }
                    return Option::None;
                }
                k = k + 1;
            }
            proof {
                assert(crate::text::lower_seq(s@.take(9)) =~= "urn:uuid:"@);
            }
            let mut inner: Vec<char> = Vec::new();
            let mut i: usize = 9;
            while i < 45
                invariant
                    chars@ == s@,
                    s@.len() == 45,
                    9 <= i <= 45,
                    inner@ == s@.subrange(9, i as int),
                decreases 45 - i,
            {
                inner.push(chars[i]);
                proof {
                    assert(s@.subrange(9, i + 1) =~= s@.subrange(9, i as int).push(s@[i as int]));
                }
                i = i + 1;
            }
            proof {
                assert(inner@ =~= s@.skip(9));
            }
            parse_hyphenated_chars(&inner)
        } else {
            Option::None
        }
    }
}

/// Parses a 32-digit simple rendering.
fn parse_simple_chars(chars: &Vec<char>) -> (r: Option<UserId>)
    ensures
        r == spec_parse_simple(chars@),
{
    let ghost v = chars@;
    if chars.len() != 32 {
        return Option::None;
    }
    let mut i: usize = 0;
    while i < 32
        invariant
            v == chars@,
            v.len() == 32,
            i <= 32,
            forall|k: int| 0 <= k < i ==> is_hex_char(#[trigger] v[k]),
        decreases 32 - i,
    {
        if !hex_char(chars[i]) {
            proof {
                assert(!uuid_simple_ok(v));
            }
            return Option::None;
        }
        i = i + 1;
    }
    let mut hi: u64 = 0;
    let mut j: usize = 0;
    proof {
        assert(v.take(0) =~= Seq::<char>::empty());
    }
    while j < 16
        invariant
            v == chars@,
            v.len() == 32,
            forall|k: int| 0 <= k < 32 ==> is_hex_char(#[trigger] v[k]),
            j <= 16,
            hi == hex_fold(v.take(j as int)),
        decreases 16 - j,
    {
        let dv = hex_char_val_exec(chars[j]);
        proof {
            assert(v.take(j + 1).drop_last() =~= v.take(j as int));
            assert(v.take(j + 1).last() == v[j as int]);
        }
        hi = (hi << 4u64) | (dv as u64);
        j = j + 1;
    }
    let mut lo: u64 = 0;
    let mut j2: usize = 16;
    proof {
        assert(v.skip(16).take(0) =~= Seq::<char>::empty());
    }
    while j2 < 32
        invariant
            v == chars@,
            v.len() == 32,
            forall|k: int| 0 <= k < 32 ==> is_hex_char(#[trigger] v[k]),
            16 <= j2 <= 32,
            lo == hex_fold(v.skip(16).take(j2 - 16)),
        decreases 32 - j2,
    {
        let dv = hex_char_val_exec(chars[j2]);
        proof {
            assert(v.skip(16).take(j2 - 16 + 1).drop_last() =~= v.skip(16).take(j2 - 16));
            assert(v.skip(16).take(j2 - 16 + 1).last() == v[j2 as int]);
        }
        lo = (lo << 4u64) | (dv as u64);
        j2 = j2 + 1;
    }
    proof {
        assert(v.skip(16).take(16) =~= v.skip(16));
    }
    Option::Some(UserId { hi, lo })
}

/// Parses a 36-character hyphenated rendering.
fn parse_hyphenated_chars(chars: &Vec<char>) -> (r: Option<UserId>)
    ensures
        r == spec_parse_hyphenated(chars@),
{
    let ghost v = chars@;
    if chars.len() != 36 {
        return Option::None;
    }
    // Check format: hyphens at their places, hex digits elsewhere.
    let mut i: usize = 0;
    while i < 36
        invariant
            v == chars@,
            v.len() == 36,
            i <= 36,
            forall|k: int|
                0 <= k < i ==> if uuid_hyphen_pos(k) {
                    v[k] == '-'
                } else {
                    is_hex_char(v[k])
                },
        decreases 36 - i,
    {
        let c = chars[i];
        if i == 8 || i == 13 || i == 18 || i == 23 {
            if c != '-' {
                proof {
                    assert(uuid_format_ok(v) ==> v[i as int] == '-');
                }
                return Option::None;
            }
        } else {
            if !hex_char(c) {
                proof {
                    assert(uuid_format_ok(v) ==> is_hex_char(v[i as int]));
                }
                return Option::None;
            }
        }
        i = i + 1;
    }
    // Collect the digits, skipping hyphens.
    let mut digits: Vec<char> = Vec::new();
    let mut p: usize = 0;
    while p < 36
        invariant
            chars@ == v,
            v.len() == 36,
            uuid_format_ok(v),
            p <= 36,
            p <= 8 ==> digits@ =~= v.subrange(0, p as int),
            8 < p <= 13 ==> digits@ =~= v.subrange(0, 8) + v.subrange(9, p as int),
            13 < p <= 18 ==> digits@ =~= v.subrange(0, 8) + v.subrange(9, 13) + v.subrange(
                14,
                p as int,
            ),
            18 < p <= 23 ==> digits@ =~= v.subrange(0, 8) + v.subrange(9, 13) + v.subrange(
                14,
                18,
            ) + v.subrange(19, p as int),
            23 < p ==> digits@ =~= v.subrange(0, 8) + v.subrange(9, 13) + v.subrange(14, 18)
                + v.subrange(19, 23) + v.subrange(24, p as int),
        decreases 36 - p,
    {
        if !(p == 8 || p == 13 || p == 18 || p == 23) {
            digits.push(chars[p]);
        }
        p = p + 1;
    }
    proof {
        assert(digits@ =~= uuid_extract_digits(v));
        assert(digits@.len() == 32);
    }
    // Fold the two words.
    let ghost d = uuid_extract_digits(v);
    proof {
        lemma_format_digits_hex(v);
        assert(d.take(0) =~= Seq::<char>::empty());
    }
    let mut hi: u64 = 0;
    let mut j: usize = 0;
    while j < 16
        invariant
            digits@ == d,
            d.len() == 32,
            uuid_format_ok(v),
            digits@ =~= uuid_extract_digits(v),
            j <= 16,
            hi == hex_fold(d.take(j as int)),
            forall|k: int| 0 <= k < 32 ==> is_hex_char(d[k]),
        decreases 16 - j,
    {
        let c = digits[j];
        let dv = hex_char_val_exec(c);
        proof {
            assert(d.take(j + 1).drop_last() =~= d.take(j as int));
            assert(d.take(j + 1).last() == d[j as int]);
        }
        hi = (hi << 4u64) | (dv as u64);
        j = j + 1;
    }
    let mut lo: u64 = 0;
    let mut j2: usize = 16;
    proof {
        assert(d.skip(16).take(0) =~= Seq::<char>::empty());
    }
    while j2 < 32
        invariant
            digits@ == d,
            d.len() == 32,
            uuid_format_ok(v),
            digits@ =~= uuid_extract_digits(v),
            16 <= j2 <= 32,
            lo == hex_fold(d.skip(16).take(j2 - 16)),
            forall|k: int| 0 <= k < 32 ==> is_hex_char(d[k]),
        decreases 32 - j2,
    {
        let c = digits[j2];
        let dv = hex_char_val_exec(c);
        proof {
            assert(d.skip(16).take(j2 - 16 + 1).drop_last() =~= d.skip(16).take(j2 - 16));
            assert(d.skip(16).take(j2 - 16 + 1).last() == d[j2 as int]);
        }
        lo = (lo << 4u64) | (dv as u64);
        j2 = j2 + 1;
    }
    proof {
        assert(d.take(16) =~= d.take(16));
        assert(d.skip(16).take(16) =~= d.skip(16));
    }
    Option::Some(UserId { hi, lo })
}

/// The digit positions of a format-checked rendering hold hex digits.
proof fn lemma_format_digits_hex(v: Seq<char>)
    requires
        uuid_format_ok(v),
    ensures
        forall|k: int| 0 <= k < 32 ==> is_hex_char(#[trigger] uuid_extract_digits(v)[k]),
{
    let d = uuid_extract_digits(v);
    assert forall|k: int| 0 <= k < 32 implies is_hex_char(#[trigger] d[k]) by {
        if k < 8 {
            assert(d[k] == v[k]);
        } else if k < 12 {
            assert(d[k] == v[k + 1]);
        } else if k < 16 {
            assert(d[k] == v[k + 2]);
        } else if k < 20 {
            assert(d[k] == v[k + 3]);
        } else {
            assert(d[k] == v[k + 4]);
        }
    }
}

} // verus!
