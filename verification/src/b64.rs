//! Base64url without padding: the alphabet, a verified encoder and strict
//! decoder, and the proof that decoding inverts encoding.
//!
//! This is the encoding the token service frames its three token parts
//! with; the decoder rejects non-canonical input, including trailing
//! groups whose unused low bits are not zero.

use vstd::prelude::*;

verus! {

/// Whether `c` belongs to the base64url alphabet.
pub open spec fn is_b64_char(c: char) -> bool {
    ('A' <= c && c <= 'Z') || ('a' <= c && c <= 'z') || ('0' <= c && c <= '9') || c == '-' || c
        == '_'
}

/// The alphabet character for a six-bit value.
pub open spec fn b64_char_of(v: u8) -> char {
    if v < 26 {
        (65 + v) as char
    } else if v < 52 {
        (71 + v) as char
    } else if v < 62 {
        (v - 4) as char
    } else if v == 62 {
        '-'
    } else {
        '_'
    }
}

/// The six-bit value of an alphabet character.
pub open spec fn b64_val_of(c: char) -> u8 {
    if 'A' <= c && c <= 'Z' {
        (c as u8 - 65) as u8
    } else if 'a' <= c && c <= 'z' {
        (c as u8 - 71) as u8
    } else if '0' <= c && c <= '9' {
        (c as u8 + 4) as u8
    } else if c == '-' {
        62u8
    } else if c == '_' {
        63u8
    } else {
        0u8
    }
}

/// The four characters encoding a full three-byte group.
pub open spec fn b64_enc3(a: u8, b: u8, c: u8) -> Seq<char> {
    seq![
        b64_char_of(a >> 2),
        b64_char_of(((a & 3) << 4) | (b >> 4)),
        b64_char_of(((b & 15) << 2) | (c >> 6)),
        b64_char_of(c & 63),
    ]
}

/// The three characters encoding a trailing two-byte group.
pub open spec fn b64_enc2(a: u8, b: u8) -> Seq<char> {
    seq![
        b64_char_of(a >> 2),
        b64_char_of(((a & 3) << 4) | (b >> 4)),
        b64_char_of((b & 15) << 2),
    ]
}

/// The two characters encoding a trailing one-byte group.
pub open spec fn b64_enc1(a: u8) -> Seq<char> {
    seq![b64_char_of(a >> 2), b64_char_of((a & 3) << 4)]
}

/// The base64url rendering of a byte sequence, unpadded.
pub open spec fn b64_of(bs: Seq<u8>) -> Seq<char>
    decreases bs.len(),
{
    if bs.len() == 0 {
        Seq::<char>::empty()
    } else if bs.len() == 1 {
        b64_enc1(bs[0])
    } else if bs.len() == 2 {
        b64_enc2(bs[0], bs[1])
    } else {
        b64_enc3(bs[0], bs[1], bs[2]) + b64_of(bs.skip(3))
    }
}

/// The bytes a rendering denotes under strict, canonical decoding:
/// unpadded groups, every character from the alphabet, and zero unused
/// bits in a trailing group.
pub open spec fn b64_parse(cs: Seq<char>) -> Option<Seq<u8>>
    decreases cs.len(),
{
    if cs.len() == 0 {
        Option::Some(Seq::<u8>::empty())
    } else if cs.len() == 1 {
        Option::None
    } else if cs.len() == 2 {
        if is_b64_char(cs[0]) && is_b64_char(cs[1]) && (b64_val_of(cs[1]) & 0xf) == 0 {
            Option::Some(seq![(b64_val_of(cs[0]) << 2) | (b64_val_of(cs[1]) >> 4)])
        } else {
            Option::None
        }
    } else if cs.len() == 3 {
        if is_b64_char(cs[0]) && is_b64_char(cs[1]) && is_b64_char(cs[2]) && (b64_val_of(cs[2])
            & 0x3) == 0 {
            Option::Some(
                seq![
                    (b64_val_of(cs[0]) << 2) | (b64_val_of(cs[1]) >> 4),
                    ((b64_val_of(cs[1]) & 0xf) << 4) | (b64_val_of(cs[2]) >> 2),
                ],
            )
        } else {
            Option::None
        }
    } else {
        if is_b64_char(cs[0]) && is_b64_char(cs[1]) && is_b64_char(cs[2]) && is_b64_char(cs[3]) {
            match b64_parse(cs.skip(4)) {
                Option::Some(rest) => Option::Some(
                    seq![
                        (b64_val_of(cs[0]) << 2) | (b64_val_of(cs[1]) >> 4),
                        ((b64_val_of(cs[1]) & 0xf) << 4) | (b64_val_of(cs[2]) >> 2),
                        ((b64_val_of(cs[2]) & 0x3) << 6) | b64_val_of(cs[3]),
                    ] + rest,
                ),
                Option::None => Option::None,
            }
        } else {
            Option::None
        }
    }
}

/// An alphabet character read back from its six-bit value, and the
/// characters the alphabet avoids.
pub proof fn lemma_b64_char_roundtrip(v: u8)
    requires
        v < 64,
    ensures
        is_b64_char(b64_char_of(v)),
        b64_val_of(b64_char_of(v)) == v,
        b64_char_of(v) != '.',
{
}

/// Every character of a rendering belongs to the alphabet; in particular
/// a rendering never contains a dot.
pub proof fn lemma_b64_of_alphabet(bs: Seq<u8>)
    ensures
        forall|i: int| 0 <= i < b64_of(bs).len() ==> is_b64_char(#[trigger] b64_of(bs)[i]),
        forall|i: int| 0 <= i < b64_of(bs).len() ==> #[trigger] b64_of(bs)[i] != '.',
    decreases bs.len(),
{
    if bs.len() == 0 {
    } else if bs.len() == 1 {
        let a = bs[0];
        assert(a >> 2 < 64 && (a & 3) << 4 < 64) by (bit_vector);
        lemma_b64_char_roundtrip(a >> 2);
        lemma_b64_char_roundtrip((a & 3) << 4);
        assert forall|i: int| 0 <= i < b64_of(bs).len() implies is_b64_char(#[trigger] b64_of(
            bs,
        )[i]) && b64_of(bs)[i] != '.' by {
            assert(b64_of(bs) == b64_enc1(a));
            if i == 0 {
                assert(b64_of(bs)[i] == b64_char_of(a >> 2));
            } else {
                assert(b64_of(bs)[i] == b64_char_of((a & 3) << 4));
            }
        }
    } else if bs.len() == 2 {
        let a = bs[0];
        let b = bs[1];
        assert(a >> 2 < 64 && (((a & 3) << 4) | (b >> 4)) < 64 && (b & 15) << 2 < 64)
            by (bit_vector);
        lemma_b64_char_roundtrip(a >> 2);
        lemma_b64_char_roundtrip(((a & 3) << 4) | (b >> 4));
        lemma_b64_char_roundtrip((b & 15) << 2);
        assert forall|i: int| 0 <= i < b64_of(bs).len() implies is_b64_char(#[trigger] b64_of(
            bs,
        )[i]) && b64_of(bs)[i] != '.' by {
            assert(b64_of(bs) == b64_enc2(a, b));
            if i == 0 {
                assert(b64_of(bs)[i] == b64_char_of(a >> 2));
            } else if i == 1 {
                assert(b64_of(bs)[i] == b64_char_of(((a & 3) << 4) | (b >> 4)));
            } else {
                assert(b64_of(bs)[i] == b64_char_of((b & 15) << 2));
            }
        }
    } else {
        let a = bs[0];
        let b = bs[1];
        let c = bs[2];
        assert(a >> 2 < 64 && (((a & 3) << 4) | (b >> 4)) < 64 && (((b & 15) << 2) | (c >> 6))
            < 64 && c & 63 < 64) by (bit_vector);
        lemma_b64_char_roundtrip(a >> 2);
        lemma_b64_char_roundtrip(((a & 3) << 4) | (b >> 4));
        lemma_b64_char_roundtrip(((b & 15) << 2) | (c >> 6));
        lemma_b64_char_roundtrip(c & 63);
        lemma_b64_of_alphabet(bs.skip(3));
        assert forall|i: int| 0 <= i < b64_of(bs).len() implies is_b64_char(#[trigger] b64_of(
            bs,
        )[i]) && b64_of(bs)[i] != '.' by {
            assert(b64_of(bs) == b64_enc3(a, b, c) + b64_of(bs.skip(3)));
            if i == 0 {
                assert(b64_of(bs)[i] == b64_char_of(a >> 2));
            } else if i == 1 {
                assert(b64_of(bs)[i] == b64_char_of(((a & 3) << 4) | (b >> 4)));
            } else if i == 2 {
                assert(b64_of(bs)[i] == b64_char_of(((b & 15) << 2) | (c >> 6)));
            } else if i == 3 {
                assert(b64_of(bs)[i] == b64_char_of(c & 63));
            } else {
                assert(b64_of(bs)[i] == b64_of(bs.skip(3))[i - 4]);
            }
        }
    }
}

/// The length of a rendering: four characters for every three bytes,
/// with two or three characters for a trailing group.
pub proof fn lemma_b64_of_len(bs: Seq<u8>)
    ensures
        bs.len() % 3 == 0 ==> b64_of(bs).len() == bs.len() / 3 * 4,
        bs.len() % 3 == 1 ==> b64_of(bs).len() == bs.len() / 3 * 4 + 2,
        bs.len() % 3 == 2 ==> b64_of(bs).len() == bs.len() / 3 * 4 + 3,
    decreases bs.len(),
{
    if bs.len() >= 3 {
        lemma_b64_of_len(bs.skip(3));
    }
}

/// Strict decoding inverts encoding.
pub proof fn lemma_b64_roundtrip(bs: Seq<u8>)
    ensures
        b64_parse(b64_of(bs)) == Option::Some(bs),
    decreases bs.len(),
{
    let cs = b64_of(bs);
    if bs.len() == 0 {
        assert(cs =~= Seq::<char>::empty());
        assert(b64_parse(cs) == Option::Some(Seq::<u8>::empty()));
        assert(bs =~= Seq::<u8>::empty());
    } else if bs.len() == 1 {
        let a = bs[0];
        let v0 = a >> 2;
        let v1 = (a & 3) << 4;
        assert(v0 < 64 && v1 < 64 && (v1 & 0xf) == 0 && ((v0 << 2) | (v1 >> 4)) == a)
            by (bit_vector)
            requires
                v0 == a >> 2,
                v1 == (a & 3) << 4,
        ;
        lemma_b64_char_roundtrip(v0);
        lemma_b64_char_roundtrip(v1);
        assert(b64_parse(cs) == Option::Some(seq![a]));
        assert(seq![a] =~= bs);
    } else if bs.len() == 2 {
        let (a, b) = (bs[0], bs[1]);
        let v0 = a >> 2;
        let v1 = ((a & 3) << 4) | (b >> 4);
        let v2 = (b & 15) << 2;
        assert(v0 < 64 && v1 < 64 && v2 < 64 && (v2 & 0x3) == 0 && ((v0 << 2) | (v1 >> 4)) == a
            && (((v1 & 0xf) << 4) | (v2 >> 2)) == b) by (bit_vector)
            requires
                v0 == a >> 2,
                v1 == ((a & 3) << 4) | (b >> 4),
                v2 == (b & 15) << 2,
        ;
        lemma_b64_char_roundtrip(v0);
        lemma_b64_char_roundtrip(v1);
        lemma_b64_char_roundtrip(v2);
        assert(b64_parse(cs) == Option::Some(seq![a, b]));
        assert(seq![a, b] =~= bs);
    } else {
        let (a, b, c) = (bs[0], bs[1], bs[2]);
        let v0 = a >> 2;
        let v1 = ((a & 3) << 4) | (b >> 4);
        let v2 = ((b & 15) << 2) | (c >> 6);
        let v3 = c & 63;
        assert(v0 < 64 && v1 < 64 && v2 < 64 && v3 < 64 && ((v0 << 2) | (v1 >> 4)) == a && (((v1
            & 0xf) << 4) | (v2 >> 2)) == b && (((v2 & 0x3) << 6) | v3) == c) by (bit_vector)
            requires
                v0 == a >> 2,
                v1 == ((a & 3) << 4) | (b >> 4),
                v2 == ((b & 15) << 2) | (c >> 6),
                v3 == c & 63,
        ;
        lemma_b64_char_roundtrip(v0);
        lemma_b64_char_roundtrip(v1);
        lemma_b64_char_roundtrip(v2);
        lemma_b64_char_roundtrip(v3);
        lemma_b64_roundtrip(bs.skip(3));
        let rest = b64_of(bs.skip(3));
        assert(cs == b64_enc3(a, b, c) + rest);
        lemma_b64_of_len(bs.skip(3));
        assert(cs.len() >= 4);
        assert(cs[0] == b64_char_of(v0));
        assert(cs[1] == b64_char_of(v1));
        assert(cs[2] == b64_char_of(v2));
        assert(cs[3] == b64_char_of(v3));
        assert(cs.skip(4) =~= rest);
        assert(b64_parse(cs) == Option::Some(seq![a, b, c] + bs.skip(3)));
        assert(seq![a, b, c] + bs.skip(3) =~= bs);
    }
}

/// A valid alphabet character rendered back from its value is itself,
/// and its value is below sixty-four.
pub proof fn lemma_b64_val_roundtrip(c: char)
    requires
        is_b64_char(c),
    ensures
        b64_val_of(c) < 64,
        b64_char_of(b64_val_of(c)) == c,
{
}

/// Strict decoding accepts only canonical renderings: whatever parses
/// was the encoding of what it parsed to.
pub proof fn lemma_b64_parse_sound(cs: Seq<char>, bs: Seq<u8>)
    requires
        b64_parse(cs) == Option::Some(bs),
    ensures
        cs == b64_of(bs),
    decreases cs.len(),
{
    if cs.len() == 0 {
        assert(bs =~= Seq::<u8>::empty());
        assert(cs =~= b64_of(bs));
    } else if cs.len() == 2 {
        let v0 = b64_val_of(cs[0]);
        let v1 = b64_val_of(cs[1]);
        lemma_b64_val_roundtrip(cs[0]);
        lemma_b64_val_roundtrip(cs[1]);
        let x = (v0 << 2) | (v1 >> 4);
        assert(bs =~= seq![x]);
        assert(x >> 2 == v0 && (x & 3) << 4 == v1) by (bit_vector)
            requires
                v0 < 64,
                v1 < 64,
                (v1 & 0xf) == 0,
                x == (v0 << 2) | (v1 >> 4),
        ;
        assert(cs =~= b64_enc1(x));
    } else if cs.len() == 3 {
        let v0 = b64_val_of(cs[0]);
        let v1 = b64_val_of(cs[1]);
        let v2 = b64_val_of(cs[2]);
        lemma_b64_val_roundtrip(cs[0]);
        lemma_b64_val_roundtrip(cs[1]);
        lemma_b64_val_roundtrip(cs[2]);
        let x = (v0 << 2) | (v1 >> 4);
        let y = ((v1 & 0xf) << 4) | (v2 >> 2);
        assert(bs =~= seq![x, y]);
        assert(x >> 2 == v0 && ((x & 3) << 4) | (y >> 4) == v1 && (y & 15) << 2 == v2)
            by (bit_vector)
            requires
                v0 < 64,
                v1 < 64,
                v2 < 64,
                (v2 & 0x3) == 0,
                x == (v0 << 2) | (v1 >> 4),
                y == ((v1 & 0xf) << 4) | (v2 >> 2),
        ;
        assert(cs =~= b64_enc2(x, y));
    } else {
        let v0 = b64_val_of(cs[0]);
        let v1 = b64_val_of(cs[1]);
        let v2 = b64_val_of(cs[2]);
        let v3 = b64_val_of(cs[3]);
        lemma_b64_val_roundtrip(cs[0]);
        lemma_b64_val_roundtrip(cs[1]);
        lemma_b64_val_roundtrip(cs[2]);
        lemma_b64_val_roundtrip(cs[3]);
        let x = (v0 << 2) | (v1 >> 4);
        let y = ((v1 & 0xf) << 4) | (v2 >> 2);
        let z = ((v2 & 0x3) << 6) | v3;
        let rest = b64_parse(cs.skip(4))->0;
        assert(bs == seq![x, y, z] + rest);
        lemma_b64_parse_sound(cs.skip(4), rest);
        assert(x >> 2 == v0 && ((x & 3) << 4) | (y >> 4) == v1 && ((y & 15) << 2) | (z >> 6) == v2
            && z & 63 == v3) by (bit_vector)
            requires
                v0 < 64,
                v1 < 64,
                v2 < 64,
                v3 < 64,
                x == (v0 << 2) | (v1 >> 4),
                y == ((v1 & 0xf) << 4) | (v2 >> 2),
                z == ((v2 & 0x3) << 6) | v3,
        ;
        assert(bs.len() >= 3);
        assert(bs[0] == x && bs[1] == y && bs[2] == z);
        assert(bs.skip(3) =~= rest);
        assert(b64_of(bs) == b64_enc3(x, y, z) + b64_of(rest));
        assert(cs =~= b64_enc3(x, y, z) + b64_of(rest));
    }
}

/// Exec alphabet test matching [`is_b64_char`].
pub fn b64_is_char(c: char) -> (r: bool)
    ensures
        r == is_b64_char(c),
{
    ('A' <= c && c <= 'Z') || ('a' <= c && c <= 'z') || ('0' <= c && c <= '9') || c == '-' || c
        == '_'
}

/// Exec six-bit value matching [`b64_val_of`] on alphabet characters.
pub fn b64_val(c: char) -> (r: u8)
    requires
        is_b64_char(c),
    ensures
        r == b64_val_of(c),
        r < 64,
{
    if 'A' <= c && c <= 'Z' {
        (c as u8) - 65
    } else if 'a' <= c && c <= 'z' {
        (c as u8) - 71
    } else if '0' <= c && c <= '9' {
        (c as u8) + 4
    } else if c == '-' {
        62
    } else {
        63
    }
}

/// Exec alphabet character matching [`b64_char_of`] on six-bit values.
pub fn b64_char(v: u8) -> (r: char)
    requires
        v < 64,
    ensures
        r == b64_char_of(v),
{
    if v < 26 {
        (65 + v) as char
    } else if v < 52 {
        (71 + v) as char
    } else if v < 62 {
        (v - 4) as char
    } else if v == 62 {
        '-'
    } else {
        '_'
    }
}

/// Encodes a byte vector in unpadded base64url.
pub fn b64_encode(bs: &Vec<u8>) -> (r: Vec<char>)
    ensures
        r@ == b64_of(bs@),
{
    let n: usize = bs.len();
    let mut out: Vec<char> = Vec::new();
    let mut i: usize = 0;
    proof {
        assert(bs@.skip(0) =~= bs@);
        assert(out@ + b64_of(bs@.skip(0)) =~= b64_of(bs@));
    }
    while n - i >= 3
        invariant
            n == bs@.len(),
            i <= n,
            b64_of(bs@) == out@ + b64_of(bs@.skip(i as int)),
        decreases n - i,
    {
        let a = bs[i];
        let b = bs[i + 1];
        let c = bs[i + 2];
        let ghost prev = out@;
        proof {
            assert(a >> 2 < 64 && (((a & 3) << 4) | (b >> 4)) < 64 && (((b & 15) << 2) | (c >> 6))
                < 64 && c & 63 < 64) by (bit_vector);
            assert(bs@.skip(i as int).len() >= 3);
            assert(bs@.skip(i as int)[0] == a);
            assert(bs@.skip(i as int)[1] == b);
            assert(bs@.skip(i as int)[2] == c);
            assert(bs@.skip(i as int).skip(3) =~= bs@.skip(i + 3));
        }
        out.push(b64_char(a >> 2));
        out.push(b64_char(((a & 3) << 4) | (b >> 4)));
        out.push(b64_char(((b & 15) << 2) | (c >> 6)));
        out.push(b64_char(c & 63));
        proof {
            assert(out@ =~= prev + b64_enc3(a, b, c));
            assert(b64_of(bs@.skip(i as int)) == b64_enc3(a, b, c) + b64_of(bs@.skip(i + 3)));
            assert((prev + b64_enc3(a, b, c)) + b64_of(bs@.skip(i + 3)) =~= prev + (b64_enc3(
                a,
                b,
                c,
            ) + b64_of(bs@.skip(i + 3))));
        }
        i = i + 3;
    }
    let rem: usize = n - i;
    if rem == 1 {
        let a = bs[i];
        let ghost prev = out@;
        proof {
            assert(a >> 2 < 64 && (a & 3) << 4 < 64) by (bit_vector);
            assert(bs@.skip(i as int).len() == 1);
            assert(bs@.skip(i as int)[0] == a);
        }
        out.push(b64_char(a >> 2));
        out.push(b64_char((a & 3) << 4));
        proof {
            assert(out@ =~= prev + b64_enc1(a));
        }
    } else if rem == 2 {
        let a = bs[i];
        let b = bs[i + 1];
        let ghost prev = out@;
        proof {
            assert(a >> 2 < 64 && (((a & 3) << 4) | (b >> 4)) < 64 && (b & 15) << 2 < 64)
                by (bit_vector);
            assert(bs@.skip(i as int).len() == 2);
            assert(bs@.skip(i as int)[0] == a);
            assert(bs@.skip(i as int)[1] == b);
        }
        out.push(b64_char(a >> 2));
        out.push(b64_char(((a & 3) << 4) | (b >> 4)));
        out.push(b64_char((b & 15) << 2));
        proof {
            assert(out@ =~= prev + b64_enc2(a, b));
        }
    } else {
        proof {
            assert(bs@.skip(i as int).len() == 0);
            assert(b64_of(bs@.skip(i as int)) =~= Seq::<char>::empty());
            assert(out@ + b64_of(bs@.skip(i as int)) =~= out@);
        }
    }
    out
}

/// Decodes an unpadded base64url character sequence, strictly.
pub fn b64_decode(cs: &Vec<char>) -> (r: Option<Vec<u8>>)
    ensures
        match r {
            Option::Some(v) => b64_parse(cs@) == Option::Some(v@),
            Option::None => b64_parse(cs@) is None,
        },
{
    let n: usize = cs.len();
    let mut out: Vec<u8> = Vec::new();
    let mut i: usize = 0;
    proof {
        assert(cs@.skip(0) =~= cs@);
        if b64_parse(cs@) is Some {
            let r0 = b64_parse(cs@)->0;
            assert(out@ + r0 =~= r0);
        }
    }
    while n - i >= 4
        invariant
            n == cs@.len(),
            i <= n,
            b64_parse(cs@) == match b64_parse(cs@.skip(i as int)) {
                Option::Some(rest) => Option::Some(out@ + rest),
                Option::None => Option::None::<Seq<u8>>,
            },
        decreases n - i,
    {
        let c0 = cs[i];
        let c1 = cs[i + 1];
        let c2 = cs[i + 2];
        let c3 = cs[i + 3];
        proof {
            assert(cs@.skip(i as int).len() >= 4);
            assert(cs@.skip(i as int)[0] == c0);
            assert(cs@.skip(i as int)[1] == c1);
            assert(cs@.skip(i as int)[2] == c2);
            assert(cs@.skip(i as int)[3] == c3);
            assert(cs@.skip(i as int).skip(4) =~= cs@.skip(i + 4));
        }
        if !(b64_is_char(c0) && b64_is_char(c1) && b64_is_char(c2) && b64_is_char(c3)) {
            return Option::None;
        }
        let v0 = b64_val(c0);
        let v1 = b64_val(c1);
        let v2 = b64_val(c2);
        let v3 = b64_val(c3);
        let ghost prev = out@;
        let ghost chunk = seq![
            (b64_val_of(c0) << 2) | (b64_val_of(c1) >> 4),
            ((b64_val_of(c1) & 0xf) << 4) | (b64_val_of(c2) >> 2),
            ((b64_val_of(c2) & 0x3) << 6) | b64_val_of(c3),
        ];
        out.push((v0 << 2) | (v1 >> 4));
        out.push(((v1 & 0xf) << 4) | (v2 >> 2));
        out.push(((v2 & 0x3) << 6) | v3);
        proof {
            assert(out@ =~= prev + chunk);
            if b64_parse(cs@.skip(i + 4)) is Some {
                let rest = b64_parse(cs@.skip(i + 4))->0;
                assert((prev + chunk) + rest =~= prev + (chunk + rest));
            }
        }
        i = i + 4;
    }
    let rem: usize = n - i;
    if rem == 0 {
        proof {
            assert(cs@.skip(i as int).len() == 0);
            assert(out@ + Seq::<u8>::empty() =~= out@);
        }
        Option::Some(out)
    } else if rem == 2 {
        let c0 = cs[i];
        let c1 = cs[i + 1];
        proof {
            assert(cs@.skip(i as int).len() == 2);
            assert(cs@.skip(i as int)[0] == c0);
            assert(cs@.skip(i as int)[1] == c1);
        }
        if b64_is_char(c0) && b64_is_char(c1) {
            let v1 = b64_val(c1);
            if (v1 & 0xf) == 0 {
                let v0 = b64_val(c0);
                let ghost prev = out@;
                out.push((v0 << 2) | (v1 >> 4));
                proof {
                    assert(out@ =~= prev + seq![
                        (b64_val_of(c0) << 2) | (b64_val_of(c1) >> 4),
                    ]);
                }
                Option::Some(out)
            } else {
                Option::None
            }
        } else {
            Option::None
        }
    } else if rem == 3 {
        let c0 = cs[i];
        let c1 = cs[i + 1];
        let c2 = cs[i + 2];
        proof {
            assert(cs@.skip(i as int).len() == 3);
            assert(cs@.skip(i as int)[0] == c0);
            assert(cs@.skip(i as int)[1] == c1);
            assert(cs@.skip(i as int)[2] == c2);
        }
        if b64_is_char(c0) && b64_is_char(c1) && b64_is_char(c2) {
            let v2 = b64_val(c2);
            if (v2 & 0x3) == 0 {
                let v0 = b64_val(c0);
                let v1 = b64_val(c1);
                let ghost prev = out@;
                out.push((v0 << 2) | (v1 >> 4));
                out.push(((v1 & 0xf) << 4) | (v2 >> 2));
                proof {
                    assert(out@ =~= prev + seq![
                        (b64_val_of(c0) << 2) | (b64_val_of(c1) >> 4),
                        ((b64_val_of(c1) & 0xf) << 4) | (b64_val_of(c2) >> 2),
                    ]);
                }
                Option::Some(out)
            } else {
                Option::None
            }
        } else {
            Option::None
        }
    } else {
        proof {
            assert(cs@.skip(i as int).len() == 1);
        }
        Option::None
    }
}

} // verus!
