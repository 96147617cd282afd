//! Token claims: the subject, the validity window, the kind
//! discriminator, and the fixed JSON shape they are carried in inside a
//! token, with a verified printer and strict parser.

use vstd::prelude::*;

use crate::errors::TokenError;
use crate::ids::{UserId, spec_parse_uuid, uuid_str_of};
use crate::text::{chars_to_string, is_digit, str_chars};

verus! {

/// The two kinds of session token.
#[derive(Debug, Clone, Copy, PartialEq, Eq, Structural)]
pub enum TokenType {
    /// Short-lived credential authorizing API calls.
    Access,
    /// Long-lived credential used only to obtain a new token pair.
    Refresh,
}

/// The mathematical content of a set of claims.
pub struct ClaimsView {
    pub sub: Seq<char>,
    pub exp: u64,
    pub iat: u64,
    pub refresh: bool,
}

/// The claims carried by a session token: subject, expiry, issue time,
/// and kind.
#[derive(Debug, Clone, PartialEq, Eq)]
pub struct Claims {
    pub sub: String,
    pub exp: u64,
    pub iat: u64,
    pub token_type: TokenType,
}

impl View for Claims {
    type V = ClaimsView;

    open spec fn view(&self) -> ClaimsView {
        ClaimsView {
            sub: self.sub@,
            exp: self.exp,
            iat: self.iat,
            refresh: self.token_type is Refresh,
        }
    }
}

/// A subject string the JSON shape can carry faithfully: printable ASCII
/// without a double quote.
pub open spec fn sub_wf(sub: Seq<char>) -> bool {
    forall|k: int| 0 <= k < sub.len() ==> ' ' <= #[trigger] sub[k] && sub[k] <= '~' && sub[k]
        != '"'
}

/// Well-formed claims: a faithfully representable subject.
pub open spec fn claims_wf(cv: ClaimsView) -> bool {
    sub_wf(cv.sub)
}

/// The decimal digit character for a value below ten.
pub open spec fn digit_char(d: u8) -> char {
    (48 + d) as char
}

/// The decimal rendering of `n`, without leading zeros.
pub open spec fn dec_str_of(n: u64) -> Seq<char>
    decreases n,
{
    if n < 10 {
        seq![digit_char(n as u8)]
    } else {
        dec_str_of(n / 10).push(digit_char((n % 10) as u8))
    }
}

/// The numeric value of a sequence of decimal digits.
pub open spec fn dec_val(ds: Seq<char>) -> int
    decreases ds.len(),
{
    if ds.len() == 0 {
        0
    } else {
        dec_val(ds.drop_last()) * 10 + (ds.last() as int - 48)
    }
}

/// Reading a decimal rendering back yields the number; the rendering is
/// nonempty, consists of digits, and never starts with a superfluous
/// zero.
pub proof fn lemma_dec_roundtrip(n: u64)
    ensures
        dec_val(dec_str_of(n)) == n,
        dec_str_of(n).len() >= 1,
        forall|k: int| 0 <= k < dec_str_of(n).len() ==> is_digit(#[trigger] dec_str_of(n)[k]),
        dec_str_of(n).len() > 1 ==> dec_str_of(n)[0] != '0',
        n >= 1 ==> dec_str_of(n)[0] != '0',
    decreases n,
{
    if n < 10 {
        assert(dec_str_of(n) == seq![digit_char(n as u8)]);
        assert(dec_str_of(n).drop_last() =~= Seq::<char>::empty());
        assert(dec_str_of(n).last() == digit_char(n as u8));
        assert(digit_char(n as u8) as int == 48 + n);
        assert(dec_val(Seq::<char>::empty()) == 0);
        assert(dec_val(dec_str_of(n)) == dec_val(dec_str_of(n).drop_last()) * 10 + (dec_str_of(
            n,
        ).last() as int - 48));
    } else {
        lemma_dec_roundtrip(n / 10);
        let ds = dec_str_of(n);
        assert(ds == dec_str_of(n / 10).push(digit_char((n % 10) as u8)));
        assert(ds.drop_last() =~= dec_str_of(n / 10));
        assert(ds.last() == digit_char((n % 10) as u8));
        assert(digit_char((n % 10) as u8) as int == 48 + n % 10);
        vstd::arithmetic::div_mod::lemma_fundamental_div_mod(n as int, 10);
        assert forall|k: int| 0 <= k < ds.len() implies is_digit(#[trigger] ds[k]) by {
            if k < ds.len() - 1 {
                assert(ds[k] == dec_str_of(n / 10)[k]);
            }
        }
        assert(ds[0] == dec_str_of(n / 10)[0]);
        assert(n / 10 >= 1);
    }
}

/// Only the canonical rendering of a number reads back as it: nonempty
/// digits without a superfluous leading zero determine the rendering.
pub proof fn lemma_dec_sound(ds: Seq<char>, n: u64)
    requires
        ds.len() >= 1,
        forall|k: int| 0 <= k < ds.len() ==> is_digit(#[trigger] ds[k]),
        ds.len() > 1 ==> ds[0] != '0',
        dec_val(ds) == n,
    ensures
        ds == dec_str_of(n),
    decreases ds.len(),
{
    if ds.len() == 1 {
        assert(ds.drop_last() =~= Seq::<char>::empty());
        assert(dec_val(Seq::<char>::empty()) == 0);
        assert(ds.last() == ds[0]);
        assert(dec_val(ds) == ds[0] as int - 48);
        assert(n < 10);
        assert(digit_char(n as u8) == ds[0]);
        assert(dec_str_of(n) =~= ds);
    } else {
        let front = ds.drop_last();
        let d = ds.last() as int - 48;
        assert(is_digit(ds.last()));
        assert(0 <= d < 10);
        let q = dec_val(front);
        assert(dec_val(ds) == q * 10 + d);
        assert(front.len() >= 1);
        assert(front[0] == ds[0]);
        assert(forall|k: int| 0 <= k < front.len() ==> is_digit(#[trigger] front[k]));
        // The front is itself canonical: nonzero leading digit.
        assert(front[0] != '0');
        lemma_dec_val_positive(front);
        assert(q >= 1);
        assert(q <= u64::MAX) by {
            assert(q * 10 + d >= q) by (nonlinear_arith)
                requires
                    q >= 0,
                    d >= 0,
            ;
        }
        vstd::arithmetic::div_mod::lemma_fundamental_div_mod_converse(n as int, 10, q, d);
        lemma_dec_sound(front, q as u64);
        assert(n >= 10) by (nonlinear_arith)
            requires
                q >= 1,
                d >= 0,
                n == q * 10 + d,
        ;
        assert(dec_str_of(n) == dec_str_of(n / 10).push(digit_char((n % 10) as u8)));
        assert(digit_char((n % 10) as u8) == ds.last());
        assert(dec_str_of(n) =~= ds);
    }
}

/// A nonempty digit string that does not start with zero denotes at
/// least one.
proof fn lemma_dec_val_positive(ds: Seq<char>)
    requires
        ds.len() >= 1,
        forall|k: int| 0 <= k < ds.len() ==> is_digit(#[trigger] ds[k]),
        ds[0] != '0',
    ensures
        dec_val(ds) >= 1,
    decreases ds.len(),
{
    if ds.len() == 1 {
        assert(ds.drop_last() =~= Seq::<char>::empty());
        assert(dec_val(Seq::<char>::empty()) == 0);
        assert(ds.last() == ds[0]);
        assert(is_digit(ds[0]) && ds[0] != '0');
        assert(dec_val(ds) == ds[0] as int - 48);
    } else {
        let front = ds.drop_last();
        assert(front[0] == ds[0]);
        assert(forall|k: int| 0 <= k < front.len() ==> is_digit(#[trigger] front[k]));
        lemma_dec_val_positive(front);
        let d = ds.last() as int - 48;
        assert(d >= 0);
        assert(dec_val(front) * 10 + d >= 1) by (nonlinear_arith)
            requires
                dec_val(front) >= 1,
                d >= 0,
        ;
    }
}

/// Renders `n` in decimal.
pub fn u64_to_dec(n: u64) -> (r: Vec<char>)
    ensures
        r@ == dec_str_of(n),
    decreases n,
{
    if n < 10 {
        let mut out: Vec<char> = Vec::new();
        out.push((48 + (n as u8)) as char);
        proof {
            assert(out@ =~= seq![digit_char(n as u8)]);
        }
        out
    } else {
        proof {
            assert(n / 10 < n) by (nonlinear_arith)
                requires
                    n >= 10,
            ;
        }
        let mut out = u64_to_dec(n / 10);
        out.push((48 + ((n % 10) as u8)) as char);
        out
    }
}

/// The first position at or after `i` holding a double quote, or the
/// length if there is none.
pub open spec fn scan_to_quote(cs: Seq<char>, i: int) -> int
    decreases cs.len() - i,
{
    if i < 0 || i >= cs.len() {
        cs.len() as int
    } else if cs[i] == '"' {
        i
    } else {
        scan_to_quote(cs, i + 1)
    }
}

/// The first position at or after `i` holding a non-digit, or the
/// length.
pub open spec fn scan_digits_end(cs: Seq<char>, i: int) -> int
    decreases cs.len() - i,
{
    if i < 0 || i >= cs.len() {
        cs.len() as int
    } else if is_digit(cs[i]) {
        scan_digits_end(cs, i + 1)
    } else {
        i
    }
}

/// Whether `lit` occurs in `cs` at position `pos`.
pub open spec fn match_at(cs: Seq<char>, pos: int, lit: Seq<char>) -> bool {
    0 <= pos && pos + lit.len() <= cs.len() && cs.subrange(pos, pos + lit.len()) == lit
}

/// The kind discriminator as it appears in the payload.
pub open spec fn kind_str(refresh: bool) -> Seq<char> {
    if refresh {
        "Refresh"@
    } else {
        "Access"@
    }
}

/// The JSON payload carrying a set of claims.
pub open spec fn claims_json_of(cv: ClaimsView) -> Seq<char> {
    "{\"sub\":\""@ + cv.sub + "\",\"exp\":"@ + dec_str_of(cv.exp) + ",\"iat\":"@ + dec_str_of(
        cv.iat,
    ) + ",\"token_type\":\""@ + kind_str(cv.refresh) + "\"}"@
}

/// The claims a payload denotes under strict parsing of the JSON shape
/// above: `None` on any structural deviation or numeric overflow.
pub open spec fn claims_parse(cs: Seq<char>) -> Option<ClaimsView> {
    if !match_at(cs, 0, "{\"sub\":\""@) {
        Option::None
    } else {
        let q = scan_to_quote(cs, 8);
        if q >= cs.len() {
            Option::None
        } else {
            let sub = cs.subrange(8, q);
            if !match_at(cs, q, "\",\"exp\":"@) {
                Option::None
            } else {
                let e0 = q + 8;
                let e1 = scan_digits_end(cs, e0);
                if e1 == e0 || (e1 - e0 > 1 && cs[e0] == '0') || dec_val(cs.subrange(e0, e1))
                    > u64::MAX {
                    Option::None
                } else {
                    if !match_at(cs, e1, ",\"iat\":"@) {
                        Option::None
                    } else {
                        let i0 = e1 + 7;
                        let i1 = scan_digits_end(cs, i0);
                        if i1 == i0 || (i1 - i0 > 1 && cs[i0] == '0') || dec_val(
                            cs.subrange(i0, i1),
                        ) > u64::MAX {
                            Option::None
                        } else {
                            if !match_at(cs, i1, ",\"token_type\":\""@) {
                                Option::None
                            } else {
                                let k0 = i1 + 15;
                                if match_at(cs, k0, "Access\"}"@) && cs.len() == k0 + 8 {
                                    Option::Some(
                                        ClaimsView {
                                            sub,
                                            exp: dec_val(cs.subrange(e0, e1)) as u64,
                                            iat: dec_val(cs.subrange(i0, i1)) as u64,
                                            refresh: false,
                                        },
                                    )
                                } else if match_at(cs, k0, "Refresh\"}"@) && cs.len() == k0
                                    + 9 {
                                    Option::Some(
                                        ClaimsView {
                                            sub,
                                            exp: dec_val(cs.subrange(e0, e1)) as u64,
                                            iat: dec_val(cs.subrange(i0, i1)) as u64,
                                            refresh: true,
                                        },
                                    )
                                } else {
                                    Option::None
                                }
                            }
                        }
                    }
                }
            }
        }
    }
}

/// A quote scan stops at `target` when everything before it is
/// quote-free and `target` holds a quote.
proof fn lemma_scan_quote_hits(cs: Seq<char>, i: int, target: int)
    requires
        0 <= i <= target < cs.len(),
        forall|k: int| i <= k < target ==> cs[k] != '"',
        cs[target] == '"',
    ensures
        scan_to_quote(cs, i) == target,
    decreases target - i,
{
    if i < target {
        lemma_scan_quote_hits(cs, i + 1, target);
    }
}

/// A digit scan stops at `target` when everything before it is a digit
/// and `target` is not (or is the end).
proof fn lemma_scan_digits_hits(cs: Seq<char>, i: int, target: int)
    requires
        0 <= i <= target <= cs.len(),
        forall|k: int| i <= k < target ==> is_digit(cs[k]),
        target < cs.len() ==> !is_digit(cs[target]),
    ensures
        scan_digits_end(cs, i) == target,
    decreases target - i,
{
    if i < target {
        lemma_scan_digits_hits(cs, i + 1, target);
    }
}

/// Strict parsing inverts printing, for well-formed claims.
#[verifier::rlimit(100)]
pub proof fn lemma_claims_roundtrip(cv: ClaimsView)
    requires
        claims_wf(cv),
    ensures
        claims_parse(claims_json_of(cv)) == Option::Some(cv),
{
    reveal_strlit("{\"sub\":\"");
    reveal_strlit("\",\"exp\":");
    reveal_strlit(",\"iat\":");
    reveal_strlit(",\"token_type\":\"");
    reveal_strlit("Access\"}");
    reveal_strlit("Refresh\"}");
    reveal_strlit("Access");
    reveal_strlit("Refresh");
    reveal_strlit("\"}");
    let cs = claims_json_of(cv);
    let l1 = "{\"sub\":\""@;
    let l2 = "\",\"exp\":"@;
    let l3 = ",\"iat\":"@;
    let l4 = ",\"token_type\":\""@;
    let lk = kind_str(cv.refresh);
    let le = "\"}"@;
    let ed = dec_str_of(cv.exp);
    let id = dec_str_of(cv.iat);
    lemma_dec_roundtrip(cv.exp);
    lemma_dec_roundtrip(cv.iat);
    let q = 8 + cv.sub.len() as int;
    let e0 = q + 8;
    let e1 = e0 + ed.len() as int;
    let i0 = e1 + 7;
    let i1 = i0 + id.len() as int;
    let k0 = i1 + 15;
    assert(cs == l1 + cv.sub + l2 + ed + l3 + id + l4 + lk + le);
    assert(l1.len() == 8 && l2.len() == 8 && l3.len() == 7 && l4.len() == 15 && le.len() == 2);
    assert(cs.len() == k0 + lk.len() + 2);
    // Layout of every region of the printed payload.
    assert(cs.subrange(0, 8) =~= l1);
    assert(cs.subrange(8, q) =~= cv.sub);
    assert(cs.subrange(q, e0) =~= l2);
    assert(cs.subrange(e0, e1) =~= ed);
    assert(cs.subrange(e1, i0) =~= l3);
    assert(cs.subrange(i0, i1) =~= id);
    assert(cs.subrange(i1, k0) =~= l4);
    assert(cs.subrange(k0, k0 + lk.len()) =~= lk);
    assert(cs.subrange(k0 + lk.len(), cs.len() as int) =~= le);
    // The quote scan stops exactly at the quote that closes the subject.
    assert(match_at(cs, 0, l1));
    assert(cs[q] == '"');
    assert forall|k: int| 8 <= k < q implies cs[k] != '"' by {
        assert(cs[k] == cv.sub[k - 8]);
    }
    lemma_scan_quote_hits(cs, 8, q);
    assert(match_at(cs, q, l2));
    // The digit scans stop exactly at the ends of the two numbers.
    assert forall|k: int| e0 <= k < e1 implies is_digit(cs[k]) by {
        assert(cs[k] == ed[k - e0]);
    }
    assert(cs[e1] == ',');
    lemma_scan_digits_hits(cs, e0, e1);
    assert(dec_val(cs.subrange(e0, e1)) == cv.exp);
    assert(match_at(cs, e1, l3));
    assert forall|k: int| i0 <= k < i1 implies is_digit(cs[k]) by {
        assert(cs[k] == id[k - i0]);
    }
    assert(cs[i1] == ',');
    lemma_scan_digits_hits(cs, i0, i1);
    assert(dec_val(cs.subrange(i0, i1)) == cv.iat);
    assert(match_at(cs, i1, l4));
    // The kind literal and the closing brace.
    if cv.refresh {
        assert(cs.subrange(k0, k0 + 9) =~= "Refresh\"}"@);
        assert(match_at(cs, k0, "Refresh\"}"@));
        assert(!(match_at(cs, k0, "Access\"}"@) && cs.len() == k0 + 8));
    } else {
        assert(cs.subrange(k0, k0 + 8) =~= "Access\"}"@);
        assert(match_at(cs, k0, "Access\"}"@));
    }
    assert(claims_parse(cs) == Option::Some(
        ClaimsView { sub: cv.sub, exp: cv.exp, iat: cv.iat, refresh: cv.refresh },
    ));
    assert(ClaimsView { sub: cv.sub, exp: cv.exp, iat: cv.iat, refresh: cv.refresh } == cv);
}

/// A digit scan runs over digits only, stops at a non-digit, and stays
/// in range.
proof fn lemma_scan_digits_range(cs: Seq<char>, i: int)
    requires
        0 <= i <= cs.len(),
    ensures
        i <= scan_digits_end(cs, i) <= cs.len(),
        forall|k: int| i <= k < scan_digits_end(cs, i) ==> is_digit(#[trigger] cs[k]),
        scan_digits_end(cs, i) < cs.len() ==> !is_digit(cs[scan_digits_end(cs, i)]),
    decreases cs.len() - i,
{
    if i < cs.len() && is_digit(cs[i]) {
        lemma_scan_digits_range(cs, i + 1);
    }
}

/// A quote scan runs over quote-free text, stops at a quote, and stays
/// in range.
proof fn lemma_scan_quote_range(cs: Seq<char>, i: int)
    requires
        0 <= i <= cs.len(),
    ensures
        i <= scan_to_quote(cs, i) <= cs.len(),
        forall|k: int| i <= k < scan_to_quote(cs, i) ==> #[trigger] cs[k] != '"',
        scan_to_quote(cs, i) < cs.len() ==> cs[scan_to_quote(cs, i)] == '"',
    decreases cs.len() - i,
{
    if i < cs.len() && cs[i] != '"' {
        lemma_scan_quote_range(cs, i + 1);
    }
}

/// A sequence of digits denotes a non-negative number.
proof fn lemma_dec_val_nonneg(ds: Seq<char>)
    requires
        forall|k: int| 0 <= k < ds.len() ==> is_digit(#[trigger] ds[k]),
    ensures
        dec_val(ds) >= 0,
    decreases ds.len(),
{
    if ds.len() > 0 {
        lemma_dec_val_nonneg(ds.drop_last());
        let d = ds.last() as int - 48;
        assert(dec_val(ds.drop_last()) * 10 + d >= 0) by (nonlinear_arith)
            requires
                dec_val(ds.drop_last()) >= 0,
                d >= 0,
        ;
    }
}

/// Strict parsing accepts only printed payloads: whatever parses was the
/// printed JSON of exactly the claims it parsed to.
#[verifier::rlimit(100)]
pub proof fn lemma_claims_parse_sound(cs: Seq<char>, cv: ClaimsView)
    requires
        claims_parse(cs) == Option::Some(cv),
    ensures
        cs == claims_json_of(cv),
{
    reveal_strlit("{\"sub\":\"");
    reveal_strlit("\",\"exp\":");
    reveal_strlit(",\"iat\":");
    reveal_strlit(",\"token_type\":\"");
    reveal_strlit("Access\"}");
    reveal_strlit("Refresh\"}");
    reveal_strlit("Access");
    reveal_strlit("Refresh");
    reveal_strlit("\"}");
    let l1 = "{\"sub\":\""@;
    let l2 = "\",\"exp\":"@;
    let l3 = ",\"iat\":"@;
    let l4 = ",\"token_type\":\""@;
    let le = "\"}"@;
    let lk = kind_str(cv.refresh);
    let q = scan_to_quote(cs, 8);
    let e0 = q + 8;
    let e1 = scan_digits_end(cs, e0);
    let i0 = e1 + 7;
    let i1 = scan_digits_end(cs, i0);
    let k0 = i1 + 15;
    lemma_scan_quote_range(cs, 8);
    lemma_scan_digits_range(cs, e0);
    let ed = cs.subrange(e0, e1);
    assert(forall|k: int| 0 <= k < ed.len() ==> is_digit(#[trigger] ed[k]));
    lemma_dec_val_nonneg(ed);
    assert(dec_val(ed) == cv.exp);
    lemma_dec_sound(ed, cv.exp);
    lemma_scan_digits_range(cs, i0);
    let id = cs.subrange(i0, i1);
    assert(forall|k: int| 0 <= k < id.len() ==> is_digit(#[trigger] id[k]));
    lemma_dec_val_nonneg(id);
    assert(dec_val(id) == cv.iat);
    lemma_dec_sound(id, cv.iat);
    assert(cv.sub == cs.subrange(8, q));
    if cv.refresh {
        assert(cs.len() == k0 + 9);
        assert("Refresh\"}"@ =~= "Refresh"@ + le);
    } else {
        assert(cs.len() == k0 + 8);
        assert("Access\"}"@ =~= "Access"@ + le);
    }
    let js = claims_json_of(cv);
    assert(js.len() == cs.len());
    assert forall|k: int| 0 <= k < cs.len() implies js[k] == cs[k] by {
        if k < 8 {
            assert(js[k] == l1[k]);
            assert(cs.subrange(0, 8)[k] == cs[k]);
        } else if k < q {
            assert(js[k] == cv.sub[k - 8]);
        } else if k < e0 {
            assert(js[k] == l2[k - q]);
            assert(cs.subrange(q, e0)[k - q] == cs[k]);
        } else if k < e1 {
            assert(js[k] == dec_str_of(cv.exp)[k - e0]);
        } else if k < i0 {
            assert(js[k] == l3[k - e1]);
            assert(cs.subrange(e1, i0)[k - e1] == cs[k]);
        } else if k < i1 {
            assert(js[k] == dec_str_of(cv.iat)[k - i0]);
        } else if k < k0 {
            assert(js[k] == l4[k - i1]);
            assert(cs.subrange(i1, k0)[k - i1] == cs[k]);
        } else if k < k0 + lk.len() {
            assert(js[k] == lk[k - k0]);
            if cv.refresh {
                assert(cs.subrange(k0, k0 + 9)[k - k0] == cs[k]);
            } else {
                assert(cs.subrange(k0, k0 + 8)[k - k0] == cs[k]);
            }
        } else {
            assert(js[k] == le[k - k0 - lk.len()]);
            if cv.refresh {
                assert(cs.subrange(k0, k0 + 9)[k - k0] == cs[k]);
            } else {
                assert(cs.subrange(k0, k0 + 8)[k - k0] == cs[k]);
            }
        }
    }
    assert(cs =~= js);
}

/// Whether the literal `lit` occurs in `cs` at `pos`.
pub fn match_lit(cs: &Vec<char>, pos: usize, lit: &str) -> (r: bool)
    ensures
        r == match_at(cs@, pos as int, lit@),
{
    let lc = str_chars(lit);
    let m: usize = lc.len();
    if pos > cs.len() || m > cs.len() - pos {
        proof {
            assert(!match_at(cs@, pos as int, lit@));
        }
        return false;
    }
    let mut k: usize = 0;
    while k < m
        invariant
            pos + m <= cs@.len(),
            pos + m <= usize::MAX,
            m == lit@.len(),
            lc@ == lit@,
            k <= m,
            forall|t: int| 0 <= t < k ==> cs@[pos + t] == lit@[t],
        decreases m - k,
    {
        if cs[pos + k] != lc[k] {
            proof {
                assert(cs@.subrange(pos as int, pos + m) [k as int] != lit@[k as int]);
            }
            return false;
        }
        k = k + 1;
    }
    proof {
        assert(cs@.subrange(pos as int, pos + m) =~= lit@);
    }
    true
}

/// Exec decimal digit test matching [`is_digit`].
fn digit_exec(c: char) -> (r: bool)
    ensures
        r == is_digit(c),
{
    '0' <= c && c <= '9'
}

/// The decimal number starting at `i`, its end position, or nothing when
/// there is no digit at `i` or the value does not fit.
fn parse_number(cs: &Vec<char>, start: usize) -> (r: Option<(u64, usize)>)
    requires
        start <= cs@.len(),
    ensures
        match r {
            Option::Some((v, end)) => {
                &&& scan_digits_end(cs@, start as int) == end
                &&& start < end <= cs@.len()
                &&& !(end - start > 1 && cs@[start as int] == '0')
                &&& dec_val(cs@.subrange(start as int, end as int)) == v
            },
            Option::None => {
                let end = scan_digits_end(cs@, start as int);
                end == start || (end - start > 1 && cs@[start as int] == '0') || dec_val(
                    cs@.subrange(start as int, end),
                ) > u64::MAX
            },
        },
{
    let n: usize = cs.len();
    let mut end: usize = start;
    let mut val: u64 = 0;
    let mut overflow: bool = false;
    while end < n && digit_exec(cs[end])
        invariant
            start <= end <= n,
            n == cs@.len(),
            forall|k: int| start <= k < end ==> is_digit(cs@[k]),
            !overflow ==> dec_val(cs@.subrange(start as int, end as int)) == val,
            overflow ==> dec_val(cs@.subrange(start as int, end as int)) > u64::MAX,
        decreases n - end,
    {
        let c = cs[end];
        let d: u64 = (c as u8 - 48) as u64;
        let ghost pre = cs@.subrange(start as int, end as int);
        proof {
            assert(cs@.subrange(start as int, end + 1).drop_last() =~= pre);
            assert(cs@.subrange(start as int, end + 1).last() == cs@[end as int]);
        }
        if !overflow {
            let wide: u128 = (val as u128) * 10 + (d as u128);
            if wide > (u64::MAX as u128) {
                overflow = true;
                proof {
                    assert(dec_val(cs@.subrange(start as int, end + 1)) == dec_val(pre) * 10 + (
                    cs@[end as int] as int - 48));
                }
            } else {
                val = wide as u64;
            }
        } else {
            proof {
                assert(dec_val(cs@.subrange(start as int, end + 1)) == dec_val(pre) * 10 + (
                cs@[end as int] as int - 48));
                assert(dec_val(pre) * 10 + (cs@[end as int] as int - 48) > u64::MAX) by (nonlinear_arith)
                    requires
                        dec_val(pre) > u64::MAX,
                        cs@[end as int] as int - 48 >= 0,
                ;
            }
        }
        end = end + 1;
    }
    proof {
        lemma_scan_digits_hits(cs@, start as int, end as int);
    }
    if end == start || overflow {
        Option::None
    } else if end - start > 1 && cs[start] == '0' {
        Option::None
    } else {
        Option::Some((val, end))
    }
}

/// Parses a payload in the fixed JSON shape, strictly.
pub fn claims_parse_chars(cs: &Vec<char>) -> (r: Option<Claims>)
    ensures
        match r {
            Option::Some(c) => claims_parse(cs@) == Option::Some(c@),
            Option::None => claims_parse(cs@) is None,
        },
{
    if !match_lit(cs, 0, "{\"sub\":\"") {
        return Option::None;
    }
    proof {
        reveal_strlit("{\"sub\":\"");
    }
    let n: usize = cs.len();
    // Scan for the quote that closes the subject.
    let mut q: usize = 8;
    while q < n && cs[q] != '"'
        invariant
            8 <= q <= n,
            n == cs@.len(),
            forall|k: int| 8 <= k < q ==> cs@[k] != '"',
        decreases n - q,
    {
        q = q + 1;
    }
    if q == n {
        proof {
            lemma_scan_quote_none(cs@, 8);
        }
        return Option::None;
    }
    proof {
        lemma_scan_quote_hits(cs@, 8, q as int);
    }
    let mut sub_chars: Vec<char> = Vec::new();
    let mut t: usize = 8;
    while t < q
        invariant
            8 <= t <= q <= cs@.len(),
            sub_chars@ == cs@.subrange(8, t as int),
        decreases q - t,
    {
        sub_chars.push(cs[t]);
        proof {
            assert(cs@.subrange(8, t + 1) =~= cs@.subrange(8, t as int).push(cs@[t as int]));
        }
        t = t + 1;
    }
    if !match_lit(cs, q, "\",\"exp\":") {
        return Option::None;
    }
    proof {
        reveal_strlit("\",\"exp\":");
    }
    let e0: usize = q + 8;
    let exp_parsed = parse_number(cs, e0);
    let (exp, e1): (u64, usize) = match exp_parsed {
        Option::Some(p) => p,
        Option::None => {
            return Option::None;
        },
    };
    if !match_lit(cs, e1, ",\"iat\":") {
        return Option::None;
    }
    proof {
        reveal_strlit(",\"iat\":");
    }
    let i0: usize = e1 + 7;
    let iat_parsed = parse_number(cs, i0);
    let (iat, i1): (u64, usize) = match iat_parsed {
        Option::Some(p) => p,
        Option::None => {
            return Option::None;
        },
    };
    if !match_lit(cs, i1, ",\"token_type\":\"") {
        return Option::None;
    }
    proof {
        reveal_strlit(",\"token_type\":\"");
        reveal_strlit("Access\"}");
        reveal_strlit("Refresh\"}");
    }
    let k0: usize = i1 + 15;
    if match_lit(cs, k0, "Access\"}") && n - k0 == 8 {
        let sub = chars_to_string(&sub_chars);
        Option::Some(Claims { sub, exp, iat, token_type: TokenType::Access })
    } else if match_lit(cs, k0, "Refresh\"}") && n - k0 == 9 {
        let sub = chars_to_string(&sub_chars);
        Option::Some(Claims { sub, exp, iat, token_type: TokenType::Refresh })
    } else {
        Option::None
    }
}

/// A quote scan that finds nothing runs to the end.
proof fn lemma_scan_quote_none(cs: Seq<char>, i: int)
    requires
        0 <= i <= cs.len(),
        forall|k: int| i <= k < cs.len() ==> cs[k] != '"',
    ensures
        scan_to_quote(cs, i) == cs.len(),
    decreases cs.len() - i,
{
    if i < cs.len() {
        lemma_scan_quote_none(cs, i + 1);
    }
}

impl Claims {
    /// Builds the claims for `user_id` at time `now`: issued now, expiring
    /// `expires_in_minutes` minutes later, clamped to the representable
    /// range.
    pub fn new_at(user_id: &UserId, token_type: TokenType, expires_in_minutes: i64, now: u64) -> (r:
        Claims)
        ensures
            r@.sub == uuid_str_of(*user_id),
            r@.iat == now,
            r@.exp == spec_exp_at(now, expires_in_minutes),
            r.token_type == token_type,
            claims_wf(r@),
    {
        let delta: i128 = (expires_in_minutes as i128) * 60;
        let wide: i128 = (now as i128) + delta;
        let exp: u64 = if wide < 0 {
            0
        } else if wide > (u64::MAX as i128) {
            u64::MAX
        } else {
            wide as u64
        };
        let sub = user_id.to_string();
        proof {
            lemma_uuid_sub_wf(*user_id);
        }
        Claims { sub, exp, iat: now, token_type }
    }

    /// Builds the claims for `user_id` dated by the system clock:
    /// issued now, expiring `expires_in_minutes` minutes later.
    pub fn new(user_id: &UserId, token_type: TokenType, expires_in_minutes: i64) -> (r: Claims)
        ensures
            r@.sub == uuid_str_of(*user_id),
            r@.exp == spec_exp_at(r@.iat, expires_in_minutes),
            r.token_type == token_type,
            claims_wf(r@),
    {
        let t: i64 = crate::helpers::DateUtils::now();
        let now: u64 = if t < 0 {
            0
        } else {
            t as u64
        };
        Claims::new_at(user_id, token_type, expires_in_minutes, now)
    }

    /// The subject identifier carried by these claims, parsed back from
    /// its rendering; fails on a malformed subject.
    pub fn user_id(&self) -> (r: Result<UserId, TokenError>)
        ensures
            match r {
                Result::Ok(id) => spec_parse_uuid(self.sub@) == Option::Some(id),
                Result::Err(e) => spec_parse_uuid(self.sub@) is None && e
                    == TokenError::InvalidToken,
            },
    {
        match UserId::parse(self.sub.as_str()) {
            Option::Some(id) => Result::Ok(id),
            Option::None => Result::Err(TokenError::InvalidToken),
        }
    }
}

/// The expiry timestamp for an issue time and a lifetime in minutes,
/// clamped into the unsigned 64-bit range.
pub open spec fn spec_exp_at(now: u64, expires_in_minutes: i64) -> u64 {
    let wide = now + expires_in_minutes * 60;
    if wide < 0 {
        0u64
    } else if wide > u64::MAX {
        u64::MAX
    } else {
        wide as u64
    }
}

/// The canonical subject rendering satisfies the subject invariant.
pub proof fn lemma_uuid_sub_wf(id: UserId)
    ensures
        sub_wf(uuid_str_of(id)),
{
    let s = uuid_str_of(id);
    assert forall|k: int| 0 <= k < s.len() implies ' ' <= #[trigger] s[k] && s[k] <= '~' && s[k]
        != '"' by {
        if !crate::ids::uuid_hyphen_pos(k) {
            let j = crate::ids::uuid_digit_index(k);
            if j < 16 {
                crate::ids::lemma_nib_bound(id.hi, j);
            } else {
                crate::ids::lemma_nib_bound(id.lo, j - 16);
            }
        }
    }
}

} // verus!
