//! The token service: issues and verifies signed, time-bounded session
//! tokens carrying a subject identity.
//!
//! A token is three base64url parts joined by dots: a fixed header, the
//! claims payload, and an HMAC-SHA256 tag over the first two parts. The
//! framing and the payload codec are verified; only the HMAC itself is
//! performed by the `jsonwebtoken` crate behind trusted wrappers. Expiry
//! is checked here, strictly: a token is valid through its stated expiry
//! second and invalid after it.

use vstd::prelude::*;

use vstd::string::StrSliceExecFns;
use vstd::string::StringSliceAdditionalSpecFns;

use crate::b64::{
    b64_decode, b64_encode, b64_of, b64_parse, is_b64_char, lemma_b64_of_alphabet,
    lemma_b64_roundtrip,
};
use crate::claims::{
    Claims, ClaimsView, TokenType, claims_json_of, claims_parse, claims_parse_chars, claims_wf,
    kind_str, lemma_claims_roundtrip, lemma_dec_roundtrip, spec_exp_at, u64_to_dec,
};
use crate::errors::TokenError;
use crate::helpers::DateUtils;
use crate::ids::{UserId, uuid_str_of};
use crate::text::{ascii_bytes, bytes_to_chars, chars_to_ascii_bytes, chars_to_string, str_chars};

verus! {

/// Lifetime of an access token, in minutes.
pub const ACCESS_TOKEN_MINUTES: i64 = 15;

/// Lifetime of a refresh token, in minutes: seven days.
pub const REFRESH_TOKEN_MINUTES: i64 = 10080;

/// The fixed token header.
pub open spec fn header_str() -> Seq<char> {
    "{\"alg\":\"HS256\",\"typ\":\"JWT\"}"@
}

/// The HMAC-SHA256 tag of a message under a key; a fixed function of the
/// two, computed by the crypto backend.
pub uninterp spec fn hmac_bytes_of(msg: Seq<u8>, key: Seq<u8>) -> Seq<u8>;

/// The signing input of a token: encoded header, dot, encoded payload.
pub open spec fn message_of(cv: ClaimsView) -> Seq<char> {
    b64_of(ascii_bytes(header_str())) + seq!['.'] + b64_of(ascii_bytes(claims_json_of(cv)))
}

/// The complete token for a set of claims under a key.
pub open spec fn token_of(cv: ClaimsView, key: Seq<u8>) -> Seq<char> {
    message_of(cv) + seq!['.'] + b64_of(hmac_bytes_of(ascii_bytes(message_of(cv)), key))
}

/// The position of the last dot in `t`, or `-1` when there is none.
pub open spec fn last_dot(t: Seq<char>) -> int
    decreases t.len(),
{
    if t.len() == 0 {
        -1
    } else if t.last() == '.' {
        t.len() - 1
    } else {
        last_dot(t.drop_last())
    }
}

/// The claims a token denotes under a key: the signature must be the
/// canonical tag of everything before the last dot, the header must be
/// the fixed one, and the payload must parse strictly. Expiry is not
/// consulted here.
pub open spec fn spec_verify_token(t: Seq<char>, key: Seq<u8>) -> Option<ClaimsView> {
    let p = last_dot(t);
    let hb = b64_of(ascii_bytes(header_str()));
    if !vstd::utf8::is_ascii_chars(t) {
        Option::None
    } else if p < 0 {
        Option::None
    } else {
        let msg = t.take(p);
        let sig = t.skip(p + 1);
        if sig != b64_of(hmac_bytes_of(ascii_bytes(msg), key)) {
            Option::None
        } else if !(msg.len() > hb.len() && msg.take(hb.len() as int) == hb && msg[hb.len() as int]
            == '.') {
            Option::None
        } else {
            match b64_parse(msg.skip(hb.len() + 1 as int)) {
                Option::Some(bytes) => claims_parse(bytes.map_values(|b: u8| b as char)),
                Option::None => Option::None,
            }
        }
    }
}

/// The claims issued for a subject at a moment, for one token kind.
pub open spec fn claims_view_at(id: UserId, refresh: bool, minutes: i64, now: u64) -> ClaimsView {
    ClaimsView { sub: uuid_str_of(id), exp: spec_exp_at(now, minutes), iat: now, refresh }
}

/// Signs a message with HMAC-SHA256 and renders the tag in unpadded
/// base64url.
///
/// Relies on `jsonwebtoken::crypto::sign` with `Algorithm::HS256` and a
/// key from `EncodingKey::from_secret`: the result is the unpadded
/// base64url rendering of the HMAC-SHA256 tag of the message under the
/// secret, a function of the two alone; with an HMAC key of this family
/// the signing path is infallible.
#[verifier::external_body]
fn hmac_sign(message: &Vec<u8>, secret: &Vec<u8>) -> (r: String)
    ensures
        r@ == b64_of(hmac_bytes_of(message@, secret@)),
{
    let key = jsonwebtoken::EncodingKey::from_secret(secret);
    match jsonwebtoken::crypto::sign(message, &key, jsonwebtoken::Algorithm::HS256) {
        Ok(s) => s,
        Err(_) => String::new(),
    }
}

/// Checks a rendered signature against a message.
///
/// Relies on `jsonwebtoken::crypto::verify` with `Algorithm::HS256` and a
/// key from `DecodingKey::from_secret`: it base64url-decodes the
/// signature strictly (no padding, canonical trailing bits) and compares
/// the bytes with the recomputed HMAC-SHA256 tag, so the outcome is true
/// exactly when the signature is the canonical rendering of that tag; a
/// signature that is not valid base64url makes the call fail, and then
/// it is not that rendering either.
#[verifier::external_body]
fn hmac_verify(signature: &str, message: &Vec<u8>, secret: &Vec<u8>) -> (r: bool)
    ensures
        r == (signature@ == b64_of(hmac_bytes_of(message@, secret@))),
{
    let key = jsonwebtoken::DecodingKey::from_secret(secret);
    match jsonwebtoken::crypto::verify(signature, message, &key, jsonwebtoken::Algorithm::HS256) {
        Ok(b) => b,
        Err(_) => false,
    }
}

/// The current time as an unsigned timestamp, clamping the epoch's
/// prehistory to zero.
pub fn now_unix() -> u64 {
    let t: i64 = DateUtils::now();
    if t < 0 {
        0
    } else {
        t as u64
    }
}

/// Renders the JSON payload of a set of claims.
fn claims_json_chars(c: &Claims) -> (r: Vec<char>)
    ensures
        r@ == claims_json_of(c@),
{
    let mut out = str_chars("{\"sub\":\"");
    let mut part = str_chars(c.sub.as_str());
    out.append(&mut part);
    let mut part = str_chars("\",\"exp\":");
    out.append(&mut part);
    let mut part = u64_to_dec(c.exp);
    out.append(&mut part);
    let mut part = str_chars(",\"iat\":");
    out.append(&mut part);
    let mut part = u64_to_dec(c.iat);
    out.append(&mut part);
    let mut part = str_chars(",\"token_type\":\"");
    out.append(&mut part);
    let mut part = match c.token_type {
        TokenType::Access => str_chars("Access"),
        TokenType::Refresh => str_chars("Refresh"),
    };
    out.append(&mut part);
    let mut part = str_chars("\"}");
    out.append(&mut part);
    proof {
        assert(out@ =~= claims_json_of(c@));
    }
    out
}

/// The encoded fixed header.
fn header_b64_chars() -> (r: Vec<char>)
    ensures
        r@ == b64_of(ascii_bytes(header_str())),
{
    let h = str_chars("{\"alg\":\"HS256\",\"typ\":\"JWT\"}");
    let hb = chars_to_ascii_bytes(&h);
    b64_encode(&hb)
}

/// Issues and verifies the session tokens of this process, under one
/// symmetric secret fixed at construction.
pub struct JwtManager {
    secret: Vec<u8>,
}

impl JwtManager {
    /// The signing key.
    pub closed spec fn key(&self) -> Seq<u8> {
        self.secret@
    }

    /// Builds a token service around a secret.
    pub fn new(secret: &str) -> (r: Self)
        ensures
            r.key() == secret.spec_bytes(),
    {
        JwtManager { secret: secret.as_bytes_vec() }
    }

    /// Renders and signs a set of claims.
    pub fn encode_token(&self, claims: &Claims) -> (r: String)
        requires
            claims_wf(claims@),
        ensures
            r@ == token_of(claims@, self.key()),
    {
        let json = claims_json_chars(claims);
        let json_bytes = chars_to_ascii_bytes(&json);
        let mut payload64 = b64_encode(&json_bytes);
        let mut msg = header_b64_chars();
        msg.push('.');
        msg.append(&mut payload64);
        proof {
            assert(msg@ =~= message_of(claims@));
        }
        let msg_bytes = chars_to_ascii_bytes(&msg);
        let sig = hmac_sign(&msg_bytes, &self.secret);
        let mut sig_chars = str_chars(sig.as_str());
        let mut tok = msg;
        tok.push('.');
        tok.append(&mut sig_chars);
        proof {
            assert(tok@ =~= token_of(claims@, self.key()));
        }
        chars_to_string(&tok)
    }

    /// Issues an access token for a subject as of `now`.
    pub fn generate_access_token_at(&self, user_id: UserId, now: u64) -> (r: String)
        ensures
            r@ == token_of(claims_view_at(user_id, false, ACCESS_TOKEN_MINUTES, now), self.key()),
    {
        let claims = Claims::new_at(&user_id, TokenType::Access, ACCESS_TOKEN_MINUTES, now);
        proof {
            assert(claims@ == claims_view_at(user_id, false, ACCESS_TOKEN_MINUTES, now));
        }
        self.encode_token(&claims)
    }

    /// Issues a refresh token for a subject as of `now`.
    pub fn generate_refresh_token_at(&self, user_id: UserId, now: u64) -> (r: String)
        ensures
            r@ == token_of(claims_view_at(user_id, true, REFRESH_TOKEN_MINUTES, now), self.key()),
    {
        let claims = Claims::new_at(&user_id, TokenType::Refresh, REFRESH_TOKEN_MINUTES, now);
        proof {
            assert(claims@ == claims_view_at(user_id, true, REFRESH_TOKEN_MINUTES, now));
        }
        self.encode_token(&claims)
    }

    /// Issues an access token for a subject, dated by the system clock.
    pub fn generate_access_token(&self, user_id: UserId) -> (r: Result<String, TokenError>)
        ensures
            r is Ok,
            exists|now: u64|
                r->Ok_0@ == token_of(
                    #[trigger] claims_view_at(user_id, false, ACCESS_TOKEN_MINUTES, now),
                    self.key(),
                ),
    {
        let now = now_unix();
        let tok = self.generate_access_token_at(user_id, now);
        Result::Ok(tok)
    }

    /// Issues a refresh token for a subject, dated by the system clock.
    pub fn generate_refresh_token(&self, user_id: UserId) -> (r: Result<String, TokenError>)
        ensures
            r is Ok,
            exists|now: u64|
                r->Ok_0@ == token_of(
                    #[trigger] claims_view_at(user_id, true, REFRESH_TOKEN_MINUTES, now),
                    self.key(),
                ),
    {
        let now = now_unix();
        let tok = self.generate_refresh_token_at(user_id, now);
        Result::Ok(tok)
    }

    /// Decodes and checks a token as of `now`: signature, framing,
    /// payload shape, and strict expiry; the cause of a failure is never
    /// distinguished.
    pub fn verify_token_at(&self, token: &str, now: u64) -> (r: Result<Claims, TokenError>)
        ensures
            match r {
                Result::Ok(c) => spec_verify_token(token@, self.key()) == Option::Some(c@) && now
                    <= c@.exp,
                Result::Err(e) => e == TokenError::InvalidToken && match spec_verify_token(
                    token@,
                    self.key(),
                ) {
                    Option::Some(cv) => now > cv.exp,
                    Option::None => true,
                },
            },
    {
        let ghost key = self.key();
        let ghost t = token@;
        if !token.is_ascii() {
            return Result::Err(TokenError::InvalidToken);
        }
        let chars = str_chars(token);
        let n: usize = chars.len();
        // Locate the last dot, which separates the signature.
        let mut p: usize = n;
        let mut j: usize = 0;
        while j < n
            invariant
                chars@ == t,
                n == t.len(),
                j <= n,
                p == n || (p < j && t[p as int] == '.'),
                forall|k: int| 0 <= k < j && k > p ==> t[k] != '.',
                p == n ==> forall|k: int| 0 <= k < j ==> t[k] != '.',
            decreases n - j,
        {
            if chars[j] == '.' {
                p = j;
            }
            j = j + 1;
        }
        if p == n {
            proof {
                lemma_last_dot_none(t);
            }
            return Result::Err(TokenError::InvalidToken);
        }
        proof {
            lemma_last_dot_hits(t, p as int);
        }
        // Check the signature over everything before the last dot.
        let mut msg_chars: Vec<char> = Vec::new();
        let mut mi: usize = 0;
        while mi < p
            invariant
                chars@ == t,
                n == t.len(),
                p < n,
                mi <= p,
                msg_chars@ == t.subrange(0, mi as int),
            decreases p - mi,
        {
            msg_chars.push(chars[mi]);
            proof {
                assert(t.subrange(0, mi + 1) =~= t.subrange(0, mi as int).push(t[mi as int]));
            }
            mi = mi + 1;
        }
        proof {
            assert(msg_chars@ =~= t.take(p as int));
        }
        let msg_bytes = chars_to_ascii_bytes(&msg_chars);
        let sig: &str = token.substring_ascii(p + 1, n);
        proof {
            assert(sig@ =~= t.skip(p + 1));
        }
        if !hmac_verify(sig, &msg_bytes, &self.secret) {
            return Result::Err(TokenError::InvalidToken);
        }
        // Check the fixed header part.
        let header64 = header_b64_chars();
        let hlen: usize = header64.len();
        if p <= hlen {
            return Result::Err(TokenError::InvalidToken);
        }
        if chars[hlen] != '.' {
            proof {
                assert(t.take(p as int)[hlen as int] == t[hlen as int]);
            }
            return Result::Err(TokenError::InvalidToken);
        }
        let mut hi: usize = 0;
        let mut header_ok: bool = true;
        while hi < hlen
            invariant
                chars@ == t,
                n == t.len(),
                hlen < p < n,
                hi <= hlen,
                hlen == header64@.len(),
                header64@ == b64_of(ascii_bytes(header_str())),
                header_ok == forall|k: int| 0 <= k < hi ==> t[k] == header64@[k],
            decreases hlen - hi,
        {
            if chars[hi] != header64[hi] {
                header_ok = false;
            }
            hi = hi + 1;
        }
        if !header_ok {
            proof {
                let msg = t.take(p as int);
                let hb = b64_of(ascii_bytes(header_str()));
                assert forall|k: int| 0 <= k < hlen && t[k] != header64@[k] implies msg.take(
                    hlen as int,
                ) != hb by {
                    assert(msg.take(hlen as int)[k] == t[k]);
                }
            }
            return Result::Err(TokenError::InvalidToken);
        }
        proof {
            let msg = t.take(p as int);
            let hb = b64_of(ascii_bytes(header_str()));
            assert(msg.take(hlen as int) =~= hb);
        }
        // Decode and parse the payload.
        let mut payload_chars: Vec<char> = Vec::new();
        let mut pi: usize = hlen + 1;
        while pi < p
            invariant
                chars@ == t,
                n == t.len(),
                hlen + 1 <= pi <= p < n,
                payload_chars@ == t.subrange(hlen + 1, pi as int),
            decreases p - pi,
        {
            payload_chars.push(chars[pi]);
            proof {
                assert(t.subrange(hlen + 1, pi + 1) =~= t.subrange(hlen + 1, pi as int).push(
                    t[pi as int],
                ));
            }
            pi = pi + 1;
        }
        proof {
            assert(payload_chars@ =~= t.take(p as int).skip(hlen + 1));
        }
        let payload_bytes = match b64_decode(&payload_chars) {
            Option::Some(b) => b,
            Option::None => {
                return Result::Err(TokenError::InvalidToken);
            },
        };
        let payload = bytes_to_chars(&payload_bytes);
        let claims = match claims_parse_chars(&payload) {
            Option::Some(c) => c,
            Option::None => {
                return Result::Err(TokenError::InvalidToken);
            },
        };
        if now > claims.exp {
            return Result::Err(TokenError::InvalidToken);
        }
        Result::Ok(claims)
    }

    /// Decodes and checks a token against the system clock.
    pub fn verify_token(&self, token: &str) -> (r: Result<Claims, TokenError>)
        ensures
            match r {
                Result::Ok(c) => spec_verify_token(token@, self.key()) == Option::Some(c@),
                Result::Err(e) => e == TokenError::InvalidToken,
            },
    {
        let now = now_unix();
        self.verify_token_at(token, now)
    }

    /// Checks a token as of `now` and requires it to be an access token.
    pub fn verify_access_token_at(&self, token: &str, now: u64) -> (r: Result<Claims, TokenError>)
        ensures
            match r {
                Result::Ok(c) => spec_verify_token(token@, self.key()) == Option::Some(c@) && now
                    <= c@.exp && !c@.refresh,
                Result::Err(e) => e == TokenError::InvalidToken && match spec_verify_token(
                    token@,
                    self.key(),
                ) {
                    Option::Some(cv) => now > cv.exp || cv.refresh,
                    Option::None => true,
                },
            },
    {
        match self.verify_token_at(token, now) {
            Result::Ok(c) => {
                if matches!(c.token_type, TokenType::Access) {
                    Result::Ok(c)
                } else {
                    Result::Err(TokenError::InvalidToken)
                }
            },
            Result::Err(e) => Result::Err(e),
        }
    }

    /// Checks a token as of `now` and requires it to be a refresh token.
    pub fn verify_refresh_token_at(&self, token: &str, now: u64) -> (r: Result<Claims, TokenError>)
        ensures
            match r {
                Result::Ok(c) => spec_verify_token(token@, self.key()) == Option::Some(c@) && now
                    <= c@.exp && c@.refresh,
                Result::Err(e) => e == TokenError::InvalidToken && match spec_verify_token(
                    token@,
                    self.key(),
                ) {
                    Option::Some(cv) => now > cv.exp || !cv.refresh,
                    Option::None => true,
                },
            },
    {
        match self.verify_token_at(token, now) {
            Result::Ok(c) => {
                if matches!(c.token_type, TokenType::Refresh) {
                    Result::Ok(c)
                } else {
                    Result::Err(TokenError::InvalidToken)
                }
            },
            Result::Err(e) => Result::Err(e),
        }
    }

    /// Checks an access token against the system clock.
    pub fn verify_access_token(&self, token: &str) -> (r: Result<Claims, TokenError>)
        ensures
            match r {
                Result::Ok(c) => spec_verify_token(token@, self.key()) == Option::Some(c@)
                    && !c@.refresh,
                Result::Err(e) => e == TokenError::InvalidToken,
            },
    {
        let now = now_unix();
        self.verify_access_token_at(token, now)
    }

    /// Checks a refresh token against the system clock.
    pub fn verify_refresh_token(&self, token: &str) -> (r: Result<Claims, TokenError>)
        ensures
            match r {
                Result::Ok(c) => spec_verify_token(token@, self.key()) == Option::Some(c@)
                    && c@.refresh,
                Result::Err(e) => e == TokenError::InvalidToken,
            },
    {
        let now = now_unix();
        self.verify_refresh_token_at(token, now)
    }
}

/// A scan that saw no dot means there is none.
proof fn lemma_last_dot_none(t: Seq<char>)
    requires
        forall|k: int| 0 <= k < t.len() ==> t[k] != '.',
    ensures
        last_dot(t) == -1,
    decreases t.len(),
{
    if t.len() > 0 {
        lemma_last_dot_none(t.drop_last());
    }
}

/// A dot with none after it is the last dot.
proof fn lemma_last_dot_hits(t: Seq<char>, p: int)
    requires
        0 <= p < t.len(),
        t[p] == '.',
        forall|k: int| p < k < t.len() ==> t[k] != '.',
    ensures
        last_dot(t) == p,
    decreases t.len(),
{
    if p == t.len() - 1 {
    } else {
        lemma_last_dot_hits(t.drop_last(), p);
    }
}

/// Verifying a token issued for well-formed claims under the same key
/// yields those claims back: the round trip at the heart of the token
/// service.
pub proof fn lemma_token_roundtrip(cv: ClaimsView, key: Seq<u8>)
    requires
        claims_wf(cv),
    ensures
        spec_verify_token(token_of(cv, key), key) == Option::Some(cv),
{
    let hb = b64_of(ascii_bytes(header_str()));
    let pb = b64_of(ascii_bytes(claims_json_of(cv)));
    let msg = message_of(cv);
    let tag = hmac_bytes_of(ascii_bytes(msg), key);
    let sig = b64_of(tag);
    let t = token_of(cv, key);
    lemma_b64_of_alphabet(ascii_bytes(header_str()));
    lemma_b64_of_alphabet(ascii_bytes(claims_json_of(cv)));
    lemma_b64_of_alphabet(tag);
    // Every character is ASCII: the three parts are alphabet characters
    // and the separators are dots.
    assert forall|k: int| 0 <= k < t.len() implies '\0' <= #[trigger] t[k] && t[k] <= '\u{7f}' by {
        if k < hb.len() {
            assert(t[k] == hb[k]);
            assert(is_b64_char(hb[k]));
        } else if k == hb.len() {
            assert(t[k] == '.');
        } else if k < msg.len() {
            assert(t[k] == pb[k - hb.len() - 1]);
            assert(is_b64_char(pb[k - hb.len() - 1]));
        } else if k == msg.len() {
            assert(t[k] == '.');
        } else {
            assert(t[k] == sig[k - msg.len() - 1]);
            assert(is_b64_char(sig[k - msg.len() - 1]));
        }
    }
    assert(vstd::utf8::is_ascii_chars(t));
    // The last dot sits right before the signature.
    assert forall|k: int| msg.len() + 1 <= k < t.len() implies t[k] != '.' by {
        assert(t[k] == sig[k - msg.len() - 1]);
    }
    assert(t[msg.len() as int] == '.');
    lemma_last_dot_hits(t, msg.len() as int);
    assert(t.take(msg.len() as int) =~= msg);
    assert(t.skip(msg.len() + 1 as int) =~= sig);
    // The header part and the payload part are recovered exactly.
    assert(msg.take(hb.len() as int) =~= hb);
    assert(msg[hb.len() as int] == '.');
    assert(msg.skip(hb.len() + 1 as int) =~= pb);
    lemma_b64_roundtrip(ascii_bytes(claims_json_of(cv)));
    // The payload bytes decode to the printed JSON, which parses back.
    lemma_json_ascii(cv);
    crate::text::lemma_ascii_roundtrip(claims_json_of(cv));
    lemma_claims_roundtrip(cv);
}

/// A token issued for a subject resolves back to that subject: verifying
/// it under the same key yields exactly the claims it was issued with,
/// and their subject parses to the identifier it was issued for.
pub proof fn lemma_issued_token_subject(
    id: UserId,
    refresh: bool,
    minutes: i64,
    now: u64,
    key: Seq<u8>,
)
    ensures
        spec_verify_token(token_of(claims_view_at(id, refresh, minutes, now), key), key)
            == Option::Some(claims_view_at(id, refresh, minutes, now)),
        crate::ids::spec_parse_uuid(claims_view_at(id, refresh, minutes, now).sub)
            == Option::Some(id),
{
    crate::claims::lemma_uuid_sub_wf(id);
    lemma_token_roundtrip(claims_view_at(id, refresh, minutes, now), key);
    crate::ids::lemma_uuid_roundtrip(id);
}

/// A located last dot is a dot.
proof fn lemma_last_dot_char(t: Seq<char>)
    requires
        last_dot(t) >= 0,
    ensures
        last_dot(t) < t.len(),
        t[last_dot(t)] == '.',
    decreases t.len(),
{
    if t.len() > 0 && t.last() != '.' {
        lemma_last_dot_char(t.drop_last());
    }
}

/// Verification accepts only canonical tokens: a token that verifies to
/// some claims is, character for character, the token issued for those
/// claims under the same key.
pub proof fn lemma_verify_token_sound(t: Seq<char>, cv: ClaimsView, key: Seq<u8>)
    requires
        spec_verify_token(t, key) == Option::Some(cv),
    ensures
        t == token_of(cv, key),
{
    let p = last_dot(t);
    let hb = b64_of(ascii_bytes(header_str()));
    let msg = t.take(p);
    let sig = t.skip(p + 1);
    let payload = msg.skip(hb.len() + 1 as int);
    let bytes = b64_parse(payload)->0;
    let json = claims_json_of(cv);
    // The pipeline conditions hold because the result is `Some`.
    assert(p >= 0);
    assert(sig == b64_of(hmac_bytes_of(ascii_bytes(msg), key)));
    assert(msg.len() > hb.len() && msg.take(hb.len() as int) == hb && msg[hb.len() as int] == '.');
    assert(b64_parse(payload) is Some);
    assert(claims_parse(bytes.map_values(|b: u8| b as char)) == Option::Some(cv));
    // The payload is the canonical encoding of the printed claims.
    crate::b64::lemma_b64_parse_sound(payload, bytes);
    crate::claims::lemma_claims_parse_sound(bytes.map_values(|b: u8| b as char), cv);
    assert(bytes.map_values(|b: u8| b as char) == json);
    assert forall|k: int| 0 <= k < json.len() implies ascii_bytes(json)[k] == bytes[k] by {
        assert(json[k] == bytes[k] as char);
    }
    assert(ascii_bytes(json) =~= bytes);
    // The message is the canonical signing input.
    assert forall|k: int| 0 <= k < msg.len() implies msg[k] == (hb + seq!['.'] + b64_of(
        ascii_bytes(json),
    ))[k] by {
        if k < hb.len() {
            assert(msg.take(hb.len() as int)[k] == msg[k]);
        } else if k > hb.len() {
            assert(payload[k - hb.len() - 1] == msg[k]);
        }
    }
    assert(msg =~= message_of(cv));
    // The whole token is the canonical framing.
    lemma_last_dot_char(t);
    assert forall|k: int| 0 <= k < t.len() implies t[k] == token_of(cv, key)[k] by {
        if k < p {
            assert(msg[k] == t[k]);
        } else if k > p {
            assert(sig[k - p - 1] == t[k]);
        }
    }
    assert(t =~= token_of(cv, key));
}

/// The printed payload of well-formed claims is ASCII text.
proof fn lemma_json_ascii(cv: ClaimsView)
    requires
        claims_wf(cv),
    ensures
        vstd::utf8::is_ascii_chars(claims_json_of(cv)),
{
    reveal_strlit("{\"sub\":\"");
    reveal_strlit("\",\"exp\":");
    reveal_strlit(",\"iat\":");
    reveal_strlit(",\"token_type\":\"");
    reveal_strlit("Access");
    reveal_strlit("Refresh");
    reveal_strlit("\"}");
    let cs = claims_json_of(cv);
    let l1 = "{\"sub\":\""@;
    let l2 = "\",\"exp\":"@;
    let l3 = ",\"iat\":"@;
    let l4 = ",\"token_type\":\""@;
    let lk = kind_str(cv.refresh);
    let le = "\"}"@;
    let ed = crate::claims::dec_str_of(cv.exp);
    let id = crate::claims::dec_str_of(cv.iat);
    lemma_dec_roundtrip(cv.exp);
    lemma_dec_roundtrip(cv.iat);
    let q = 8 + cv.sub.len() as int;
    let e0 = q + 8;
    let e1 = e0 + ed.len() as int;
    let i0 = e1 + 7;
    let i1 = i0 + id.len() as int;
    let k0 = i1 + 15;
    assert forall|k: int| 0 <= k < cs.len() implies '\0' <= #[trigger] cs[k] && cs[k] <= '\u{7f}' by {
        if k < 8 {
            assert(cs[k] == l1[k]);
        } else if k < q {
            assert(cs[k] == cv.sub[k - 8]);
        } else if k < e0 {
            assert(cs[k] == l2[k - q]);
        } else if k < e1 {
            assert(cs[k] == ed[k - e0]);
            assert(crate::text::is_digit(ed[k - e0]));
        } else if k < i0 {
            assert(cs[k] == l3[k - e1]);
        } else if k < i1 {
            assert(cs[k] == id[k - i0]);
            assert(crate::text::is_digit(id[k - i0]));
        } else if k < k0 {
            assert(cs[k] == l4[k - i1]);
        } else if k < k0 + lk.len() {
            assert(cs[k] == lk[k - k0]);
        } else {
            assert(cs[k] == le[k - k0 - lk.len()]);
        }
    }
}

} // verus!
