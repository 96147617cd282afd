//! Input validation: password strength, email and username formats,
//! and text sanitization.
//!
//! Everything here is pure logic over the character view of the input;
//! the contracts characterize the accepted inputs exactly.

use vstd::prelude::*;

use argon2::PasswordHasher;
use argon2::PasswordVerifier;

use crate::text::{
    is_alnum, is_alpha, is_graphic, is_space, lower_seq, trim_seq, lower_chars, space_char,
    str_chars, trim_chars, chars_to_string,
};

verus! {

/// The special characters a password must draw from.
pub open spec fn is_special(c: char) -> bool {
    c == '!' || c == '@' || c == '#' || c == '$' || c == '%' || c == '^' || c == '&' || c == '*'
        || c == '(' || c == ')' || c == '_' || c == '+' || c == '-' || c == '=' || c == '['
        || c == ']' || c == '{' || c == '}' || c == '|' || c == ';' || c == ':' || c == ','
        || c == '.' || c == '<' || c == '>' || c == '?'
}

/// Exec test for [`is_special`].
fn special_char(c: char) -> (r: bool)
    ensures
        r == is_special(c),
{
    c == '!' || c == '@' || c == '#' || c == '$' || c == '%' || c == '^' || c == '&' || c == '*'
        || c == '(' || c == ')' || c == '_' || c == '+' || c == '-' || c == '=' || c == '['
        || c == ']' || c == '{' || c == '}' || c == '|' || c == ';' || c == ':' || c == ','
        || c == '.' || c == '<' || c == '>' || c == '?'
}

/// Whether `s` contains an ASCII lowercase letter.
pub open spec fn has_lower(s: Seq<char>) -> bool {
    exists|k: int| 0 <= k < s.len() && crate::text::is_lower(s[k])
}

/// Whether `s` contains an ASCII uppercase letter.
pub open spec fn has_upper(s: Seq<char>) -> bool {
    exists|k: int| 0 <= k < s.len() && crate::text::is_upper(s[k])
}

/// Whether `s` contains an ASCII digit.
pub open spec fn has_digit(s: Seq<char>) -> bool {
    exists|k: int| 0 <= k < s.len() && crate::text::is_digit(s[k])
}

/// Whether `s` contains one of the accepted special characters.
pub open spec fn has_special(s: Seq<char>) -> bool {
    exists|k: int| 0 <= k < s.len() && is_special(s[k])
}

/// A password is strong when it is 8 to 128 characters long and mixes
/// lowercase, uppercase, digits and special characters.
pub open spec fn password_ok(s: Seq<char>) -> bool {
     8 <= s.len() <= 128 && has_lower(s) && has_upper(s) && has_digit(s) && has_special(s)
}

/// The list of violation messages for `s`, in the order they are reported.
pub open spec fn password_violations(s: Seq<char>) -> Seq<Seq<char>> {
    (if s.len() < 8 {
        seq!["Password must be at least 8 characters long"@]
    } else {
        Seq::<Seq<char>>::empty()
    }) + (if s.len() > 128 {
        seq!["Password must be no more than 128 characters long"@]
    } else {
        Seq::<Seq<char>>::empty()
    }) + (if !has_lower(s) {
        seq!["Password must contain at least one lowercase letter"@]
    } else {
        Seq::<Seq<char>>::empty()
    }) + (if !has_upper(s) {
        seq!["Password must contain at least one uppercase letter"@]
    } else {
        Seq::<Seq<char>>::empty()
    }) + (if !has_digit(s) {
        seq!["Password must contain at least one digit"@]
    } else {
        Seq::<Seq<char>>::empty()
    }) + (if !has_special(s) {
        seq!["Password must contain at least one special character"@]
    } else {
        Seq::<Seq<char>>::empty()
    })
}

/// Whether the Argon2 comparison accepts `password` against `digest`:
/// parse the PHC-encoded digest, recompute with the salt and parameters
/// it embeds, and compare. A fixed function of the two strings; it can
/// only hold of a digest that parses, so it implies [`phc_wf`].
pub uninterp spec fn password_matches(password: Seq<char>, digest: Seq<char>) -> bool;

/// Whether a digest string parses as a PHC-format hash: the outcome of
/// `password_hash::PasswordHash::new`, a fixed function of the string.
pub uninterp spec fn phc_wf(digest: Seq<char>) -> bool;

/// Password hashing and strength checking.
pub struct PasswordUtils;

impl PasswordUtils {
    /// Derives a salted Argon2 digest for a password, with a fresh random
    /// salt on every call.
    ///
    /// Relies on argon2's `PasswordHasher::hash_password` with an
    /// `OsRng`-generated salt. Under the length bound (argon2's maximum
    /// password length is four gibibytes; the bound below leaves room
    /// for four bytes per character) the generated salt is valid and
    /// every checked path in the hashing code succeeds, so the call
    /// cannot fail on password content; an allocation failure would
    /// abort, not return. The digest is a self-describing PHC string
    /// that parses back, and it verifies against the password it was
    /// derived from. The salt is random, so nothing else is assumed of
    /// the digest's content.
    #[verifier::external_body]
    pub fn hash_password(password: &str) -> (r: Result<String, String>)
        requires
            password@.len() <= 0x3FFF_FFFF,
        ensures
            r is Ok,
            password_matches(password@, r->Ok_0@),
            phc_wf(r->Ok_0@),
            r->Ok_0@.len() > 0,
    {
        let salt = argon2::password_hash::SaltString::generate(
            &mut argon2::password_hash::rand_core::OsRng,
        );
        match argon2::Argon2::default().hash_password(password.as_bytes(), &salt) {
            Ok(h) => Ok(h.to_string()),
            Err(e) => Err(e.to_string()),
        }
    }

    /// Checks a password against a stored digest; a digest that cannot be
    /// parsed yields an error, anything else — a wrong password, or a
    /// digest of some other algorithm — yields `false`.
    ///
    /// Relies on argon2's `PasswordHash::new` and
    /// `PasswordVerifier::verify_password`: the call errs exactly when
    /// the digest is not a parseable PHC string, and otherwise the
    /// comparison recomputes the digest deterministically from the
    /// password and the salt and parameters embedded in the digest, so
    /// the outcome is a function of the two strings alone. An accepted
    /// comparison presupposes a parsed digest, so a matching pair always
    /// comes back `Ok(true)`.
    #[verifier::external_body]
    pub fn verify_password(password: &str, hash: &str) -> (r: Result<bool, String>)
        ensures
            r is Err <==> !phc_wf(hash@),
            r is Ok ==> r->Ok_0 == password_matches(password@, hash@),
            password_matches(password@, hash@) ==> r is Ok,
    {
        let parsed = match argon2::PasswordHash::new(hash) {
            Ok(p) => p,
            Err(e) => return Err(e.to_string()),
        };
        match argon2::Argon2::default().verify_password(password.as_bytes(), &parsed) {
            Ok(()) => Ok(true),
            Err(_) => Ok(false),
        }
    }
    /// Checks password strength, accumulating every violation instead of
    /// stopping at the first.
    pub fn validate_password_strength(password: &str) -> (r: Result<(), Vec<String>>)
        ensures
            r is Ok <==> password_ok(password@),
            r is Err ==> r->Err_0@.map_values(|m: String| m@) == password_violations(password@),
            r is Err ==> r->Err_0@.len() > 0,
    {
        let chars = str_chars(password);
        let ghost s = password@;
        let n: usize = chars.len();
        let mut found_lower: bool = false;
        let mut found_upper: bool = false;
        let mut found_digit: bool = false;
        let mut found_special: bool = false;
        let mut i: usize = 0;
        while i < n
            invariant
                n == s.len(),
                chars@ == s,
                i <= n,
                found_lower == exists|k: int| 0 <= k < i && crate::text::is_lower(s[k]),
                found_upper == exists|k: int| 0 <= k < i && crate::text::is_upper(s[k]),
                found_digit == exists|k: int| 0 <= k < i && crate::text::is_digit(s[k]),
                found_special == exists|k: int| 0 <= k < i && is_special(s[k]),
            decreases n - i,
        {
            let c = chars[i];
            if 'a' <= c && c <= 'z' {
                found_lower = true;
            }
            if 'A' <= c && c <= 'Z' {
                found_upper = true;
            }
            if '0' <= c && c <= '9' {
                found_digit = true;
            }
            if special_char(c) {
                found_special = true;
            }
            i = i + 1;
        }
        let mut errors: Vec<String> = Vec::new();
        if n < 8 {
            errors.push("Password must be at least 8 characters long".to_owned());
        }
        if n > 128 {
            errors.push("Password must be no more than 128 characters long".to_owned());
        }
        if !found_lower {
            errors.push("Password must contain at least one lowercase letter".to_owned());
        }
        if !found_upper {
            errors.push("Password must contain at least one uppercase letter".to_owned());
        }
        if !found_digit {
            errors.push("Password must contain at least one digit".to_owned());
        }
        if !found_special {
            errors.push("Password must contain at least one special character".to_owned());
        }
        proof {
            assert(errors@.map_values(|m: String| m@) =~= password_violations(s));
        }
        if errors.is_empty() {
            Ok(())
        } else {
            Err(errors)
        }
    }
}

/// A character the local part of an email may contain.
pub open spec fn is_local_char(c: char) -> bool {
    is_alnum(c) || c == '.' || c == '_' || c == '%' || c == '+' || c == '-'
}

/// A character the domain part of an email may contain before the final dot.
pub open spec fn is_domain_char(c: char) -> bool {
    is_alnum(c) || c == '.' || c == '-'
}

/// A particular split of `s` into `local @ domain . tld` is well-formed.
pub open spec fn email_split_ok(s: Seq<char>, a: int, d: int) -> bool {
    &&& 1 <= a
    &&& a + 1 < d
    &&& d + 2 < s.len()
    &&& s[a] == '@'
    &&& s[d] == '.'
    &&& forall|k: int| 0 <= k < a ==> is_local_char(s[k])
    &&& forall|k: int| a < k < d ==> is_domain_char(s[k])
    &&& forall|k: int| d < k < s.len() ==> is_alpha(s[k])
}

/// The email grammar: a nonempty local part, `@`, a nonempty domain part,
/// and a final all-letter label of at least two characters; at most 254
/// characters in all.
pub open spec fn valid_email(s: Seq<char>) -> bool {
    s.len() <= 254 && exists|a: int, d: int| email_split_ok(s, a, d)
}

/// Email validation and normalization.
pub struct EmailUtils;

impl EmailUtils {
    /// Checks an email address against the grammar above.
    pub fn is_valid_email(email: &str) -> (r: bool)
        ensures
            r == valid_email(email@),
    {
        let chars = str_chars(email);
        let ghost s = email@;
        let n: usize = chars.len();
        if n > 254 {
            return false;
        }
        // Find the first '@'.
        let mut a: usize = 0;
        while a < n && chars[a] != '@'
            invariant
                n == s.len(),
                chars@ == s,
                a <= n,
                forall|k: int| 0 <= k < a ==> s[k] != '@',
            decreases n - a,
        {
            a = a + 1;
        }
        if a == n {
            proof {
                assert forall|x: int, d: int| !email_split_ok(s, x, d) by {
                    if email_split_ok(s, x, d) {
                        assert(s[x] == '@');
                    }
                }
            }
            return false;
        }
        // Find the last '.' strictly after `a`.
        let mut d: usize = n;
        let mut j: usize = a + 1;
        while j < n
            invariant
                n == s.len(),
                chars@ == s,
                a < j <= n,
                d == n || (a < d < j && s[d as int] == '.'),
                forall|k: int| a < k < j && k != d ==> (k > d ==> s[k] != '.'),
                d == n ==> forall|k: int| a < k < j ==> s[k] != '.',
            decreases n - j,
        {
            if chars[j] == '.' {
                d = j;
            }
            j = j + 1;
        }
        if d == n {
            proof {
                assert forall|x: int, dd: int| !email_split_ok(s, x, dd) by {
                    if email_split_ok(s, x, dd) {
                        assert(forall|k: int| 0 <= k < x ==> s[k] != '@');
                        assert(x == a);
                        assert(s[dd] == '.');
                    }
                }
            }
            return false;
        }
        // Check the three regions.
        let tld_len: usize = n - d - 1;
        let bounds_ok: bool = a >= 1 && d > a + 1 && tld_len >= 2;
        let mut local_ok: bool = true;
        let mut i: usize = 0;
        while i < a
            invariant
                n == s.len(),
                chars@ == s,
                a < n,
                i <= a,
                local_ok == forall|k: int| 0 <= k < i ==> is_local_char(s[k]),
            decreases a - i,
        {
            let c = chars[i];
            if !(('a' <= c && c <= 'z') || ('A' <= c && c <= 'Z') || ('0' <= c && c <= '9') || c
                == '.' || c == '_' || c == '%' || c == '+' || c == '-') {
                local_ok = false;
            }
            i = i + 1;
        }
        let mut domain_ok: bool = true;
        let mut i2: usize = a + 1;
        while i2 < d
            invariant
                n == s.len(),
                chars@ == s,
                a < d < n,
                a + 1 <= i2 <= d,
                domain_ok == forall|k: int| a < k < i2 ==> is_domain_char(s[k]),
            decreases d - i2,
        {
            let c = chars[i2];
            if !(('a' <= c && c <= 'z') || ('A' <= c && c <= 'Z') || ('0' <= c && c <= '9') || c
                == '.' || c == '-') {
                domain_ok = false;
            }
            i2 = i2 + 1;
        }
        let mut tld_ok: bool = true;
        let mut i3: usize = d + 1;
        while i3 < n
            invariant
                n == s.len(),
                chars@ == s,
                d < n,
                d + 1 <= i3 <= n,
                tld_ok == forall|k: int| d < k < i3 ==> is_alpha(s[k]),
            decreases n - i3,
        {
            let c = chars[i3];
            if !(('a' <= c && c <= 'z') || ('A' <= c && c <= 'Z')) {
                tld_ok = false;
            }
            i3 = i3 + 1;
        }
        let ok = bounds_ok && local_ok && domain_ok && tld_ok;
        proof {
            if ok {
                assert(email_split_ok(s, a as int, d as int));
            } else {
                assert forall|x: int, dd: int| !email_split_ok(s, x, dd) by {
                    if email_split_ok(s, x, dd) {
                        // The first '@' pins x to a.
                        if x < a {
                            assert(s[x] == '@');
                            assert(false);
                        }
                        if x > a {
                            assert(is_local_char(s[a as int]));
                            assert(false);
                        }
                        assert(x == a);
                        // The last '.' after '@' pins dd to d.
                        if dd > d {
                            assert(s[dd] != '.');
                            assert(false);
                        }
                        if dd < d {
                            assert(is_alpha(s[d as int]));
                            assert(false);
                        }
                        assert(dd == d);
                        assert(false);
                    }
                }
            }
        }
        ok
    }

    /// Normalizes an email for storage and uniqueness checks: trims
    /// surrounding ASCII whitespace and ASCII-lowercases the rest, a
    /// deliberate restriction to the ASCII text model; every address the
    /// grammar above accepts is pure ASCII, so validated addresses
    /// normalize exactly as Unicode trimming and folding would.
    pub fn normalize_email(email: &str) -> (r: String)
        ensures
            r@ == lower_seq(trim_seq(email@)),
    {
        let chars = str_chars(email);
        let trimmed = trim_chars(&chars);
        let lowered = lower_chars(&trimmed);
        chars_to_string(&lowered)
    }
}

/// A character a username may contain.
pub open spec fn is_username_char(c: char) -> bool {
    is_alnum(c) || c == '_' || c == '-'
}

/// A username is 3 to 30 characters of letters, digits, underscores and
/// hyphens.
pub open spec fn valid_username(s: Seq<char>) -> bool {
    3 <= s.len() <= 30 && forall|k: int| 0 <= k < s.len() ==> is_username_char(s[k])
}

/// The single violation message reported for `s`, when there is one:
/// emptiness, then length bounds, then the character set.
pub open spec fn username_violation(s: Seq<char>) -> Seq<char> {
    if s.len() == 0 {
        "Username cannot be empty"@
    } else if s.len() < 3 {
        "Username must be at least 3 characters long"@
    } else if s.len() > 30 {
        "Username must be no more than 30 characters long"@
    } else {
        "Username can only contain letters, numbers, underscores, and hyphens"@
    }
}

/// Username validation.
pub struct UsernameUtils;

impl UsernameUtils {
    /// Checks a username against the grammar above.
    pub fn is_valid_username(username: &str) -> (r: bool)
        ensures
            r == valid_username(username@),
    {
        let chars = str_chars(username);
        let ghost s = username@;
        let n: usize = chars.len();
        let mut ok: bool = 3 <= n && n <= 30;
        let mut i: usize = 0;
        while i < n
            invariant
                n == s.len(),
                chars@ == s,
                i <= n,
                ok == (3 <= n <= 30 && forall|k: int| 0 <= k < i ==> is_username_char(s[k])),
            decreases n - i,
        {
            let c = chars[i];
            if !(('a' <= c && c <= 'z') || ('A' <= c && c <= 'Z') || ('0' <= c && c <= '9') || c
                == '_' || c == '-') {
                ok = false;
            }
            i = i + 1;
        }
        ok
    }

    /// Checks the username and reports the first violated rule, in words.
    pub fn validate_username_characters(username: &str) -> (r: Result<(), String>)
        ensures
            r is Ok <==> valid_username(username@),
            r is Err ==> r->Err_0@ == username_violation(username@),
    {
        let chars = str_chars(username);
        let n: usize = chars.len();
        if n == 0 {
            return Err("Username cannot be empty".to_owned());
        }
        if n < 3 {
            return Err("Username must be at least 3 characters long".to_owned());
        }
        if n > 30 {
            return Err("Username must be no more than 30 characters long".to_owned());
        }
        if !Self::is_valid_username(username) {
            return Err(
                "Username can only contain letters, numbers, underscores, and hyphens".to_owned(),
            );
        }
        Ok(())
    }
}

/// The HTML escape of a single character.
pub open spec fn escape_char(c: char) -> Seq<char> {
    if c == '&' {
        "&amp;"@
    } else if c == '<' {
        "&lt;"@
    } else if c == '>' {
        "&gt;"@
    } else if c == '"' {
        "&quot;"@
    } else if c == '\'' {
        "&#39;"@
    } else {
        seq![c]
    }
}

/// The HTML escape of a sequence: each character replaced by its escape.
pub open spec fn escape_seq(s: Seq<char>) -> Seq<char>
    decreases s.len(),
{
    if s.len() == 0 {
        Seq::<char>::empty()
    } else {
        escape_char(s.first()) + escape_seq(s.drop_first())
    }
}

/// Escaping distributes over taking one more character at the end.
proof fn lemma_escape_take(s: Seq<char>, i: int)
    requires
        0 <= i < s.len(),
    ensures
        escape_seq(s.take(i + 1)) == escape_seq(s.take(i)) + escape_char(s[i]),
    decreases i,
{
    if i == 0 {
        assert(s.take(1).drop_first() =~= Seq::<char>::empty());
        assert(s.take(0) =~= Seq::<char>::empty());
        assert(escape_seq(s.take(1)) =~= escape_char(s[0]) + escape_seq(Seq::<char>::empty()));
        assert(escape_seq(s.take(i + 1)) =~= escape_seq(s.take(i)) + escape_char(s[i]));
    } else {
        let t = s.drop_first();
        lemma_escape_take(t, i - 1);
        assert(s.take(i + 1).drop_first() =~= t.take(i));
        assert(s.take(i).drop_first() =~= t.take(i - 1));
        assert(s.take(i + 1).first() == s[0]);
        assert(s.take(i).first() == s[0]);
        assert(escape_seq(s.take(i + 1)) == escape_char(s[0]) + escape_seq(t.take(i)));
        assert(escape_seq(s.take(i)) == escape_char(s[0]) + escape_seq(t.take(i - 1)));
        assert(t[i - 1] == s[i]);
        assert((escape_char(s[0]) + (escape_seq(t.take(i - 1)) + escape_char(s[i]))) =~= (
        escape_char(s[0]) + escape_seq(t.take(i - 1))) + escape_char(s[i]));
    }
}

/// Text sanitization.
pub struct TextUtils;

impl TextUtils {
    /// Trims surrounding ASCII whitespace and keeps at most `max_length`
    /// characters of what remains; the count is of characters, and the
    /// trimming is deliberately ASCII.
    pub fn sanitize_text(text: &str, max_length: usize) -> (r: String)
        ensures
            r@ == trim_seq(text@).take(vstd::math::min(max_length as int, trim_seq(text@).len() as int)),
    {
        let chars = str_chars(text);
        let trimmed = trim_chars(&chars);
        let keep: usize = if max_length < trimmed.len() {
            max_length
        } else {
            trimmed.len()
        };
        let mut out: Vec<char> = Vec::new();
        let mut i: usize = 0;
        while i < keep
            invariant
                keep <= trimmed@.len(),
                i <= keep,
                out@ == trimmed@.take(i as int),
            decreases keep - i,
        {
            out.push(trimmed[i]);
            proof {
                assert(trimmed@.take(i + 1) =~= trimmed@.take(i as int).push(trimmed@[i as int]));
            }
            i = i + 1;
        }
        chars_to_string(&out)
    }

    /// Replaces the five HTML-significant characters by their entities.
    pub fn escape_html(text: &str) -> (r: String)
        ensures
            r@ == escape_seq(text@),
    {
        let chars = str_chars(text);
        let ghost s = text@;
        let n: usize = chars.len();
        let mut out: Vec<char> = Vec::new();
        let mut i: usize = 0;
        proof {
            assert(s.take(0) =~= Seq::<char>::empty());
        }
        while i < n
            invariant
                n == s.len(),
                chars@ == s,
                i <= n,
                out@ == escape_seq(s.take(i as int)),
            decreases n - i,
        {
            let c = chars[i];
            proof {
                reveal_strlit("&amp;");
                reveal_strlit("&lt;");
                reveal_strlit("&gt;");
                reveal_strlit("&quot;");
                reveal_strlit("&#39;");
            }
            if c == '&' || c == '<' || c == '>' || c == '"' || c == '\'' {
                let rep: &str = if c == '&' {
                    "&amp;"
                } else if c == '<' {
                    "&lt;"
                } else if c == '>' {
                    "&gt;"
                } else if c == '"' {
                    "&quot;"
                } else {
                    "&#39;"
                };
                let mut rv = str_chars(rep);
                proof {
                    assert(rv@ =~= escape_char(c));
                }
                out.append(&mut rv);
            } else {
                proof {
                    assert(seq![c] =~= escape_char(c));
                }
                out.push(c);
            }
            proof {
                lemma_escape_take(s, i as int);
            }
            i = i + 1;
        }
        proof {
            assert(s.take(n as int) =~= s);
        }
        chars_to_string(&out)
    }

    /// Whether the text consists only of printable ASCII characters and
    /// ASCII whitespace.
    pub fn is_safe_text(text: &str) -> (r: bool)
        ensures
            r == forall|k: int| 0 <= k < text@.len() ==> is_graphic(text@[k]) || is_space(text@[k]),
    {
        let chars = str_chars(text);
        let ghost s = text@;
        let n: usize = chars.len();
        let mut ok: bool = true;
        let mut i: usize = 0;
        while i < n
            invariant
                n == s.len(),
                chars@ == s,
                i <= n,
                ok == forall|k: int| 0 <= k < i ==> is_graphic(s[k]) || is_space(s[k]),
            decreases n - i,
        {
            let c = chars[i];
            if !(('!' <= c && c <= '~') || space_char(c)) {
                proof {
                    assert(!(is_graphic(s[i as int]) || is_space(s[i as int])));
                }
                ok = false;
            }
            i = i + 1;
        }
        ok
    }
}

/// Confirms that a password and its confirmation agree; reports the
/// mismatch code otherwise.
pub fn validate_password_match(password: &str, confirm_password: &str) -> (r: Result<(), String>)
    ensures
        r is Ok <==> password@ == confirm_password@,
        r is Err ==> r->Err_0@ == "password_mismatch"@,
{
    let a = str_chars(password);
    let b = str_chars(confirm_password);
    if a.len() != b.len() {
        proof {
            assert(password@ != confirm_password@);
        }
        return Err("password_mismatch".to_owned());
    }
    let n: usize = a.len();
    let mut i: usize = 0;
    while i < n
        invariant
            n == a@.len() == b@.len(),
            a@ == password@,
            b@ == confirm_password@,
            i <= n,
            forall|k: int| 0 <= k < i ==> a@[k] == b@[k],
        decreases n - i,
    {
        if a[i] != b[i] {
            proof {
                assert(password@[i as int] != confirm_password@[i as int]);
            }
            return Err("password_mismatch".to_owned());
        }
        i = i + 1;
    }
    proof {
        assert(password@ =~= confirm_password@);
    }
    Ok(())
}

} // verus!
