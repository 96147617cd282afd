//! Session authentication: turn an `Authorization` header into a
//! resolved identity, or reject the request.
//!
//! Every failure — missing header, wrong scheme, bad signature, expiry,
//! wrong token kind, malformed subject, vanished account — collapses to
//! the same `Unauthorized` answer, so a caller cannot distinguish the
//! cause.

use vstd::prelude::*;

use crate::account::Directory;
use crate::errors::AppError;
use crate::ids::{UserId, spec_parse_uuid};
use crate::jwt::{JwtManager, spec_verify_token};
use crate::text::str_chars;

verus! {

/// The identity resolved for one request: the authenticated account id.
#[derive(Debug, Clone, Copy, PartialEq, Eq, Structural)]
pub struct AuthenticatedUser {
    pub id: UserId,
}

/// The possibly-absent identity resolved by the optional variant.
#[derive(Debug, Clone, Copy)]
pub struct OptionalAuthenticatedUser(pub Option<UserId>);

/// The token of a well-formed bearer header: an exact `"Bearer "` prefix
/// followed by the token.
pub open spec fn bearer_token_of(header: Seq<char>) -> Option<Seq<char>> {
    if header.len() >= 7 && header.take(7) == "Bearer "@ {
        Option::Some(header.skip(7))
    } else {
        Option::None
    }
}

/// The identity a request resolves to, if any: a well-formed bearer
/// header, a valid unexpired access token, a parseable subject, and an
/// account that still exists.
pub open spec fn spec_authenticate(
    dir: Directory,
    key: Seq<u8>,
    header: Option<Seq<char>>,
    now: u64,
) -> Option<UserId> {
    match header {
        Option::None => Option::None,
        Option::Some(h) => match bearer_token_of(h) {
            Option::None => Option::None,
            Option::Some(tok) => match spec_verify_token(tok, key) {
                Option::None => Option::None,
                Option::Some(cv) => if now > cv.exp || cv.refresh {
                    Option::None
                } else {
                    match spec_parse_uuid(cv.sub) {
                        Option::None => Option::None,
                        Option::Some(id) => if dir.has_id(id) {
                            Option::Some(id)
                        } else {
                            Option::None
                        },
                    }
                },
            },
        },
    }
}

/// Strips an exact `"Bearer "` prefix from a header value.
pub fn strip_bearer(header: &str) -> (r: Option<String>)
    ensures
        match r {
            Option::Some(t) => bearer_token_of(header@) == Option::Some(t@),
            Option::None => bearer_token_of(header@) is None,
        },
{
    let chars = str_chars(header);
    let prefix = str_chars("Bearer ");
    proof {
        reveal_strlit("Bearer ");
    }
    let n: usize = chars.len();
    if n < 7 {
        return Option::None;
    }
    let mut k: usize = 0;
    while k < 7
        invariant
            chars@ == header@,
            prefix@ == "Bearer "@,
            prefix@.len() == 7,
            7 <= n == header@.len(),
            k <= 7,
            forall|t: int| 0 <= t < k ==> header@[t] == "Bearer "@[t],
        decreases 7 - k,
    {
        if chars[k] != prefix[k] {
            proof {
                assert(header@.take(7)[k as int] != "Bearer "@[k as int]);
            }
            return Option::None;
        }
        k = k + 1;
    }
    proof {
        assert(header@.take(7) =~= "Bearer "@);
    }
    let mut rest: Vec<char> = Vec::new();
    let mut i: usize = 7;
    while i < n
        invariant
            chars@ == header@,
            7 <= i <= n == header@.len(),
            rest@ == header@.subrange(7, i as int),
        decreases n - i,
    {
        rest.push(chars[i]);
        proof {
            assert(header@.subrange(7, i + 1) =~= header@.subrange(7, i as int).push(
                header@[i as int],
            ));
        }
        i = i + 1;
    }
    proof {
        assert(rest@ =~= header@.skip(7));
    }
    Option::Some(crate::text::chars_to_string(&rest))
}

/// Gates a protected route: resolves the `Authorization` header to an
/// identity as of `now`, or answers `Unauthorized`.
pub fn auth_middleware(dir: &Directory, mgr: &JwtManager, auth_header: Option<&str>, now: u64) -> (r:
    Result<AuthenticatedUser, AppError>)
    ensures
        match r {
            Result::Ok(a) => spec_authenticate(
                *dir,
                mgr.key(),
                match auth_header {
                    Option::Some(h) => Option::Some(h@),
                    Option::None => Option::None,
                },
                now,
            ) == Option::Some(a.id),
            Result::Err(e) => e == AppError::Unauthorized && spec_authenticate(
                *dir,
                mgr.key(),
                match auth_header {
                    Option::Some(h) => Option::Some(h@),
                    Option::None => Option::None,
                },
                now,
            ) is None,
        },
{
    let header = match auth_header {
        Option::Some(h) => h,
        Option::None => {
            return Result::Err(AppError::Unauthorized);
        },
    };
    let token = match strip_bearer(header) {
        Option::Some(t) => t,
        Option::None => {
            return Result::Err(AppError::Unauthorized);
        },
    };
    let claims = match mgr.verify_access_token_at(token.as_str(), now) {
        Result::Ok(c) => c,
        Result::Err(_) => {
            return Result::Err(AppError::Unauthorized);
        },
    };
    let user_id = match claims.user_id() {
        Result::Ok(id) => id,
        Result::Err(_) => {
            return Result::Err(AppError::Unauthorized);
        },
    };
    match dir.find_by_id(user_id) {
        Option::Some(_) => Result::Ok(AuthenticatedUser { id: user_id }),
        Option::None => Result::Err(AppError::Unauthorized),
    }
}

/// The optional variant: the same resolution, but a failure only leaves
/// the identity absent; it never rejects the request.
pub fn optional_auth_middleware(
    dir: &Directory,
    mgr: &JwtManager,
    auth_header: Option<&str>,
    now: u64,
) -> (r: OptionalAuthenticatedUser)
    ensures
        r.0 == spec_authenticate(
            *dir,
            mgr.key(),
            match auth_header {
                Option::Some(h) => Option::Some(h@),
                Option::None => Option::None,
            },
            now,
        ),
{
    match auth_middleware(dir, mgr, auth_header, now) {
        Result::Ok(a) => OptionalAuthenticatedUser(Option::Some(a.id)),
        Result::Err(_) => OptionalAuthenticatedUser(Option::None),
    }
}

} // verus!
