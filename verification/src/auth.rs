//! The registration, login and refresh flows: the one place where the
//! credential hasher, the identity directory and the token service
//! compose end to end.
//!
//! Validation failures are fine-grained and cumulative; authentication
//! failures are deliberately coarse, a single `Unauthorized`.

use vstd::prelude::*;

use crate::account::{Directory, NewUser, User};
use crate::errors::AppError;
use crate::helpers::{DateUtils, UuidUtils};
use crate::ids::{UserId, spec_parse_uuid};
use crate::jwt::{
    ACCESS_TOKEN_MINUTES, JwtManager, REFRESH_TOKEN_MINUTES, claims_view_at, spec_verify_token,
    token_of,
};
use crate::text::{lower_seq, str_chars, trim_seq};
use crate::validation::{
    EmailUtils, PasswordUtils, UsernameUtils, password_matches, password_ok, password_violations,
    phc_wf, valid_email, valid_username, username_violation,
};

verus! {

/// A registration request: raw credentials for a new account.
#[derive(Debug, Clone)]
pub struct RegisterRequest {
    pub email: String,
    pub username: String,
    pub password: String,
}

/// A login request.
#[derive(Debug, Clone)]
pub struct LoginRequest {
    pub email: String,
    pub password: String,
}

/// A token refresh request.
#[derive(Debug, Clone)]
pub struct RefreshTokenRequest {
    pub refresh_token: String,
}

/// The public-safe view of an account: never the password digest.
#[derive(Debug, Clone)]
pub struct UserResponse {
    pub id: UserId,
    pub email: String,
    pub username: String,
    pub created_at: i64,
}

/// A successful registration or login: the account view and a fresh
/// token pair.
#[derive(Debug)]
pub struct AuthResponse {
    pub user: UserResponse,
    pub access_token: String,
    pub refresh_token: String,
    pub expires_in: usize,
}

/// A successful refresh: a fresh token pair without the account view.
#[derive(Debug)]
pub struct TokenResponse {
    pub access_token: String,
    pub refresh_token: String,
    pub expires_in: usize,
}

/// A bare confirmation message.
#[derive(Debug)]
pub struct MessageResponse {
    pub message: String,
}

/// Lifetime of an access token in seconds, as reported to clients.
pub const ACCESS_TOKEN_LIFETIME_SECS: usize = 900;

/// The normalized form of an email: trimmed, lowercased.
pub open spec fn normalized_email(email: Seq<char>) -> Seq<char> {
    lower_seq(trim_seq(email))
}

/// Every violation of a registration request, in reporting order:
/// email format, username rules, password strength.
pub open spec fn registration_violations(
    email: Seq<char>,
    username: Seq<char>,
    password: Seq<char>,
) -> Seq<Seq<char>> {
    (if !valid_email(email) {
        seq!["Invalid email format"@]
    } else {
        Seq::<Seq<char>>::empty()
    }) + (if !valid_username(username) {
        seq![username_violation(username)]
    } else {
        Seq::<Seq<char>>::empty()
    }) + password_violations(password)
}

/// Whether a registration request is acceptable.
pub open spec fn registration_ok(email: Seq<char>, username: Seq<char>, password: Seq<char>) -> bool {
    valid_email(email) && valid_username(username) && password_ok(password)
}

/// Messages joined by a comma and a space.
pub open spec fn join_comma(msgs: Seq<Seq<char>>) -> Seq<char>
    decreases msgs.len(),
{
    if msgs.len() == 0 {
        Seq::<char>::empty()
    } else if msgs.len() == 1 {
        msgs[0]
    } else {
        join_comma(msgs.drop_last()) + ", "@ + msgs.last()
    }
}

/// Joins a list of messages with `", "`.
fn join_messages(msgs: &Vec<String>) -> (r: String)
    ensures
        r@ == join_comma(msgs@.map_values(|m: String| m@)),
{
    let ghost vs = msgs@.map_values(|m: String| m@);
    let n: usize = msgs.len();
    let mut out: Vec<char> = Vec::new();
    let mut i: usize = 0;
    proof {
        assert(vs.take(0) =~= Seq::<Seq<char>>::empty());
    }
    while i < n
        invariant
            n == msgs@.len(),
            vs == msgs@.map_values(|m: String| m@),
            i <= n,
            out@ == join_comma(vs.take(i as int)),
        decreases n - i,
    {
        let ghost prev = out@;
        if i > 0 {
            out.push(',');
            out.push(' ');
        }
        let mut piece = str_chars(msgs[i].as_str());
        out.append(&mut piece);
        proof {
            reveal_strlit(", ");
            assert(vs.take(i + 1).drop_last() =~= vs.take(i as int));
            assert(vs.take(i + 1).last() == vs[i as int]);
            assert(vs[i as int] == msgs@[i as int]@);
            if i == 0 {
                assert(out@ =~= join_comma(vs.take(1)));
            } else {
                assert(out@ =~= prev + ", "@ + vs[i as int]);
            }
        }
        i = i + 1;
    }
    proof {
        assert(vs.take(n as int) =~= vs);
    }
    crate::text::chars_to_string(&out)
}

/// Checks a registration request, accumulating every violation into one
/// comma-separated message instead of stopping at the first.
pub fn validate_registration_input(payload: &RegisterRequest) -> (r: Result<(), AppError>)
    ensures
        r is Ok <==> registration_ok(payload.email@, payload.username@, payload.password@),
        r is Err ==> r->Err_0 is ValidationError && r->Err_0->ValidationError_0@ == join_comma(
            registration_violations(payload.email@, payload.username@, payload.password@),
        ),
{
    let mut msgs: Vec<String> = Vec::new();
    if !EmailUtils::is_valid_email(payload.email.as_str()) {
        msgs.push("Invalid email format".to_owned());
    }
    match UsernameUtils::validate_username_characters(payload.username.as_str()) {
        Result::Ok(()) => (),
        Result::Err(m) => {
            msgs.push(m);
        },
    }
    match PasswordUtils::validate_password_strength(payload.password.as_str()) {
        Result::Ok(()) => (),
        Result::Err(mut more) => {
            msgs.append(&mut more);
        },
    }
    proof {
        assert(msgs@.map_values(|m: String| m@) =~= registration_violations(
            payload.email@,
            payload.username@,
            payload.password@,
        ));
    }
    if msgs.is_empty() {
        proof {
            assert(registration_violations(
                payload.email@,
                payload.username@,
                payload.password@,
            ).len() == 0);
        }
        Result::Ok(())
    } else {
        let joined = join_messages(&msgs);
        Result::Err(AppError::ValidationError(joined))
    }
}

/// Registers a new account: validate, rule out duplicates on the
/// normalized email and the username, hash the password, store the
/// account, and issue a token pair.
pub fn register_handler(dir: &mut Directory, mgr: &JwtManager, payload: RegisterRequest) -> (r:
    Result<AuthResponse, AppError>)
    requires
        old(dir).wf(),
    ensures
        final(dir).wf(),
        final(dir).groups() == old(dir).groups(),
        !registration_ok(payload.email@, payload.username@, payload.password@) ==> {
            &&& r is Err
            &&& r->Err_0 is ValidationError
            &&& r->Err_0->ValidationError_0@ == join_comma(
                registration_violations(payload.email@, payload.username@, payload.password@),
            )
            &&& final(dir).accounts() == old(dir).accounts()
        },
        registration_ok(payload.email@, payload.username@, payload.password@) && old(dir).has_email(
            normalized_email(payload.email@),
        ) ==> {
            &&& r is Err
            &&& r->Err_0 is ValidationError
            &&& r->Err_0->ValidationError_0@ == "Email already registered"@
            &&& final(dir).accounts() == old(dir).accounts()
        },
        registration_ok(payload.email@, payload.username@, payload.password@) && !old(
            dir,
        ).has_email(normalized_email(payload.email@)) && old(dir).has_username(payload.username@)
            ==> {
            &&& r is Err
            &&& r->Err_0 is ValidationError
            &&& r->Err_0->ValidationError_0@ == "Username already taken"@
            &&& final(dir).accounts() == old(dir).accounts()
        },
        registration_ok(payload.email@, payload.username@, payload.password@) && !old(
            dir,
        ).has_email(normalized_email(payload.email@)) && !old(dir).has_username(payload.username@)
            ==> match r {
            Result::Ok(resp) => {
                &&& final(dir).accounts().len() == old(dir).accounts().len() + 1
                &&& forall|k: int|
                    0 <= k < old(dir).accounts().len() ==> final(dir).accounts()[k] == old(
                        dir,
                    ).accounts()[k]
                &&& final(dir).accounts().last().email@ == normalized_email(payload.email@)
                &&& final(dir).accounts().last().username@ == payload.username@
                &&& password_matches(
                    payload.password@,
                    final(dir).accounts().last().password_hash@,
                )
                &&& resp.user.id == final(dir).accounts().last().id
                &&& resp.user.email@ == normalized_email(payload.email@)
                &&& resp.user.username@ == payload.username@
                &&& resp.expires_in == ACCESS_TOKEN_LIFETIME_SECS
                &&& exists|t: u64|
                    resp.access_token@ == token_of(
                        #[trigger] claims_view_at(resp.user.id, false, ACCESS_TOKEN_MINUTES, t),
                        mgr.key(),
                    )
                &&& exists|t: u64|
                    resp.refresh_token@ == token_of(
                        #[trigger] claims_view_at(resp.user.id, true, REFRESH_TOKEN_MINUTES, t),
                        mgr.key(),
                    )
            },
            Result::Err(e) => e is Internal && final(dir).accounts() == old(dir).accounts(),
        },
{
    match validate_registration_input(&payload) {
        Result::Ok(()) => (),
        Result::Err(e) => {
            return Result::Err(e);
        },
    }
    let norm = EmailUtils::normalize_email(payload.email.as_str());
    let ghost norm_view = norm@;
    match dir.find_by_email(norm.as_str()) {
        Option::Some(_) => {
            return Result::Err(AppError::ValidationError("Email already registered".to_owned()));
        },
        Option::None => (),
    }
    match dir.find_by_username(payload.username.as_str()) {
        Option::Some(_) => {
            return Result::Err(AppError::ValidationError("Username already taken".to_owned()));
        },
        Option::None => (),
    }
    let password_hash = match PasswordUtils::hash_password(payload.password.as_str()) {
        Result::Ok(h) => h,
        Result::Err(_) => {
            return Result::Err(AppError::Internal("Password hashing failed".to_owned()));
        },
    };
    let id = UuidUtils::generate();
    match dir.find_by_id(id) {
        Option::Some(_) => {
            return Result::Err(AppError::Internal("Identifier collision".to_owned()));
        },
        Option::None => (),
    }
    let created_at = DateUtils::now();
    let new_user = NewUser {
        email: norm,
        username: payload.username,
        password_hash,
        bio: Option::None,
        image_url: Option::None,
    };
    let user = dir.create_account(new_user, id, created_at);
    let access_token = match mgr.generate_access_token(user.id) {
        Result::Ok(t) => t,
        Result::Err(_) => {
            return Result::Err(AppError::Internal("Token generation failed".to_owned()));
        },
    };
    let refresh_token = match mgr.generate_refresh_token(user.id) {
        Result::Ok(t) => t,
        Result::Err(_) => {
            return Result::Err(AppError::Internal("Token generation failed".to_owned()));
        },
    };
    Result::Ok(
        AuthResponse {
            user: UserResponse {
                id: user.id,
                email: user.email,
                username: user.username,
                created_at: user.created_at,
            },
            access_token,
            refresh_token,
            expires_in: ACCESS_TOKEN_LIFETIME_SECS,
        },
    )
}

/// Logs an account in: validate the email shape, resolve the account by
/// normalized email, check the password, and issue a token pair. A
/// matching password is owed a token pair; a wrong one is a validation
/// error with the deliberate "Invalid password" message; a stored digest
/// that does not even parse is an internal failure, surfaced without
/// detail.
pub fn login_handler(dir: &Directory, mgr: &JwtManager, payload: LoginRequest) -> (r: Result<
    AuthResponse,
    AppError,
>)
    requires
        dir.wf(),
    ensures
        !valid_email(payload.email@) ==> r is Err && r->Err_0 is ValidationError
            && r->Err_0->ValidationError_0@ == "Invalid email format"@,
        valid_email(payload.email@) && !dir.has_email(normalized_email(payload.email@)) ==> r
            is Err && r->Err_0 is ValidationError && r->Err_0->ValidationError_0@
            == "User not found"@,
        valid_email(payload.email@) && dir.has_email(normalized_email(payload.email@)) ==> match r {
            Result::Ok(resp) => exists|i: int|
                {
                    &&& 0 <= i < dir.accounts().len()
                    &&& (#[trigger] dir.accounts()[i]).email@ == normalized_email(payload.email@)
                    &&& password_matches(payload.password@, dir.accounts()[i].password_hash@)
                    &&& resp.user.id == dir.accounts()[i].id
                    &&& resp.user.email@ == dir.accounts()[i].email@
                    &&& resp.user.username@ == dir.accounts()[i].username@
                    &&& resp.expires_in == ACCESS_TOKEN_LIFETIME_SECS
                    &&& exists|t: u64|
                        resp.access_token@ == token_of(
                            #[trigger] claims_view_at(
                                resp.user.id,
                                false,
                                ACCESS_TOKEN_MINUTES,
                                t,
                            ),
                            mgr.key(),
                        )
                    &&& exists|t: u64|
                        resp.refresh_token@ == token_of(
                            #[trigger] claims_view_at(resp.user.id, true, REFRESH_TOKEN_MINUTES, t),
                            mgr.key(),
                        )
                },
            Result::Err(e) => e is ValidationError || e is Internal,
        },
        valid_email(payload.email@) ==> forall|i: int|
            (0 <= i < dir.accounts().len() && (#[trigger] dir.accounts()[i]).email@
                == normalized_email(payload.email@) && password_matches(
                payload.password@,
                dir.accounts()[i].password_hash@,
            )) ==> r is Ok,
        valid_email(payload.email@) ==> forall|i: int|
            (0 <= i < dir.accounts().len() && (#[trigger] dir.accounts()[i]).email@
                == normalized_email(payload.email@) && phc_wf(dir.accounts()[i].password_hash@)
                && !password_matches(payload.password@, dir.accounts()[i].password_hash@)) ==> (r
                is Err && r->Err_0 is ValidationError && r->Err_0->ValidationError_0@
                == "Invalid password"@),
{
    if !EmailUtils::is_valid_email(payload.email.as_str()) {
        return Result::Err(AppError::ValidationError("Invalid email format".to_owned()));
    }
    let norm = EmailUtils::normalize_email(payload.email.as_str());
    let user: &User = match dir.find_by_email(norm.as_str()) {
        Option::Some(u) => u,
        Option::None => {
            return Result::Err(AppError::ValidationError("User not found".to_owned()));
        },
    };
    proof {
        // By uniqueness of stored emails, the found account is the only
        // one under this address.
        let j = choose|j: int|
            0 <= j < dir.accounts().len() && dir.accounts()[j] == *user;
        assert forall|i: int|
            (0 <= i < dir.accounts().len() && (#[trigger] dir.accounts()[i]).email@
                == normalized_email(payload.email@)) implies dir.accounts()[i] == *user by {
            if i < j {
                assert(dir.accounts()[i].email@ != dir.accounts()[j].email@);
            } else if j < i {
                assert(dir.accounts()[j].email@ != dir.accounts()[i].email@);
            }
        }
    }
    let is_valid = match PasswordUtils::verify_password(
        payload.password.as_str(),
        user.password_hash.as_str(),
    ) {
        Result::Ok(b) => b,
        Result::Err(_) => {
            // A digest that does not parse is corrupt storage: an
            // internal failure, surfaced without detail.
            return Result::Err(AppError::Internal("Password verification failed".to_owned()));
        },
    };
    if !is_valid {
        return Result::Err(AppError::ValidationError("Invalid password".to_owned()));
    }
    let access_token = match mgr.generate_access_token(user.id) {
        Result::Ok(t) => t,
        Result::Err(_) => {
            return Result::Err(AppError::Internal("Token generation failed".to_owned()));
        },
    };
    let refresh_token = match mgr.generate_refresh_token(user.id) {
        Result::Ok(t) => t,
        Result::Err(_) => {
            return Result::Err(AppError::Internal("Token generation failed".to_owned()));
        },
    };
    Result::Ok(
        AuthResponse {
            user: UserResponse {
                id: user.id,
                email: user.email.clone(),
                username: user.username.clone(),
                created_at: user.created_at,
            },
            access_token,
            refresh_token,
            expires_in: ACCESS_TOKEN_LIFETIME_SECS,
        },
    )
}

/// Exchanges a valid refresh token for a fresh token pair, as of `now`;
/// the subject must still exist. The old refresh token is not revoked:
/// it stays valid until its own expiry.
pub fn refresh_token_handler(
    dir: &Directory,
    mgr: &JwtManager,
    payload: RefreshTokenRequest,
    now: u64,
) -> (r: Result<TokenResponse, AppError>)
    ensures
        match r {
            Result::Ok(resp) => match spec_verify_token(payload.refresh_token@, mgr.key()) {
                Option::Some(cv) => {
                    &&& now <= cv.exp
                    &&& cv.refresh
                    &&& match spec_parse_uuid(cv.sub) {
                        Option::Some(id) => {
                            &&& dir.has_id(id)
                            &&& resp.expires_in == ACCESS_TOKEN_LIFETIME_SECS
                            &&& exists|t: u64|
                                resp.access_token@ == token_of(
                                    #[trigger] claims_view_at(id, false, ACCESS_TOKEN_MINUTES, t),
                                    mgr.key(),
                                )
                            &&& exists|t: u64|
                                resp.refresh_token@ == token_of(
                                    #[trigger] claims_view_at(id, true, REFRESH_TOKEN_MINUTES, t),
                                    mgr.key(),
                                )
                        },
                        Option::None => false,
                    }
                },
                Option::None => false,
            },
            Result::Err(e) => e == AppError::Unauthorized && match spec_verify_token(
                payload.refresh_token@,
                mgr.key(),
            ) {
                Option::Some(cv) => now > cv.exp || !cv.refresh || match spec_parse_uuid(cv.sub) {
                    Option::Some(id) => !dir.has_id(id),
                    Option::None => true,
                },
                Option::None => true,
            },
        },
{
    let claims = match mgr.verify_refresh_token_at(payload.refresh_token.as_str(), now) {
        Result::Ok(c) => c,
        Result::Err(_) => {
            return Result::Err(AppError::Unauthorized);
        },
    };
    let user_id = match claims.user_id() {
        Result::Ok(id) => id,
        Result::Err(_) => {
            return Result::Err(AppError::Unauthorized);
        },
    };
    match dir.find_by_id(user_id) {
        Option::Some(_) => (),
        Option::None => {
            return Result::Err(AppError::Unauthorized);
        },
    }
    let access_token = match mgr.generate_access_token(user_id) {
        Result::Ok(t) => t,
        Result::Err(_) => {
            return Result::Err(AppError::Unauthorized);
        },
    };
    let refresh_token = match mgr.generate_refresh_token(user_id) {
        Result::Ok(t) => t,
        Result::Err(_) => {
            return Result::Err(AppError::Unauthorized);
        },
    };
    Result::Ok(
        TokenResponse { access_token, refresh_token, expires_in: ACCESS_TOKEN_LIFETIME_SECS },
    )
}

/// Logout is a deliberate no-op: tokens are stateless and carry their
/// own expiry, and there is no revocation store.
pub fn logout_handler() -> (r: Result<MessageResponse, AppError>)
    ensures
        r is Ok,
        r->Ok_0.message@ == "Successfully logged out"@,
{
    Result::Ok(MessageResponse { message: "Successfully logged out".to_owned() })
}

/// Returns the public-safe view of the authenticated caller's account,
/// or `Unauthorized` if it no longer exists.
pub fn me_handler(dir: &Directory, user: crate::middleware::auth::AuthenticatedUser) -> (r: Result<
    UserResponse,
    AppError,
>)
    ensures
        match r {
            Result::Ok(resp) => resp.id == user.id && exists|i: int|
                {
                    &&& 0 <= i < dir.accounts().len()
                    &&& (#[trigger] dir.accounts()[i]).id == user.id
                    &&& resp.email@ == dir.accounts()[i].email@
                    &&& resp.username@ == dir.accounts()[i].username@
                    &&& resp.created_at == dir.accounts()[i].created_at
                },
            Result::Err(e) => e == AppError::Unauthorized && !dir.has_id(user.id),
        },
{
    let u: &User = match dir.find_by_id(user.id) {
        Option::Some(u) => u,
        Option::None => {
            return Result::Err(AppError::Unauthorized);
        },
    };
    Result::Ok(
        UserResponse {
            id: u.id,
            email: u.email.clone(),
            username: u.username.clone(),
            created_at: u.created_at,
        },
    )
}

} // verus!
