use studysphere::account::{Directory, NewGroup, NewUser};
use studysphere::auth::{
    LoginRequest, RefreshTokenRequest, RegisterRequest, login_handler, logout_handler, me_handler,
    refresh_token_handler, register_handler, validate_registration_input,
};
use studysphere::errors::AppError;
use studysphere::helpers::UuidUtils;
use studysphere::jwt::JwtManager;
use studysphere::middleware::auth::{AuthenticatedUser, auth_middleware, optional_auth_middleware};
use studysphere::b64::{b64_decode, b64_encode};
use studysphere::ids::UserId;
use studysphere::middleware::authorization;

fn register_one(dir: &mut Directory, mgr: &JwtManager, email: &str, username: &str) -> studysphere::auth::AuthResponse {
    let payload = RegisterRequest {
        email: email.to_string(),
        username: username.to_string(),
        password: "Str0ng!Pass".to_string(),
    };
    register_handler(dir, mgr, payload).unwrap()
}

#[test]
fn test_registration_conflicts_and_success() {
    let mut dir = Directory::new();
    let mgr = JwtManager::new("flow_secret");

    // A fully valid registration succeeds with a full token pair.
    let resp = register_one(&mut dir, &mgr, "new@user.com", "newuser");
    assert!(!resp.access_token.is_empty());
    assert!(!resp.refresh_token.is_empty());
    assert_eq!(resp.expires_in, 900);
    assert_eq!(resp.user.email, "new@user.com");
    assert_eq!(resp.user.username, "newuser");

    // Same email again: rejected as already registered.
    let dup = RegisterRequest {
        email: "a@b.com".to_string(),
        username: "someone".to_string(),
        password: "Str0ng!Pass".to_string(),
    };
    register_handler(&mut dir, &mgr, dup).unwrap();
    let again = RegisterRequest {
        email: "a@b.com".to_string(),
        username: "someone_else".to_string(),
        password: "Str0ng!Pass".to_string(),
    };
    match register_handler(&mut dir, &mgr, again) {
        Err(AppError::ValidationError(m)) => assert!(m.contains("already registered")),
        other => panic!("expected a validation error, got {:?}", other.is_ok()),
    }

    // Same username: rejected as already taken.
    let taken = RegisterRequest {
        email: "fresh@user.com".to_string(),
        username: "newuser".to_string(),
        password: "Str0ng!Pass".to_string(),
    };
    match register_handler(&mut dir, &mgr, taken) {
        Err(AppError::ValidationError(m)) => assert!(m.contains("already taken")),
        other => panic!("expected a validation error, got {:?}", other.is_ok()),
    }

    // A weak password lists at least the length violation.
    let weak = RegisterRequest {
        email: "ok@user.com".to_string(),
        username: "okuser".to_string(),
        password: "short".to_string(),
    };
    match register_handler(&mut dir, &mgr, weak) {
        Err(AppError::ValidationError(m)) => {
            assert!(m.contains("at least 8 characters"));
        },
        other => panic!("expected a validation error, got {:?}", other.is_ok()),
    }
}

#[test]
fn test_validation_accumulates_all_violations() {
    let bad = RegisterRequest {
        email: "not-an-email".to_string(),
        username: "x".to_string(),
        password: "short".to_string(),
    };
    match validate_registration_input(&bad) {
        Err(AppError::ValidationError(m)) => {
            assert!(m.contains("Invalid email format"));
            assert!(m.contains("Username must be at least 3 characters long"));
            assert!(m.contains("Password must be at least 8 characters long"));
        },
        other => panic!("expected a validation error, got {:?}", other.is_ok()),
    }
}

#[test]
fn test_login_and_subject_resolution() {
    let mut dir = Directory::new();
    let mgr = JwtManager::new("flow_secret");
    let created = register_one(&mut dir, &mgr, "login@user.com", "loginuser");

    // Wrong password: a validation error.
    let wrong = LoginRequest {
        email: "login@user.com".to_string(),
        password: "Wr0ng!Pass".to_string(),
    };
    match login_handler(&dir, &mgr, wrong) {
        Err(AppError::ValidationError(m)) => assert_eq!(m, "Invalid password"),
        other => panic!("expected a validation error, got {:?}", other.is_ok()),
    }

    // Unknown account.
    let unknown = LoginRequest {
        email: "nobody@user.com".to_string(),
        password: "Str0ng!Pass".to_string(),
    };
    match login_handler(&dir, &mgr, unknown) {
        Err(AppError::ValidationError(m)) => assert_eq!(m, "User not found"),
        other => panic!("expected a validation error, got {:?}", other.is_ok()),
    }

    // Correct credentials: the token's subject resolves to the account id.
    let good = LoginRequest {
        email: "login@user.com".to_string(),
        password: "Str0ng!Pass".to_string(),
    };
    let resp = login_handler(&dir, &mgr, good).unwrap();
    assert_eq!(resp.user.id, created.user.id);
    let claims = mgr.verify_access_token(&resp.access_token).unwrap();
    assert_eq!(claims.user_id().unwrap(), created.user.id);
}

#[test]
fn test_session_middleware_rejections() {
    let mut dir = Directory::new();
    let mgr = JwtManager::new("mw_secret");
    let created = register_one(&mut dir, &mgr, "mw@user.com", "mwuser");
    let now: u64 = 1_700_000_000;

    // No header.
    assert_eq!(auth_middleware(&dir, &mgr, None, now).unwrap_err(), AppError::Unauthorized);

    // Wrong scheme.
    assert_eq!(
        auth_middleware(&dir, &mgr, Some("Token abc"), now).unwrap_err(),
        AppError::Unauthorized
    );

    // Well-formed but expired token.
    let token = mgr.generate_access_token_at(created.user.id, now);
    let header = format!("Bearer {}", token);
    assert_eq!(
        auth_middleware(&dir, &mgr, Some(&header), now + 901).unwrap_err(),
        AppError::Unauthorized
    );

    // The same token within its window is accepted.
    let ok = auth_middleware(&dir, &mgr, Some(&header), now + 900).unwrap();
    assert_eq!(ok.id, created.user.id);

    // A refresh token is never accepted where an access token is required.
    let refresh = mgr.generate_refresh_token_at(created.user.id, now);
    let refresh_header = format!("Bearer {}", refresh);
    assert_eq!(
        auth_middleware(&dir, &mgr, Some(&refresh_header), now).unwrap_err(),
        AppError::Unauthorized
    );

    // The optional variant never fails; it just leaves the identity out.
    assert!(optional_auth_middleware(&dir, &mgr, Some("Token abc"), now).0.is_none());
    assert_eq!(
        optional_auth_middleware(&dir, &mgr, Some(&header), now).0,
        Some(created.user.id)
    );
}

#[test]
fn test_ownership_check() {
    let mut dir = Directory::new();
    let mgr = JwtManager::new("own_secret");
    let u1 = register_one(&mut dir, &mgr, "owner@user.com", "owneruser");
    let u2 = register_one(&mut dir, &mgr, "other@user.com", "otheruser");
    dir.create_group(
        NewGroup {
            name: "rustaceans".to_string(),
            description: None,
            owner_id: u1.user.id,
            join_type: "open".to_string(),
        },
        0,
    );

    let owner = AuthenticatedUser { id: u1.user.id };
    let other = AuthenticatedUser { id: u2.user.id };

    assert!(authorization::auth_middleware(&dir, &owner, "rustaceans").is_ok());
    assert_eq!(
        authorization::auth_middleware(&dir, &other, "rustaceans").unwrap_err(),
        AppError::Forbidden
    );
    assert_eq!(
        authorization::auth_middleware(&dir, &owner, "no-such-group").unwrap_err(),
        AppError::NotFound
    );
}

#[test]
fn test_refresh_flow() {
    let mut dir = Directory::new();
    let mgr = JwtManager::new("refresh_secret");
    let created = register_one(&mut dir, &mgr, "refresh@user.com", "refreshuser");
    let now: u64 = 1_700_000_000;

    let refresh = mgr.generate_refresh_token_at(created.user.id, now);
    let resp = refresh_token_handler(
        &dir,
        &mgr,
        RefreshTokenRequest { refresh_token: refresh },
        now + 10,
    )
    .unwrap();
    assert_eq!(resp.expires_in, 900);
    let claims = mgr.verify_access_token(&resp.access_token).unwrap();
    assert_eq!(claims.user_id().unwrap(), created.user.id);

    // An access token is not accepted for refresh.
    let access = mgr.generate_access_token_at(created.user.id, now);
    assert_eq!(
        refresh_token_handler(&dir, &mgr, RefreshTokenRequest { refresh_token: access }, now)
            .unwrap_err(),
        AppError::Unauthorized
    );

    // Garbage is not accepted either.
    assert_eq!(
        refresh_token_handler(
            &dir,
            &mgr,
            RefreshTokenRequest { refresh_token: "nonsense".to_string() },
            now
        )
        .unwrap_err(),
        AppError::Unauthorized
    );
}

#[test]
fn test_me_and_logout() {
    let mut dir = Directory::new();
    let mgr = JwtManager::new("me_secret");
    let created = register_one(&mut dir, &mgr, "me@user.com", "meuser");

    let me = me_handler(&dir, AuthenticatedUser { id: created.user.id }).unwrap();
    assert_eq!(me.email, "me@user.com");
    assert_eq!(me.username, "meuser");

    let ghost_id = UuidUtils::generate();
    if ghost_id != created.user.id {
        assert_eq!(
            me_handler(&dir, AuthenticatedUser { id: ghost_id }).unwrap_err(),
            AppError::Unauthorized
        );
    }

    let bye = logout_handler().unwrap();
    assert_eq!(bye.message, "Successfully logged out");
}

#[test]
fn test_base64url_codec() {
    let bytes: Vec<u8> = vec![77, 97, 110];
    let encoded = b64_encode(&bytes);
    let encoded_str: String = encoded.iter().collect();
    assert_eq!(encoded_str, "TWFu");
    let decoded = b64_decode(&encoded).unwrap();
    assert_eq!(decoded, bytes);

    // Unpadded tails round-trip as well.
    let two: Vec<u8> = vec![0xff, 0x01];
    let enc2 = b64_encode(&two);
    assert_eq!(b64_decode(&enc2).unwrap(), two);

    // Non-canonical trailing bits are rejected.
    let bad: Vec<char> = vec!['T', 'W'];
    assert!(b64_decode(&bad).is_none());
    // A stray padding character is not part of the alphabet.
    let padded: Vec<char> = vec!['T', 'W', 'E', '='];
    assert!(b64_decode(&padded).is_none());
}

#[test]
fn test_user_id_rendering_roundtrip() {
    let id = UserId { hi: 0x0123456789abcdef, lo: 0xfedcba9876543210 };
    let rendered = id.to_string();
    assert_eq!(rendered, "01234567-89ab-cdef-fedc-ba9876543210");
    assert_eq!(UserId::parse(&rendered), Some(id));
    // Uppercase digits are accepted too.
    assert_eq!(UserId::parse("01234567-89AB-CDEF-FEDC-BA9876543210"), Some(id));
    // Misplaced hyphens are not.
    assert_eq!(UserId::parse("0123456789-ab-cdef-fedc-ba9876543210"), None);
}

#[test]
fn test_user_id_alternate_forms() {
    let id = UserId { hi: 0x0123456789abcdef, lo: 0xfedcba9876543210 };
    // The simple, braced and URN forms all denote the same identifier.
    assert_eq!(UserId::parse("0123456789abcdeffedcba9876543210"), Some(id));
    assert_eq!(UserId::parse("{01234567-89ab-cdef-fedc-ba9876543210}"), Some(id));
    assert_eq!(UserId::parse("urn:uuid:01234567-89ab-cdef-fedc-ba9876543210"), Some(id));
    assert_eq!(UserId::parse("URN:UUID:01234567-89ab-cdef-fedc-ba9876543210"), Some(id));
    assert!(UserId::parse("67e5504410b1426f9247bb680e5fe0c8").is_some());
    // A brace without its partner, or a wrong prefix, is rejected.
    assert_eq!(UserId::parse("{01234567-89ab-cdef-fedc-ba9876543210)"), None);
    assert_eq!(UserId::parse("urn:guid:01234567-89ab-cdef-fedc-ba9876543210"), None);
}

#[test]
fn test_login_with_corrupt_digest_is_internal() {
    // An account whose stored digest is not a PHC string: the password
    // check cannot even run, and the failure surfaces as a generic
    // internal error, not a validation error.
    let mut dir = Directory::new();
    let id = UuidUtils::generate();
    dir.create_account(
        NewUser {
            email: "corrupt@user.com".to_string(),
            username: "corruptuser".to_string(),
            password_hash: "not a phc digest".to_string(),
            bio: None,
            image_url: None,
        },
        id,
        0,
    );
    let mgr = JwtManager::new("flow_secret");
    let attempt = LoginRequest {
        email: "corrupt@user.com".to_string(),
        password: "Str0ng!Pass".to_string(),
    };
    match login_handler(&dir, &mgr, attempt) {
        Err(AppError::Internal(_)) => (),
        other => panic!("expected an internal error, got {:?}", other.is_ok()),
    }
}
