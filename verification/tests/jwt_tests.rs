use studysphere::claims::{Claims, TokenType};
use studysphere::helpers::UuidUtils;
use studysphere::jwt::JwtManager;

#[test]
fn test_claims_creation() {
    let user_id = UuidUtils::generate();
    let claims = Claims::new(&user_id, TokenType::Access, 15);

    assert_eq!(claims.user_id().unwrap(), user_id);
    assert_eq!(claims.token_type, TokenType::Access);
    assert!(claims.exp > claims.iat);
}

#[test]
fn test_jwt_manager_access_token() {
    let manager = JwtManager::new("test_secret");
    let user_id = UuidUtils::generate();

    let token = manager.generate_access_token(user_id).unwrap();
    let claims = manager.verify_access_token(&token).unwrap();

    assert_eq!(claims.user_id().unwrap(), user_id);
    assert_eq!(claims.token_type, TokenType::Access);
}

#[test]
fn test_jwt_manager_refresh_token() {
    let manager = JwtManager::new("test_secret");
    let user_id = UuidUtils::generate();

    let token = manager.generate_refresh_token(user_id).unwrap();
    let claims = manager.verify_refresh_token(&token).unwrap();

    assert_eq!(claims.user_id().unwrap(), user_id);
    assert_eq!(claims.token_type, TokenType::Refresh);
}

#[test]
fn test_invalid_token_type() {
    let manager = JwtManager::new("test_secret");
    let user_id = UuidUtils::generate();

    let access_token = manager.generate_access_token(user_id).unwrap();
    let refresh_token = manager.generate_refresh_token(user_id).unwrap();

    // Try to verify access token as refresh token
    assert!(manager.verify_refresh_token(&access_token).is_err());

    // Try to verify refresh token as access token
    assert!(manager.verify_access_token(&refresh_token).is_err());
}

#[test]
fn test_invalid_secret() {
    let manager1 = JwtManager::new("secret1");
    let manager2 = JwtManager::new("secret2");
    let user_id = UuidUtils::generate();

    let token = manager1.generate_access_token(user_id).unwrap();

    // Token signed with different secret should fail verification
    assert!(manager2.verify_access_token(&token).is_err());
}

#[test]
fn test_expired_token() {
    let user_id = UuidUtils::generate();
    let expired_claims = Claims::new(&user_id, TokenType::Access, -3); // Already expired

    let manager = JwtManager::new("test_secret");
    let token = manager.encode_token(&expired_claims);

    // Expired token should fail verification
    assert!(manager.verify_access_token(&token).is_err());
}

#[test]
fn test_malformed_token() {
    let manager = JwtManager::new("test_secret");

    assert!(manager.verify_access_token("invalid.token.here").is_err());
    assert!(manager.verify_access_token("").is_err());
    assert!(manager.verify_access_token("not.a.jwt").is_err());
}

#[test]
fn test_expiry_boundary_is_strict() {
    let manager = JwtManager::new("test_secret");
    let user_id = UuidUtils::generate();
    let now: u64 = 1_700_000_000;
    let token = manager.generate_access_token_at(user_id, now);
    let exp = now + 900;

    // Valid through the expiry second itself, invalid one second later.
    assert!(manager.verify_access_token_at(&token, exp).is_ok());
    assert!(manager.verify_access_token_at(&token, exp + 1).is_err());
}

#[test]
fn test_token_one_second_past_expiry_rejected() {
    let manager = JwtManager::new("test_secret");
    let user_id = UuidUtils::generate();
    let now: u64 = 1_700_000_000;
    // Issued so that its expiry is one second in the past at `now`.
    let claims = Claims::new_at(&user_id, TokenType::Access, 0, now - 1);
    let token = manager.encode_token(&claims);
    assert_eq!(claims.exp, now - 1);
    assert!(manager.verify_access_token_at(&token, now).is_err());
}

#[test]
fn test_token_verifies_with_jsonwebtoken_crypto() {
    // The library's framing interoperates with the jsonwebtoken crate:
    // its own crypto accepts the signature over the first two parts.
    let manager = JwtManager::new("interop_secret");
    let user_id = UuidUtils::generate();
    let token = manager.generate_access_token_at(user_id, 1_700_000_000);

    let dot = token.rfind('.').unwrap();
    let (message, signature) = (&token[..dot], &token[dot + 1..]);
    let key = jsonwebtoken::DecodingKey::from_secret(b"interop_secret");
    let ok = jsonwebtoken::crypto::verify(
        signature,
        message.as_bytes(),
        &key,
        jsonwebtoken::Algorithm::HS256,
    )
    .unwrap();
    assert!(ok);
}

#[test]
fn test_tampered_token_rejected() {
    let manager = JwtManager::new("test_secret");
    let user_id = UuidUtils::generate();
    let token = manager.generate_access_token(user_id).unwrap();

    let mut tampered: String = token.clone();
    // Flip a character in the payload part.
    let dot = tampered.find('.').unwrap();
    let target = dot + 2;
    let orig = tampered.as_bytes()[target];
    let replacement = if orig == b'A' { 'B' } else { 'A' };
    tampered.replace_range(target..target + 1, &replacement.to_string());
    assert!(manager.verify_access_token(&tampered).is_err());
}
