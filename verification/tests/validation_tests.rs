use studysphere::validation::{
    EmailUtils, PasswordUtils, TextUtils, UsernameUtils, validate_password_match,
};

#[test]
fn test_password_hashing() {
    let password = "TestPassword123!";
    let hash = PasswordUtils::hash_password(password).unwrap();

    assert_ne!(hash, password);
    assert!(hash.len() > 0);

    // Verify the password
    assert!(PasswordUtils::verify_password(password, &hash).unwrap());
    assert!(!PasswordUtils::verify_password("wrong_password", &hash).unwrap());
}

#[test]
fn test_password_strength_validation() {
    // Valid password
    assert!(PasswordUtils::validate_password_strength("StrongPass123!").is_ok());

    // Too short
    assert!(PasswordUtils::validate_password_strength("short").is_err());

    // No uppercase
    assert!(PasswordUtils::validate_password_strength("lowercase123!").is_err());

    // No lowercase
    assert!(PasswordUtils::validate_password_strength("UPPERCASE123!").is_err());

    // No digits
    assert!(PasswordUtils::validate_password_strength("NoDigitsHere!").is_err());

    // No special characters
    assert!(PasswordUtils::validate_password_strength("NoSpecialChars123").is_err());

    // Too long
    let long_password = "a".repeat(129);
    assert!(PasswordUtils::validate_password_strength(&long_password).is_err());
}

#[test]
fn test_email_validation() {
    // Valid emails
    assert!(EmailUtils::is_valid_email("user@example.com"));
    assert!(EmailUtils::is_valid_email("test.email+tag@domain.co.uk"));
    assert!(EmailUtils::is_valid_email("user123@test-domain.org"));

    // Invalid emails
    assert!(!EmailUtils::is_valid_email("invalid.email"));
    assert!(!EmailUtils::is_valid_email("@domain.com"));
    assert!(!EmailUtils::is_valid_email("user@"));
    assert!(!EmailUtils::is_valid_email("user@domain"));
    assert!(!EmailUtils::is_valid_email(""));

    // Too long email
    let long_email = format!("{}@example.com", "a".repeat(250));
    assert!(!EmailUtils::is_valid_email(&long_email));
}

#[test]
fn test_email_normalization() {
    assert_eq!(EmailUtils::normalize_email("  User@Example.COM  "), "user@example.com");
    assert_eq!(EmailUtils::normalize_email("TEST@DOMAIN.ORG"), "test@domain.org");
}

#[test]
fn test_username_validation() {
    // Valid usernames
    assert!(UsernameUtils::is_valid_username("user123"));
    assert!(UsernameUtils::is_valid_username("test_user"));
    assert!(UsernameUtils::is_valid_username("my-username"));
    assert!(UsernameUtils::is_valid_username("abc"));

    // Invalid usernames
    assert!(!UsernameUtils::is_valid_username("ab")); // Too short
    assert!(!UsernameUtils::is_valid_username("user@domain")); // Invalid characters
    assert!(!UsernameUtils::is_valid_username("user name")); // Space
    assert!(!UsernameUtils::is_valid_username("")); // Empty
}

#[test]
fn test_username_character_validation() {
    assert!(UsernameUtils::validate_username_characters("valid_user").is_ok());
    assert!(UsernameUtils::validate_username_characters("user-123").is_ok());

    assert!(UsernameUtils::validate_username_characters("").is_err());
    assert!(UsernameUtils::validate_username_characters("ab").is_err());
    assert!(UsernameUtils::validate_username_characters("user@domain").is_err());
}

#[test]
fn test_text_sanitization() {
    assert_eq!(TextUtils::sanitize_text("  hello world  ", 100), "hello world");
    assert_eq!(TextUtils::sanitize_text("very long text", 5), "very ");
    assert_eq!(TextUtils::sanitize_text("", 10), "");
}

#[test]
fn test_html_escaping() {
    assert_eq!(
        TextUtils::escape_html("<script>alert('xss')</script>"),
        "&lt;script&gt;alert(&#39;xss&#39;)&lt;/script&gt;"
    );
    assert_eq!(
        TextUtils::escape_html("\"quoted\" & 'apostrophe'"),
        "&quot;quoted&quot; &amp; &#39;apostrophe&#39;"
    );
}

#[test]
fn test_safe_text() {
    assert!(TextUtils::is_safe_text("Hello World 123!"));
    assert!(TextUtils::is_safe_text("Test with spaces and punctuation."));
    assert!(!TextUtils::is_safe_text("Text with \x00 null byte"));
}

#[test]
fn test_password_match_validation() {
    assert!(validate_password_match("password123", "password123").is_ok());
    assert!(validate_password_match("password123", "different").is_err());
}

#[test]
fn test_salted_hashes_differ_but_both_verify() {
    let password = "Same-Password-9";
    let h1 = PasswordUtils::hash_password(password).unwrap();
    let h2 = PasswordUtils::hash_password(password).unwrap();
    assert_ne!(h1, h2);
    assert!(PasswordUtils::verify_password(password, &h1).unwrap());
    assert!(PasswordUtils::verify_password(password, &h2).unwrap());
}

#[test]
fn test_verify_password_malformed_digest() {
    assert!(PasswordUtils::verify_password("whatever", "not a phc string").is_err());
}

#[test]
fn test_password_strength_messages() {
    let errs = PasswordUtils::validate_password_strength("short").unwrap_err();
    assert!(errs.contains(&"Password must be at least 8 characters long".to_string()));
    assert!(errs.contains(&"Password must contain at least one uppercase letter".to_string()));
    assert!(errs.contains(&"Password must contain at least one digit".to_string()));
    assert!(errs.contains(&"Password must contain at least one special character".to_string()));
}
