//! Error taxonomy of the authentication core.
//!
//! The variants map onto the HTTP statuses the surrounding layer answers
//! with: bad input (400), missing or unusable credentials (401), a caller
//! who is authenticated but not the owner (403), an absent resource (404),
//! and wrapped internal failures (500).

use vstd::prelude::*;

verus! {

/// Application-level error returned by every fallible operation of the core.
#[derive(Debug, Clone, PartialEq, Eq)]
pub enum AppError {
    /// Bad or conflicting input; carries the accumulated message.
    ValidationError(String),
    /// Missing, malformed, expired or otherwise unverifiable credentials,
    /// or a subject that no longer exists.
    Unauthorized,
    /// Authenticated, but not the owner of the referenced resource.
    Forbidden,
    /// The referenced resource does not exist.
    NotFound,
    /// Internal failure of a collaborator, surfaced without detail.
    Internal(String),
}

impl AppError {
    /// The HTTP status the surrounding layer answers with for this
    /// error: 400 for bad input, 401 for unusable credentials, 403 for a
    /// non-owner, 404 for an absent resource, 500 for internal failures.
    pub fn status_code(&self) -> (r: u16)
        ensures
            self is ValidationError ==> r == 400,
            self is Unauthorized ==> r == 401,
            self is Forbidden ==> r == 403,
            self is NotFound ==> r == 404,
            self is Internal ==> r == 500,
    {
        match self {
            AppError::ValidationError(_) => 400,
            AppError::Unauthorized => 401,
            AppError::Forbidden => 403,
            AppError::NotFound => 404,
            AppError::Internal(_) => 500,
        }
    }

    /// The user-visible message for this error, mirroring how the HTTP
    /// layer renders each variant.
    pub fn message(&self) -> (r: String)
        ensures
            self is ValidationError ==> r@ == self->ValidationError_0@,
            self is Unauthorized ==> r@ == "Unauthorized"@,
            self is Forbidden ==> r@ == "Forbidden"@,
            self is NotFound ==> r@ == "Resource not found"@,
            self is Internal ==> r@ == self->Internal_0@,
    {
        match self {
            AppError::ValidationError(m) => m.clone(),
            AppError::Unauthorized => "Unauthorized".to_owned(),
            AppError::Forbidden => "Forbidden".to_owned(),
            AppError::NotFound => "Resource not found".to_owned(),
            AppError::Internal(m) => m.clone(),
        }
    }
}

/// Error of the token service alone: every verification failure collapses
/// to this single variant so callers cannot distinguish the cause.
#[derive(Debug, Clone, Copy, PartialEq, Eq, Structural)]
pub enum TokenError {
    /// Signature invalid, expiry in the past, kind mismatch, or
    /// structurally malformed input.
    InvalidToken,
}

} // verus!
