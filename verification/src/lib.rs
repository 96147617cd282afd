//! StudySphere authentication core: credential hashing, signed session
//! tokens, request authentication, and the registration/login flows,
//! together with the small utility layer the handlers share.

use vstd::prelude::*;

pub mod errors;
pub mod text;
pub mod validation;
pub mod helpers;
pub mod ids;
pub mod b64;
pub mod claims;
pub mod jwt;
pub mod account;
pub mod middleware;
pub mod auth;
