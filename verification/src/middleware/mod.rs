//! Request gating: session authentication and the group ownership gate.

pub mod auth;
pub mod authorization;
