//! HTTP basic authentication.
pub mod basic_auth;
