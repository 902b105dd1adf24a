//! The network-scoped certificate and application authorization chain.
//!
//! A signature always covers the exact bytes that were received: every format here has one
//! encoding per value, so the bytes that were parsed are the bytes that were signed.
pub mod acceptance;
pub mod admin;
pub mod app;
pub mod endpoint;
pub mod join;
pub mod keys;
pub mod member;
