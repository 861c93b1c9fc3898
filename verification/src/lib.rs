//! Verified core of a small CRUD API backend: password credential checking,
//! issuing and verifying signed bearer tokens, extracting an authenticated
//! identity from a request header, gating routes by role, and building
//! dynamic partial-update commands for the persistence layer.
//!
//! Everything that performs I/O (the HTTP server, the database pool, reading
//! the environment) lives outside this crate and hands plain values in.

pub mod error;
pub mod middleware;
pub mod numerals;
pub mod b64url;
pub mod auth;
pub mod claims;
pub mod date_format;
pub mod password;
pub mod config;
pub mod routes_api;
pub mod update;
pub mod user;
