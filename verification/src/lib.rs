//! Verified core of a small service that resolves the Canvas media URL of a
//! Spotify track: request validation, configuration rules, the TOTP key
//! derivation and catalog selection, the token and secret caching decisions,
//! the protobuf wire format of the Canvas endpoint, and the mapping of every
//! failure to an HTTP reply.

pub mod api;
pub mod config;
pub mod error;
pub mod spotify;

pub mod decimal;
pub mod header;
pub mod text;
pub mod wire;
