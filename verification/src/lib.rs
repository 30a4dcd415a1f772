//! Verified core of a small collection of Rust utilities: word substitution
//! by an alternating group of words, salted digests and ID-token checks for
//! a stateless OpenID Connect session, PostgreSQL connection setup, path
//! expansion and dataset helpers.

pub mod digest;
pub mod text;
pub mod words;
pub mod substitution;
pub mod group;
pub mod session;
pub mod pg;
pub mod dataset;
pub mod id_token;
