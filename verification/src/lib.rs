//! Verified core of an end-to-end encrypted shared space.

pub mod auth_challenge;
pub mod changelog;
pub mod channel_grant;
pub mod conn_limiter;
pub mod crypto;
pub mod crypto_laws;
pub mod encoding;
pub mod error_text;
pub mod keys;
pub mod ops;
pub mod persistence;
pub mod query;
pub mod stark_laws;
pub mod stark_proofs;
pub mod text;
pub mod text_map;
pub mod transitions;
pub mod tree_keys;
pub mod tree_laws;
pub mod tree_space_key;
