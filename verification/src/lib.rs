//! A signature registry: fingerprint records tied to files, looked up by
//! exact value, with a tallying upsert on write and an API-key guard in
//! front of it.
//!
//! - [`signature`]: the fingerprint record and what makes two records state
//!   the same fact.
//! - [`store`]: the signature table, with count, fetch, search and the
//!   batch upsert.
//! - [`laws`]: what holds of the table whatever is submitted or searched.
//! - [`hex`]: hexadecimal rendering of key tokens.
//! - [`key`]: API keys and the key table.
//! - [`gate`]: the decision whether a request may write.
//! - [`service`]: the registry's operations as its callers see them.
//! - [`error`]: the kinds of failure and the envelope they are sent in.

pub mod error;
pub mod gate;
pub mod hex;
pub mod key;
pub mod laws;
pub mod service;
pub mod signature;
pub mod store;
