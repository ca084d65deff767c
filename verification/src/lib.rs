//! A password-protected, persistent secret vault built on the
//! `iota_stronghold` encrypted-storage engine.
//!
//! The heart of the crate is the session layer in [`session`]: it caches the
//! key material derived from a user passphrase per snapshot file, tracks when
//! each snapshot was last used, evicts idle passwords on a configurable
//! interval, keeps at most one snapshot loaded in memory at a time and
//! persists-and-swaps when a caller switches snapshot files. Record and
//! procedure operations route through that one gate. The engine itself is
//! trusted, through the narrow bindings in [`engine`]; everything above it is
//! verified, and [`laws`] states the guarantees that span several operations.

pub mod engine;
pub mod error;
pub mod kdf;
pub mod laws;
pub mod session;
pub mod status;
pub mod stronghold;
pub mod table;
