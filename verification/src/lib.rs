//! The cryptographic core of a local secrets vault.
//!
//! A master secret authenticates the user and wraps a single root key; the
//! root key protects the secret fields of the records; digests over the
//! stored parts of the vault show that a stored vault was damaged.
//!
//! - [`crypto`]: envelopes, sealed under key material of any strength.
//! - [`master_password`]: the authentication record.
//! - [`mek`]: the key-wrap record around the root key, and its rotation.
//! - [`password_entry`]: secret records, at rest and in use.
//! - [`storage`]: the vault store, which owns every change and every digest.
//! - [`canonical`]: the text that the digests are taken of.
//! - [`document`] and [`reading`]: the stored document, written and read.
//! - [`unambiguous`]: why equal texts mean equal vaults.
//! - [`session`]: the working set of an opened vault.
//! - [`config`]: the settings of the password generator, and the generator.
//! - [`error_handling`]: the one error type.
//! - [`primitives`] and [`platform`]: what is taken on trust from other
//!   crates.

pub mod canonical;
pub mod config;
pub mod crypto;
pub mod document;
pub mod error_handling;
pub mod master_password;
pub mod mek;
pub mod password_entry;
pub mod platform;
pub mod primitives;
pub mod reading;
pub mod session;
pub mod storage;
pub mod unambiguous;
