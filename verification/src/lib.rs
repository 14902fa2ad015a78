//! A local, single-user encrypted credential vault.
//!
//! A master password unlocks a per-account database of named
//! username/password entries. The database is serialized to a canonical
//! byte form, sealed in an authenticated-encryption envelope under a
//! random data key, and that data key is in turn wrapped under a key
//! derived from the master password, so the whole account lives in one
//! opaque file image. This crate holds the storage engine itself: the
//! envelope format, key derivation and key wrapping, the in-memory
//! database, and the session state machine that owns the unlocked key.
//! Reading and writing the account file, and everything else around the
//! engine, is left to the embedding application.

pub mod codec;
pub mod cryptography;
pub mod database;
pub mod error;
pub mod session;
pub mod text;
