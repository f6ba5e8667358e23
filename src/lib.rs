//! A signing core that holds an Ed25519 seed only while it signs, in memory
//! that is pinned against swapping and erased on every exit path.
//!
//! A seed is kept at rest in an encrypted container: Argon2id turns a
//! passphrase and a random salt into an AES-256-GCM key, which seals the seed.
//! Signing decrypts the seed into a `SecureBuffer`, signs, and erases.

use vstd::prelude::*;

pub mod commands;
pub mod container;
pub mod encoding;
pub mod error;
pub mod memory;
pub mod primitives;
pub mod secure_buffer;
pub mod signing;
pub mod text;

pub use container::{create_encrypted_key_container, decrypt_and_sign, decrypt_container, EncryptedKeyContainer};
pub use error::{ErrorKind, SignerError};
pub use secure_buffer::{LockingMode, SecureBuffer, SecureGuard};
pub use signing::{sign_transaction, sign_with_secure_key, SigningResult};

verus! {

/// Library version.
pub const VERSION: &'static str = "0.1.0";

} // verus!
