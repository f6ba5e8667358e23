//! Errors of the signer. No message carries key material: at most a length
//! or an encoding layer's description.

use vstd::prelude::*;

verus! {

/// What went wrong, without the accompanying message.
#[derive(Debug, Clone, Copy, PartialEq, Eq, Structural)]
pub enum ErrorKind {
    MemoryLockFailed,
    KeyDerivationFailed,
    DecryptionFailed,
    InvalidKeyFormat(usize),
    SigningFailed,
    InvalidTransaction,
    SerializationError,
    Base58Error,
    Base64Error,
    ContainerError,
    IoError,
}

/// Errors that can occur during signing operations.
#[derive(Debug)]
pub enum SignerError {
    /// Memory could not be pinned while the policy asks for pinned memory.
    MemoryLockFailed(String),
    /// The key derivation function rejected its parameters or inputs.
    KeyDerivationFailed(String),
    /// Authentication failed: wrong passphrase or altered container.
    DecryptionFailed,
    /// A key of the wrong length; the offending length.
    InvalidKeyFormat(usize),
    /// A signature or encryption primitive failed.
    SigningFailed(String),
    /// The payload to sign has an unusable shape.
    InvalidTransaction(String),
    /// Structured output could not be produced.
    SerializationError(String),
    /// Base58 text could not be decoded.
    Base58Error(String),
    /// Base64 text could not be decoded.
    Base64Error(String),
    /// The container text is not a container.
    ContainerError(String),
    /// A read or write outside the library failed.
    IoError(String),
}

impl SignerError {
    pub open spec fn spec_kind(&self) -> ErrorKind {
        match self {
            SignerError::MemoryLockFailed(_) => ErrorKind::MemoryLockFailed,
            SignerError::KeyDerivationFailed(_) => ErrorKind::KeyDerivationFailed,
            SignerError::DecryptionFailed => ErrorKind::DecryptionFailed,
            SignerError::InvalidKeyFormat(n) => ErrorKind::InvalidKeyFormat(*n),
            SignerError::SigningFailed(_) => ErrorKind::SigningFailed,
            SignerError::InvalidTransaction(_) => ErrorKind::InvalidTransaction,
            SignerError::SerializationError(_) => ErrorKind::SerializationError,
            SignerError::Base58Error(_) => ErrorKind::Base58Error,
            SignerError::Base64Error(_) => ErrorKind::Base64Error,
            SignerError::ContainerError(_) => ErrorKind::ContainerError,
            SignerError::IoError(_) => ErrorKind::IoError,
        }
    }

    /// The kind of this error.
    #[verifier::when_used_as_spec(spec_kind)]
    pub fn kind(&self) -> (k: ErrorKind)
        ensures
            k == self.spec_kind(),
    {
        match self {
            SignerError::MemoryLockFailed(_) => ErrorKind::MemoryLockFailed,
            SignerError::KeyDerivationFailed(_) => ErrorKind::KeyDerivationFailed,
            SignerError::DecryptionFailed => ErrorKind::DecryptionFailed,
            SignerError::InvalidKeyFormat(n) => ErrorKind::InvalidKeyFormat(*n),
            SignerError::SigningFailed(_) => ErrorKind::SigningFailed,
            SignerError::InvalidTransaction(_) => ErrorKind::InvalidTransaction,
            SignerError::SerializationError(_) => ErrorKind::SerializationError,
            SignerError::Base58Error(_) => ErrorKind::Base58Error,
            SignerError::Base64Error(_) => ErrorKind::Base64Error,
            SignerError::ContainerError(_) => ErrorKind::ContainerError,
            SignerError::IoError(_) => ErrorKind::IoError,
        }
    }
}

} // verus!
