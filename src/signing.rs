//! Key derivation and signing with a seed held in a `SecureBuffer`.

use vstd::prelude::*;

use crate::encoding::{base58_bytes, base58_text, base64_bytes, base64_text, encode_base58, encode_base64};
use crate::error::{ErrorKind, SignerError};
use crate::primitives::{
    argon2_accepts, argon2_error_message, argon2id_hash_into, argon2id_v13, ed25519_public, ed25519_public_key, ed25519_sign,
    ed25519_signature,
};
use crate::secure_buffer::{LockingMode, SecureBuffer};

verus! {

/// Argon2id memory cost in KiB (64 MiB). A fixed policy, not a setting.
pub const ARGON2_MEMORY_COST: u32 = 65536;

/// Argon2id iterations.
pub const ARGON2_TIME_COST: u32 = 3;

/// Argon2id lanes.
pub const ARGON2_PARALLELISM: u32 = 4;

/// Length of the derived AES-256 key.
pub const KEY_SIZE: usize = 32;

/// Length of an Ed25519 seed.
pub const ED25519_SEED_SIZE: usize = 32;

/// Length of an Ed25519 seed followed by its public key.
pub const ED25519_KEYPAIR_SIZE: usize = 64;

/// Shortest payload that is returned wrapped as a signed transaction.
pub const WRAP_MIN_PAYLOAD: usize = 3;

/// The outcome of a signing call.
pub struct SigningResult {
    /// The signature, base58.
    pub signature: String,
    /// One signature count byte, the signature and the payload, base64;
    /// present when the payload has at least three bytes.
    pub signed_transaction: Option<String>,
    /// The signer's public key, base58.
    pub public_key: String,
}

pub struct SigningResultView {
    pub signature: Seq<char>,
    pub signed_transaction: Option<Seq<char>>,
    pub public_key: Seq<char>,
}

impl View for SigningResult {
    type V = SigningResultView;

    open spec fn view(&self) -> SigningResultView {
        SigningResultView {
            signature: self.signature@,
            signed_transaction: match self.signed_transaction {
                Some(t) => Some(t@),
                None => None,
            },
            public_key: self.public_key@,
        }
    }
}

/// A result seen through views, its error through its kind.
pub open spec fn outcome<T: View>(r: Result<T, SignerError>) -> Result<T::V, ErrorKind> {
    match r {
        Ok(v) => Ok(v@),
        Err(e) => Err(e.spec_kind()),
    }
}

/// `actual` is `expected`, except that under `Strict` a refused memory pin
/// may have stopped the call first.
pub open spec fn settles<V>(actual: Result<V, ErrorKind>, expected: Result<V, ErrorKind>, mode: LockingMode) -> bool {
    actual == expected || (mode == LockingMode::Strict && actual == Err::<V, ErrorKind>(ErrorKind::MemoryLockFailed))
}

/// The derived key for a passphrase and salt, when argon2 accepts them.
pub open spec fn derived_key(passphrase: Seq<u8>, salt: Seq<u8>) -> Option<Seq<u8>> {
    if argon2_accepts(
        ARGON2_MEMORY_COST,
        ARGON2_TIME_COST,
        ARGON2_PARALLELISM,
        passphrase.len(),
        salt.len(),
        KEY_SIZE as nat,
    ) {
        Some(
            argon2id_v13(
                passphrase,
                salt,
                ARGON2_MEMORY_COST,
                ARGON2_TIME_COST,
                ARGON2_PARALLELISM,
                KEY_SIZE as nat,
            ),
        )
    } else {
        None
    }
}

/// The signed-transaction bytes: a count of one, the signature, the payload.
pub open spec fn wrapped_payload(signature: Seq<u8>, payload: Seq<u8>) -> Seq<u8> {
    seq![1u8] + signature + payload
}

/// What signing `payload` with a 32-byte `seed` returns.
pub open spec fn signed_view(seed: Seq<u8>, payload: Seq<u8>) -> SigningResultView {
    SigningResultView {
        signature: base58_text(ed25519_signature(seed, payload)),
        signed_transaction: if payload.len() >= WRAP_MIN_PAYLOAD {
            Some(base64_text(wrapped_payload(ed25519_signature(seed, payload), payload)))
        } else {
            None
        },
        public_key: base58_text(ed25519_public(seed)),
    }
}

/// What signing `payload` with the key bytes `seed` comes to.
pub open spec fn sign_outcome(seed: Seq<u8>, payload: Seq<u8>) -> Result<SigningResultView, ErrorKind> {
    if seed.len() == ED25519_SEED_SIZE {
        Ok(signed_view(seed, payload))
    } else {
        Err(ErrorKind::InvalidKeyFormat(seed.len() as usize))
    }
}

/// What a signing result decodes to: the signature and public key of `seed`
/// (64 and 32 bytes) from their base58 text, and the signed transaction,
/// when present, from its base64 text.
pub open spec fn decodes_as_signed(r: SigningResultView, seed: Seq<u8>, payload: Seq<u8>) -> bool {
    &&& base58_bytes(r.signature) == Some(ed25519_signature(seed, payload))
    &&& base58_bytes(r.public_key) == Some(ed25519_public(seed))
    &&& ed25519_signature(seed, payload).len() == 64
    &&& ed25519_public(seed).len() == 32
    &&& r.signed_transaction matches Some(t) ==> base64_bytes(t) == Some(
        wrapped_payload(ed25519_signature(seed, payload), payload),
    )
}

/// Derive the 32-byte AES key for `passphrase` and `salt` with Argon2id
/// (64 MiB, 3 passes, 4 lanes, version 0x13), in a `SecureBuffer` that the
/// caller erases after use.
pub fn derive_key(passphrase: &[u8], salt: &[u8], mode: LockingMode) -> (r: Result<SecureBuffer, SignerError>)
    ensures
        settles(
            outcome(r),
            match derived_key(passphrase@, salt@) {
                Some(k) => Ok(k),
                None => Err(ErrorKind::KeyDerivationFailed),
            },
            mode,
        ),
        r matches Ok(k) ==> k@.len() == KEY_SIZE && (mode == LockingMode::Strict ==> k.locked()),
{
    let mut key = match SecureBuffer::with_mode(KEY_SIZE, mode) {
        Ok(k) => k,
        Err(e) => return Err(e),
    };
    match argon2id_hash_into(
        passphrase,
        salt,
        ARGON2_MEMORY_COST,
        ARGON2_TIME_COST,
        ARGON2_PARALLELISM,
        key.as_mut_slice(),
    ) {
        Ok(()) => Ok(key),
        Err(e) => Err(SignerError::KeyDerivationFailed(argon2_error_message(&e))),
    }
}

/// Sign `payload` with the seed in `secure_key`.
///
/// The seed must be exactly 32 bytes. The signature covers the payload bytes
/// as given. The signed transaction is returned only for payloads of three
/// bytes or more; its base64 text decodes to `[1] ++ signature ++ payload`.
pub fn sign_with_secure_key(secure_key: &SecureBuffer, payload: &[u8]) -> (r: Result<SigningResult, SignerError>)
    ensures
        outcome(r) == sign_outcome(secure_key@, payload@),
        r matches Ok(s) ==> decodes_as_signed(s@, secure_key@, payload@),
{
    if secure_key.len() != ED25519_SEED_SIZE {
        return Err(SignerError::InvalidKeyFormat(secure_key.len()));
    }
    let seed = secure_key.as_slice();
    let pk = match ed25519_public_key(seed) {
        Ok(pk) => pk,
        Err(_) => return Err(SignerError::InvalidKeyFormat(secure_key.len())),
    };
    let public_key = encode_base58(pk.as_slice());
    let sig = match ed25519_sign(seed, payload) {
        Ok(sig) => sig,
        Err(_) => return Err(SignerError::InvalidKeyFormat(secure_key.len())),
    };
    let signature = encode_base58(sig.as_slice());
    let signed_transaction = if payload.len() >= WRAP_MIN_PAYLOAD {
        let mut wrapped: Vec<u8> = Vec::new();
        wrapped.push(1u8);
        append_bytes(&mut wrapped, sig.as_slice());
        append_bytes(&mut wrapped, payload);
        assert(wrapped@ =~= wrapped_payload(sig@, payload@));
        Some(encode_base64(wrapped.as_slice()))
    } else {
        None
    };
    let result = SigningResult { signature, signed_transaction, public_key };
    assert(result@ == signed_view(secure_key@, payload@));
    Ok(result)
}

/// Sign with a seed that the caller holds in plain memory: it is copied into
/// a `SecureBuffer` under `mode`, and erased there after signing. The
/// caller's own copy remains the caller's to erase.
pub fn sign_transaction(private_key: &[u8], payload: &[u8], mode: LockingMode) -> (r: Result<SigningResult, SignerError>)
    ensures
        settles(outcome(r), sign_outcome(private_key@, payload@), mode),
        r matches Ok(s) ==> decodes_as_signed(s@, private_key@, payload@),
{
    let mut secure_key = match SecureBuffer::from_slice_with_mode(private_key, mode) {
        Ok(b) => b,
        Err(e) => return Err(e),
    };
    let result = sign_with_secure_key(&secure_key, payload);
    secure_key.zeroize();
    result
}

/// Append `src` to `dst`.
pub fn append_bytes(dst: &mut Vec<u8>, src: &[u8])
    ensures
        final(dst)@ == old(dst)@ + src@,
{
    let n = src.len();
    let mut i: usize = 0;
    while i < n
        invariant
            n == src@.len(),
            i <= n,
            dst@ =~= old(dst)@ + src@.subrange(0, i as int),
        decreases n - i,
    {
        dst.push(src[i]);
        i = i + 1;
    }
    assert(src@.subrange(0, n as int) =~= src@);
}

} // verus!
