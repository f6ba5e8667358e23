//! The signer's operations on text arguments, as a command line or a foreign
//! caller passes them: keys in base58, payloads in base64, containers as
//! text. Decoded key bytes are erased before returning.

use vstd::prelude::*;
use vstd::string::StringSliceAdditionalSpecFns;

use crate::container::{
    create_encrypted_key_container, decrypt_and_sign, holds_seed, opened_seed, seal_outcome, unseal_outcome, ContainerView,
    NONCE_SIZE, SALT_SIZE,
};
use crate::encoding::{
    base58_bytes, base58_error_message, base64_bytes, base64_error_message, decode_base58, decode_base64,
};
use crate::error::{ErrorKind, SignerError};
use crate::memory::{ordering_fence, wipe_vec};
use crate::secure_buffer::LockingMode;
use crate::signing::{
    decodes_as_signed, outcome, settles, sign_outcome, sign_transaction, SigningResult, SigningResultView, ED25519_KEYPAIR_SIZE,
    ED25519_SEED_SIZE,
};
use crate::text::{container_text, parse_text};

verus! {

/// Create a container for a base58 private key; returns its text.
pub fn create_container_from_base58(key_b58: &str, passphrase: &str, mode: LockingMode) -> (r: Result<
    String,
    SignerError,
>)
    ensures
        base58_bytes(key_b58@) is None ==> outcome(r) == Err::<Seq<char>, ErrorKind>(ErrorKind::Base58Error),
        base58_bytes(key_b58@) matches Some(key) ==> {
            &&& key.len() != ED25519_SEED_SIZE && key.len() != ED25519_KEYPAIR_SIZE ==> outcome(r) == Err::<
                Seq<char>,
                ErrorKind,
            >(ErrorKind::InvalidKeyFormat(key.len() as usize))
            &&& r matches Ok(s) ==> exists|c: ContainerView|
                {
                    &&& #[trigger] parse_text(s@) == Some(c)
                    &&& s@ == container_text(c)
                    &&& holds_seed(c, key.subrange(0, ED25519_SEED_SIZE as int), passphrase.spec_bytes())
                    &&& exists|salt: Seq<u8>, nonce: Seq<u8>|
                        salt.len() == SALT_SIZE && nonce.len() == NONCE_SIZE && seal_outcome(
                            key,
                            passphrase.spec_bytes(),
                            salt,
                            nonce,
                        ) == Ok::<ContainerView, ErrorKind>(c)
                }
            &&& r matches Err(e) ==> {
                ||| e.spec_kind() == ErrorKind::InvalidKeyFormat(key.len() as usize) && key.len() != ED25519_SEED_SIZE
                    && key.len() != ED25519_KEYPAIR_SIZE
                ||| e.spec_kind() == ErrorKind::KeyDerivationFailed && passphrase.spec_bytes().len() > 0xFFFF_FFFF
                ||| e.spec_kind() == ErrorKind::MemoryLockFailed && mode == LockingMode::Strict
                ||| e.spec_kind() == ErrorKind::SigningFailed
            }
        },
{
    let mut key = match decode_base58(key_b58) {
        Ok(k) => k,
        Err(e) => return Err(SignerError::Base58Error(base58_error_message(&e))),
    };
    let r = create_encrypted_key_container(key.as_slice(), passphrase, mode);
    wipe_vec(&mut key);
    ordering_fence();
    r
}

/// Sign a base64 payload with a container given as text.
pub fn sign_with_container(container_json: &str, passphrase: &str, transaction_b64: &str, mode: LockingMode) -> (r:
    Result<SigningResult, SignerError>)
    ensures
        base64_bytes(transaction_b64@) is None ==> outcome(r) == Err::<SigningResultView, ErrorKind>(
            ErrorKind::Base64Error,
        ),
        base64_bytes(transaction_b64@) matches Some(payload) ==> {
            &&& parse_text(container_json@) is None ==> outcome(r) == Err::<SigningResultView, ErrorKind>(
                ErrorKind::ContainerError,
            )
            &&& parse_text(container_json@) matches Some(c) ==> {
                &&& settles(outcome(r), unseal_outcome(c, passphrase.spec_bytes(), payload), mode)
                &&& r matches Ok(s) ==> (opened_seed(c, passphrase.spec_bytes()) matches Some(seed)
                    && decodes_as_signed(s@, seed, payload))
            }
        },
{
    let payload = match decode_base64(transaction_b64) {
        Ok(p) => p,
        Err(e) => return Err(SignerError::Base64Error(base64_error_message(&e))),
    };
    decrypt_and_sign(container_json, passphrase, payload.as_slice(), mode)
}

/// Sign a base64 message with a base58 private key given in the clear.
pub fn sign_direct(key_b58: &str, message_b64: &str, mode: LockingMode) -> (r: Result<SigningResult, SignerError>)
    ensures
        base58_bytes(key_b58@) is None ==> outcome(r) == Err::<SigningResultView, ErrorKind>(
            ErrorKind::Base58Error,
        ),
        base58_bytes(key_b58@) is Some && base64_bytes(message_b64@) is None ==> outcome(r) == Err::<
            SigningResultView,
            ErrorKind,
        >(ErrorKind::Base64Error),
        base58_bytes(key_b58@) matches Some(key) ==> (base64_bytes(message_b64@) matches Some(message) ==> {
            &&& settles(outcome(r), sign_outcome(key, message), mode)
            &&& r matches Ok(s) ==> decodes_as_signed(s@, key, message)
        }),
{
    let mut key = match decode_base58(key_b58) {
        Ok(k) => k,
        Err(e) => return Err(SignerError::Base58Error(base58_error_message(&e))),
    };
    let message = match decode_base64(message_b64) {
        Ok(m) => m,
        Err(e) => {
            wipe_vec(&mut key);
            ordering_fence();
            return Err(SignerError::Base64Error(base64_error_message(&e)));
        },
    };
    let r = sign_transaction(key.as_slice(), message.as_slice(), mode);
    wipe_vec(&mut key);
    ordering_fence();
    r
}

} // verus!
