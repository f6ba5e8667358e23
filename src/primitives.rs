//! The cryptographic primitives: Argon2id, AES-256-GCM, Ed25519 and the
//! operating system's random source.

use vstd::prelude::*;

verus! {

/// Argon2id, version 0x13, of `passphrase` and `salt` with the given memory
/// (KiB), time and lane costs, `out_len` bytes long.
pub uninterp spec fn argon2id_v13(
    passphrase: Seq<u8>,
    salt: Seq<u8>,
    m_cost: u32,
    t_cost: u32,
    p_cost: u32,
    out_len: nat,
) -> Seq<u8>;

/// AES-256-GCM encryption of `plaintext` under `key` and `nonce`, with no
/// associated data: the ciphertext followed by the 16-byte tag.
pub uninterp spec fn aes256gcm_seal(key: Seq<u8>, nonce: Seq<u8>, plaintext: Seq<u8>) -> Seq<u8>;

/// AES-256-GCM decryption: the plaintext when the tag authenticates
/// `ciphertext` under `key` and `nonce`, nothing otherwise.
pub uninterp spec fn aes256gcm_open(key: Seq<u8>, nonce: Seq<u8>, ciphertext: Seq<u8>) -> Option<Seq<u8>>;

/// The Ed25519 public key of a 32-byte seed.
pub uninterp spec fn ed25519_public(seed: Seq<u8>) -> Seq<u8>;

/// The Ed25519 signature of `message` by the key of a 32-byte seed.
pub uninterp spec fn ed25519_signature(seed: Seq<u8>, message: Seq<u8>) -> Seq<u8>;

/// The inputs that argon2 0.5 accepts: `Params::new` and
/// `hash_password_into` return an error exactly outside these bounds.
pub open spec fn argon2_accepts(
    m_cost: u32,
    t_cost: u32,
    p_cost: u32,
    passphrase_len: nat,
    salt_len: nat,
    out_len: nat,
) -> bool {
    &&& m_cost >= 8
    &&& m_cost >= 8 * p_cost
    &&& t_cost >= 1
    &&& 1 <= p_cost
    &&& 4 <= out_len <= 0xFFFF_FFFF
    &&& passphrase_len <= 0xFFFF_FFFF
    &&& 8 <= salt_len <= 0xFFFF_FFFF
}

/// argon2's `Error`, carried opaquely to its message.
#[verifier::external_type_specification]
#[verifier::external_body]
pub struct ExArgon2Error(argon2::Error);

/// aead's `Error` (as aes-gcm re-exports it), which carries no detail.
#[verifier::external_type_specification]
#[verifier::external_body]
pub struct ExAeadError(aes_gcm::Error);

/// rand's `Error`, carried opaquely to its message.
#[verifier::external_type_specification]
#[verifier::external_body]
pub struct ExRandError(rand::Error);

/// Largest plaintext that aes-gcm seals (`P_MAX`, 2^36 bytes).
pub const AES_GCM_P_MAX: u64 = 0x10_0000_0000;

/// Relies on argon2's `Params::new(m_cost, t_cost, p_cost, Some(out.len()))`
/// and `Argon2::hash_password_into` with `Algorithm::Argon2id` and
/// `Version::V0x13`: the hash fills `out` when the inputs are within argon2's
/// bounds, and nothing is hashed otherwise. `Params::new` multiplies `p_cost`
/// by 8 before bounding it, hence the `requires`.
#[verifier::external_body]
pub(crate) fn argon2id_hash_into(
    passphrase: &[u8],
    salt: &[u8],
    m_cost: u32,
    t_cost: u32,
    p_cost: u32,
    out: &mut [u8],
) -> (r: Result<(), argon2::Error>)
    requires
        p_cost <= 0xFF_FFFF,
    ensures
        r is Ok == argon2_accepts(m_cost, t_cost, p_cost, passphrase@.len(), salt@.len(), old(out)@.len()),
        r is Ok ==> final(out)@ == argon2id_v13(passphrase@, salt@, m_cost, t_cost, p_cost, old(out)@.len()),
        final(out)@.len() == old(out)@.len(),
{
    let params = argon2::Params::new(m_cost, t_cost, p_cost, Some(out.len()))?;
    argon2::Argon2::new(argon2::Algorithm::Argon2id, argon2::Version::V0x13, params).hash_password_into(
        passphrase,
        salt,
        out,
    )
}

/// Relies on the `Display` of argon2's `Error`, which names the parameter or
/// input that is out of bounds.
#[verifier::external_body]
pub(crate) fn argon2_error_message(e: &argon2::Error) -> String {
    e.to_string()
}

/// Relies on aes-gcm's `Aes256Gcm` through aead's `Aead::encrypt`, with no
/// associated data. It refuses only plaintexts over `P_MAX`; the output is
/// the ciphertext and the 16-byte tag, which `Aead::decrypt` under the same
/// key and nonce turns back into the plaintext.
#[verifier::external_body]
pub(crate) fn aes256gcm_encrypt(key: &[u8], nonce: &[u8], plaintext: &[u8]) -> (r: Result<Vec<u8>, aes_gcm::Error>)
    requires
        key@.len() == 32,
        nonce@.len() == 12,
    ensures
        r is Ok <==> plaintext@.len() <= AES_GCM_P_MAX,
        r matches Ok(c) ==> {
            &&& c@ == aes256gcm_seal(key@, nonce@, plaintext@)
            &&& c@.len() == plaintext@.len() + 16
            &&& aes256gcm_open(key@, nonce@, c@) == Some(plaintext@)
        },
{
    let cipher = <aes_gcm::Aes256Gcm as aes_gcm::aead::KeyInit>::new(
        aes_gcm::Key::<aes_gcm::Aes256Gcm>::from_slice(key),
    );
    aes_gcm::aead::Aead::encrypt(&cipher, aes_gcm::Nonce::from_slice(nonce), plaintext)
}

/// Relies on aes-gcm's `Aes256Gcm` through aead's `Aead::decrypt`, with no
/// associated data: the plaintext when the tag authenticates, an error
/// otherwise.
#[verifier::external_body]
pub(crate) fn aes256gcm_decrypt(key: &[u8], nonce: &[u8], ciphertext: &[u8]) -> (r: Result<Vec<u8>, aes_gcm::Error>)
    requires
        key@.len() == 32,
        nonce@.len() == 12,
    ensures
        match r {
            Ok(p) => aes256gcm_open(key@, nonce@, ciphertext@) == Some(p@),
            Err(_) => aes256gcm_open(key@, nonce@, ciphertext@) is None,
        },
{
    let cipher = <aes_gcm::Aes256Gcm as aes_gcm::aead::KeyInit>::new(
        aes_gcm::Key::<aes_gcm::Aes256Gcm>::from_slice(key),
    );
    aes_gcm::aead::Aead::decrypt(&cipher, aes_gcm::Nonce::from_slice(nonce), ciphertext)
}

/// ed25519-dalek's `SignatureError`, carried opaquely.
#[verifier::external_type_specification]
#[verifier::external_body]
pub struct ExSignatureError(ed25519_dalek::SignatureError);

/// Relies on ed25519-dalek's `SigningKey::try_from(&[u8])`, which refuses
/// exactly the slices that are not 32 bytes long, and
/// `SigningKey::verifying_key`: the 32-byte public key of the seed. The key
/// erases itself on drop.
#[verifier::external_body]
pub(crate) fn ed25519_public_key(seed: &[u8]) -> (r: Result<Vec<u8>, ed25519_dalek::SignatureError>)
    ensures
        r is Ok <==> seed@.len() == 32,
        r matches Ok(pk) ==> pk@ == ed25519_public(seed@) && pk@.len() == 32,
{
    let key = ed25519_dalek::SigningKey::try_from(seed)?;
    Ok(key.verifying_key().to_bytes().to_vec())
}

/// Relies on ed25519-dalek's `SigningKey::try_from(&[u8])`, which refuses
/// exactly the slices that are not 32 bytes long, and `Signer::sign`: the
/// 64-byte signature of `message`, computed over the bytes as given. The key
/// erases itself on drop.
#[verifier::external_body]
pub(crate) fn ed25519_sign(seed: &[u8], message: &[u8]) -> (r: Result<Vec<u8>, ed25519_dalek::SignatureError>)
    ensures
        r is Ok <==> seed@.len() == 32,
        r matches Ok(sig) ==> sig@ == ed25519_signature(seed@, message@) && sig@.len() == 64,
{
    let key = ed25519_dalek::SigningKey::try_from(seed)?;
    Ok(ed25519_dalek::Signer::sign(&key, message).to_bytes().to_vec())
}

/// Relies on rand's `OsRng` through `RngCore::try_fill_bytes`: the buffer is
/// filled from the operating system's generator, or an error is reported.
/// Nothing is promised of the bytes.
#[verifier::external_body]
pub(crate) fn fill_random(buf: &mut [u8]) -> (r: Result<(), rand::Error>)
    ensures
        final(buf)@.len() == old(buf)@.len(),
{
    rand::RngCore::try_fill_bytes(&mut rand::rngs::OsRng, buf)
}

/// Relies on the `Display` of rand's `Error`, which describes the failure of
/// the operating system's generator.
#[verifier::external_body]
pub(crate) fn random_error_message(e: &rand::Error) -> String {
    e.to_string()
}

} // verus!
