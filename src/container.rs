//! The encrypted key container: one Ed25519 seed sealed with AES-256-GCM
//! under a key that Argon2id derives from a passphrase.

use vstd::prelude::*;
use vstd::slice::slice_subrange;
use vstd::string::StringSliceAdditionalSpecFns;

use crate::encoding::{
    base58_text, base64_bytes, base64_error_message, base64_text, decode_base64, encode_base58, encode_base64,
    is_base58_char, is_base64_char,
};
use crate::memory::{ordering_fence, wipe_vec};
use crate::error::{ErrorKind, SignerError};
use crate::primitives::{
    aes256gcm_decrypt, aes256gcm_encrypt, aes256gcm_open, aes256gcm_seal, ed25519_public, ed25519_public_key,
    fill_random, random_error_message,
};
use crate::secure_buffer::{LockingMode, SecureBuffer};
use crate::secure_buffer::push_decimal;
use crate::signing::{
    decodes_as_signed, derive_key, derived_key, outcome, settles, sign_outcome, sign_with_secure_key, signed_view, SigningResult,
    SigningResultView, ED25519_KEYPAIR_SIZE, ED25519_SEED_SIZE,
};
use crate::text::{container_text, is_plain, is_plain_container, lemma_read_written, parse_json, parse_text, push_json_string};

verus! {

/// The only container format version defined so far.
pub const CONTAINER_VERSION: u8 = 1;

/// Length of the Argon2id salt.
pub const SALT_SIZE: usize = 32;

/// Length of the AES-GCM nonce.
pub const NONCE_SIZE: usize = 12;

/// A seed at rest: salt and nonce as drawn, the sealed seed with its tag
/// (all base64), and the public key (base58) for checks out of band.
#[derive(Clone)]
pub struct EncryptedKeyContainer {
    pub version: u8,
    pub salt: String,
    pub nonce: String,
    pub ciphertext: String,
    pub public_key: Option<String>,
}

pub struct ContainerView {
    pub version: u8,
    pub salt: Seq<char>,
    pub nonce: Seq<char>,
    pub ciphertext: Seq<char>,
    pub public_key: Option<Seq<char>>,
}

impl View for EncryptedKeyContainer {
    type V = ContainerView;

    open spec fn view(&self) -> ContainerView {
        ContainerView {
            version: self.version,
            salt: self.salt@,
            nonce: self.nonce@,
            ciphertext: self.ciphertext@,
            public_key: match self.public_key {
                Some(p) => Some(p@),
                None => None,
            },
        }
    }
}

/// The container that sealing `seed` with `key` under `salt` and `nonce` gives.
pub open spec fn sealed_view(seed: Seq<u8>, key: Seq<u8>, salt: Seq<u8>, nonce: Seq<u8>) -> ContainerView {
    ContainerView {
        version: CONTAINER_VERSION,
        salt: base64_text(salt),
        nonce: base64_text(nonce),
        ciphertext: base64_text(aes256gcm_seal(key, nonce, seed)),
        public_key: Some(base58_text(ed25519_public(seed))),
    }
}

/// What encrypting `private_key` under `passphrase` with the given salt and
/// nonce comes to. Only the first 32 bytes (the seed) of a 64-byte keypair
/// are kept.
pub open spec fn seal_outcome(private_key: Seq<u8>, passphrase: Seq<u8>, salt: Seq<u8>, nonce: Seq<u8>) -> Result<
    ContainerView,
    ErrorKind,
> {
    if private_key.len() != ED25519_SEED_SIZE && private_key.len() != ED25519_KEYPAIR_SIZE {
        Err(ErrorKind::InvalidKeyFormat(private_key.len() as usize))
    } else {
        match derived_key(passphrase, salt) {
            None => Err(ErrorKind::KeyDerivationFailed),
            Some(k) => Ok(sealed_view(private_key.subrange(0, ED25519_SEED_SIZE as int), k, salt, nonce)),
        }
    }
}

/// Whether `passphrase` opens container `c`: its fields decode, and AES-GCM
/// authenticates the ciphertext under the key derived from `passphrase`.
pub open spec fn authenticates(c: ContainerView, passphrase: Seq<u8>) -> bool {
    match (base64_bytes(c.salt), base64_bytes(c.nonce), base64_bytes(c.ciphertext)) {
        (Some(salt), Some(nonce), Some(ct)) => {
            &&& nonce.len() == NONCE_SIZE
            &&& derived_key(passphrase, salt) matches Some(k)
            &&& aes256gcm_open(k, nonce, ct) is Some
        },
        _ => false,
    }
}

/// What decrypting container `c` with `passphrase` and signing `payload`
/// comes to. A failed authentication is `DecryptionFailed`, whatever its
/// cause.
pub open spec fn unseal_outcome(c: ContainerView, passphrase: Seq<u8>, payload: Seq<u8>) -> Result<
    SigningResultView,
    ErrorKind,
> {
    match (base64_bytes(c.salt), base64_bytes(c.nonce), base64_bytes(c.ciphertext)) {
        (Some(salt), Some(nonce), Some(ct)) => {
            if nonce.len() != NONCE_SIZE {
                Err(ErrorKind::ContainerError)
            } else {
                match derived_key(passphrase, salt) {
                    None => Err(ErrorKind::KeyDerivationFailed),
                    Some(k) => match aes256gcm_open(k, nonce, ct) {
                        None => Err(ErrorKind::DecryptionFailed),
                        Some(seed) => sign_outcome(seed, payload),
                    },
                }
            }
        },
        _ => Err(ErrorKind::Base64Error),
    }
}

/// Container `c` holds `seed` under `passphrase`: with that passphrase it
/// signs any payload as `seed` does; with any passphrase that does not
/// authenticate it, it fails as `DecryptionFailed` and in no other way.
pub open spec fn holds_seed(c: ContainerView, seed: Seq<u8>, passphrase: Seq<u8>) -> bool {
    &&& authenticates(c, passphrase)
    &&& forall|payload: Seq<u8>| #[trigger]
        unseal_outcome(c, passphrase, payload) == Ok::<SigningResultView, ErrorKind>(signed_view(seed, payload))
    &&& forall|other: Seq<u8>, payload: Seq<u8>|
        other.len() <= 0xFFFF_FFFF && !authenticates(c, other) ==> #[trigger] unseal_outcome(c, other, payload)
            == Err::<SigningResultView, ErrorKind>(ErrorKind::DecryptionFailed)
}

impl EncryptedKeyContainer {
    /// Seal `private_key` (a 32-byte seed, or a 64-byte keypair whose seed
    /// half is kept) under `passphrase`, with the given salt and nonce.
    pub fn encrypt_with(
        private_key: &[u8],
        passphrase: &str,
        salt: &[u8],
        nonce: &[u8],
        mode: LockingMode,
    ) -> (r: Result<EncryptedKeyContainer, SignerError>)
        requires
            salt@.len() == SALT_SIZE,
            nonce@.len() == NONCE_SIZE,
        ensures
            settles(outcome(r), seal_outcome(private_key@, passphrase.spec_bytes(), salt@, nonce@), mode),
            private_key@.len() != ED25519_SEED_SIZE && private_key@.len() != ED25519_KEYPAIR_SIZE ==> outcome(r)
                == Err::<ContainerView, ErrorKind>(ErrorKind::InvalidKeyFormat(private_key@.len() as usize)),
            r matches Ok(c) ==> {
                &&& base64_bytes(c.salt@) == Some(salt@)
                &&& base64_bytes(c.nonce@) == Some(nonce@)
                &&& base64_bytes(c.ciphertext@) matches Some(ct) && ct.len() == ED25519_SEED_SIZE + 16
                &&& derived_key(passphrase.spec_bytes(), salt@) matches Some(k) && base64_bytes(c.ciphertext@) == Some(
                    aes256gcm_seal(k, nonce@, private_key@.subrange(0, ED25519_SEED_SIZE as int)),
                )
            },
            r matches Ok(c) ==> is_plain_container(c@),
            r matches Ok(c) ==> holds_seed(
                c@,
                private_key@.subrange(0, ED25519_SEED_SIZE as int),
                passphrase.spec_bytes(),
            ),
    {
        if private_key.len() != ED25519_SEED_SIZE && private_key.len() != ED25519_KEYPAIR_SIZE {
            return Err(SignerError::InvalidKeyFormat(private_key.len()));
        }
        let seed = slice_subrange(private_key, 0, ED25519_SEED_SIZE);
        let mut secure_key = match SecureBuffer::from_slice_with_mode(seed, mode) {
            Ok(b) => b,
            Err(e) => return Err(e),
        };
        let mut derived = match derive_key(passphrase.as_bytes(), salt, mode) {
            Ok(k) => k,
            Err(e) => return Err(e),
        };
        let ciphertext = match aes256gcm_encrypt(derived.as_slice(), nonce, secure_key.as_slice()) {
            Ok(c) => c,
            Err(_) => return Err(SignerError::SigningFailed("Encryption failed".to_owned())),
        };
        let pk = match ed25519_public_key(secure_key.as_slice()) {
            Ok(pk) => pk,
            Err(_) => return Err(SignerError::InvalidKeyFormat(secure_key.len())),
        };
        let public_key = encode_base58(pk.as_slice());
        let ghost seed_view = secure_key@;
        let ghost key_view = derived@;
        secure_key.zeroize();
        derived.zeroize();
        let container = EncryptedKeyContainer {
            version: CONTAINER_VERSION,
            salt: encode_base64(salt),
            nonce: encode_base64(nonce),
            ciphertext: encode_base64(ciphertext.as_slice()),
            public_key: Some(public_key),
        };
        proof {
            let c = container@;
            assert(c == sealed_view(seed_view, key_view, salt@, nonce@));
            lemma_base64_plain(c.salt);
            lemma_base64_plain(c.nonce);
            lemma_base64_plain(c.ciphertext);
            lemma_base58_plain(c.public_key->Some_0);
            assert(authenticates(c, passphrase.spec_bytes()));
            assert forall|payload: Seq<u8>|
                #[trigger] unseal_outcome(c, passphrase.spec_bytes(), payload) == Ok::<
                    SigningResultView,
                    ErrorKind,
                >(signed_view(seed_view, payload)) by {}
            assert forall|other: Seq<u8>, payload: Seq<u8>|
                other.len() <= 0xFFFF_FFFF && !authenticates(c, other) implies #[trigger] unseal_outcome(
                    c,
                    other,
                    payload,
                ) == Err::<SigningResultView, ErrorKind>(ErrorKind::DecryptionFailed) by {}
        }
        Ok(container)
    }

    /// Seal `private_key` under `passphrase` with a fresh random salt and
    /// nonce from the operating system.
    pub fn encrypt(private_key: &[u8], passphrase: &str, mode: LockingMode) -> (r: Result<
        EncryptedKeyContainer,
        SignerError,
    >)
        ensures
            private_key@.len() != ED25519_SEED_SIZE && private_key@.len() != ED25519_KEYPAIR_SIZE ==> outcome(r)
                == Err::<ContainerView, ErrorKind>(ErrorKind::InvalidKeyFormat(private_key@.len() as usize)),
            r matches Ok(c) ==> exists|salt: Seq<u8>, nonce: Seq<u8>|
                salt.len() == SALT_SIZE && nonce.len() == NONCE_SIZE && seal_outcome(
                    private_key@,
                    passphrase.spec_bytes(),
                    salt,
                    nonce,
                ) == Ok::<ContainerView, ErrorKind>(#[trigger] c@),
            r matches Ok(c) ==> {
                &&& base64_bytes(c.salt@) matches Some(salt) && salt.len() == SALT_SIZE
                &&& base64_bytes(c.nonce@) matches Some(nonce) && nonce.len() == NONCE_SIZE
                &&& base64_bytes(c.ciphertext@) matches Some(ct) && ct.len() == ED25519_SEED_SIZE + 16
            },
            r matches Ok(c) ==> is_plain_container(c@),
            r matches Ok(c) ==> holds_seed(
                c@,
                private_key@.subrange(0, ED25519_SEED_SIZE as int),
                passphrase.spec_bytes(),
            ),
            r matches Err(e) ==> {
                ||| e.spec_kind() == ErrorKind::InvalidKeyFormat(private_key@.len() as usize) && private_key@.len()
                != ED25519_SEED_SIZE && private_key@.len() != ED25519_KEYPAIR_SIZE
                ||| e.spec_kind() == ErrorKind::KeyDerivationFailed && passphrase.spec_bytes().len() > 0xFFFF_FFFF
                ||| e.spec_kind() == ErrorKind::MemoryLockFailed && mode == LockingMode::Strict
                ||| e.spec_kind() == ErrorKind::SigningFailed
            },
    {
        if private_key.len() != ED25519_SEED_SIZE && private_key.len() != ED25519_KEYPAIR_SIZE {
            return Err(SignerError::InvalidKeyFormat(private_key.len()));
        }
        let mut salt = crate::memory::zero_bytes(SALT_SIZE);
        let mut nonce = crate::memory::zero_bytes(NONCE_SIZE);
        if let Err(e) = fill_random(salt.as_mut_slice()) {
            return Err(SignerError::SigningFailed(random_error_message(&e)));
        }
        if let Err(e) = fill_random(nonce.as_mut_slice()) {
            return Err(SignerError::SigningFailed(random_error_message(&e)));
        }
        let r = Self::encrypt_with(private_key, passphrase, salt.as_slice(), nonce.as_slice(), mode);
        proof {
            if r is Ok {
                assert(seal_outcome(private_key@, passphrase.spec_bytes(), salt@, nonce@) == Ok::<
                    ContainerView,
                    ErrorKind,
                >(r->Ok_0@));
            }
        }
        r
    }
    /// The container's text: a JSON object with the fields in a fixed order,
    /// no insignificant whitespace, and strings escaped as JSON requires. It
    /// reads back as the same container.
    pub fn to_json(&self) -> (r: Result<String, SignerError>)
        ensures
            r matches Ok(s) && s@ == container_text(self@) && parse_text(s@) == Some(self@),
    {
        let mut s = "{\"version\":".to_owned();
        push_decimal(&mut s, self.version as usize);
        s.append(",\"salt\":\"");
        push_json_string(&mut s, self.salt.as_str());
        s.append("\",\"nonce\":\"");
        push_json_string(&mut s, self.nonce.as_str());
        s.append("\",\"ciphertext\":\"");
        push_json_string(&mut s, self.ciphertext.as_str());
        match &self.public_key {
            Some(p) => {
                s.append("\",\"public_key\":\"");
                push_json_string(&mut s, p.as_str());
                s.append("\"}");
            },
            None => {
                s.append("\"}");
            },
        }
        assert(s@ =~= container_text(self@));
        proof {
            lemma_read_written(self@);
        }
        Ok(s)
    }

    /// Read a container from JSON text: any whitespace, the members in any
    /// order, `public_key` absent or null, unknown members skipped.
    pub fn from_json(json: &str) -> (r: Result<EncryptedKeyContainer, SignerError>)
        ensures
            match r {
                Ok(c) => parse_text(json@) == Some(c@),
                Err(e) => e.spec_kind() == ErrorKind::ContainerError && parse_text(json@) is None,
            },
    {
        match parse_json(json) {
            Some(c) => Ok(c),
            None => Err(SignerError::ContainerError("not the text of an encrypted key container".to_owned())),
        }
    }
}

/// The container's fields decode, and its nonce has the AES-GCM length:
/// what is checked before any memory is pinned.
pub open spec fn fields_decode(c: ContainerView) -> bool {
    match (base64_bytes(c.salt), base64_bytes(c.nonce), base64_bytes(c.ciphertext)) {
        (Some(_), Some(nonce), Some(_)) => nonce.len() == NONCE_SIZE,
        _ => false,
    }
}

/// The seed that container `c` opens to under `passphrase`, if it opens.
pub open spec fn opened_seed(c: ContainerView, passphrase: Seq<u8>) -> Option<Seq<u8>> {
    match (base64_bytes(c.salt), base64_bytes(c.nonce), base64_bytes(c.ciphertext)) {
        (Some(salt), Some(nonce), Some(ct)) => if nonce.len() == NONCE_SIZE {
            match derived_key(passphrase, salt) {
                Some(k) => aes256gcm_open(k, nonce, ct),
                None => None,
            }
        } else {
            None
        },
        _ => None,
    }
}

/// Decrypt the seed in `container` with `passphrase`, sign `payload` with
/// it, and erase every secret on the way: the derived key, the decrypted
/// plaintext and the seed's `SecureBuffer`, on success and on failure.
pub fn decrypt_container(container: &EncryptedKeyContainer, passphrase: &str, payload: &[u8], mode: LockingMode) -> (r:
    Result<SigningResult, SignerError>)
    ensures
        settles(outcome(r), unseal_outcome(container@, passphrase.spec_bytes(), payload@), mode),
        !fields_decode(container@) ==> outcome(r) == unseal_outcome(container@, passphrase.spec_bytes(), payload@),
        r matches Ok(s) ==> (opened_seed(container@, passphrase.spec_bytes()) matches Some(seed) && decodes_as_signed(
            s@,
            seed,
            payload@,
        )),
{
    let salt = match decode_base64(container.salt.as_str()) {
        Ok(b) => b,
        Err(e) => return Err(SignerError::Base64Error(base64_error_message(&e))),
    };
    let nonce = match decode_base64(container.nonce.as_str()) {
        Ok(b) => b,
        Err(e) => return Err(SignerError::Base64Error(base64_error_message(&e))),
    };
    let ciphertext = match decode_base64(container.ciphertext.as_str()) {
        Ok(b) => b,
        Err(e) => return Err(SignerError::Base64Error(base64_error_message(&e))),
    };
    if nonce.len() != NONCE_SIZE {
        return Err(SignerError::ContainerError("the nonce is not 12 bytes long".to_owned()));
    }
    let mut derived = match derive_key(passphrase.as_bytes(), salt.as_slice(), mode) {
        Ok(k) => k,
        Err(e) => return Err(e),
    };
    let mut plaintext = match aes256gcm_decrypt(derived.as_slice(), nonce.as_slice(), ciphertext.as_slice()) {
        Ok(p) => p,
        Err(_) => {
            derived.zeroize();
            return Err(SignerError::DecryptionFailed);
        },
    };
    derived.zeroize();
    let copied = SecureBuffer::from_slice_with_mode(plaintext.as_slice(), mode);
    wipe_vec(&mut plaintext);
    ordering_fence();
    let mut secure_key = match copied {
        Ok(b) => b,
        Err(e) => return Err(e),
    };
    let result = sign_with_secure_key(&secure_key, payload);
    secure_key.zeroize();
    result
}

/// Decrypt a container given as text and sign `payload` with its seed.
pub fn decrypt_and_sign(container_json: &str, passphrase: &str, transaction_bytes: &[u8], mode: LockingMode) -> (r:
    Result<SigningResult, SignerError>)
    ensures
        parse_text(container_json@) is None ==> outcome(r) == Err::<SigningResultView, ErrorKind>(
            ErrorKind::ContainerError,
        ),
        parse_text(container_json@) matches Some(c) ==> {
            &&& settles(outcome(r), unseal_outcome(c, passphrase.spec_bytes(), transaction_bytes@), mode)
            &&& !fields_decode(c) ==> outcome(r) == unseal_outcome(c, passphrase.spec_bytes(), transaction_bytes@)
            &&& r matches Ok(s) ==> (opened_seed(c, passphrase.spec_bytes()) matches Some(seed) && decodes_as_signed(
                s@,
                seed,
                transaction_bytes@,
            ))
        },
{
    let container = match EncryptedKeyContainer::from_json(container_json) {
        Ok(c) => c,
        Err(e) => return Err(e),
    };
    decrypt_container(&container, passphrase, transaction_bytes, mode)
}

/// Encrypt `private_key` under `passphrase` and return the container's text.
pub fn create_encrypted_key_container(private_key: &[u8], passphrase: &str, mode: LockingMode) -> (r: Result<
    String,
    SignerError,
>)
    ensures
        private_key@.len() != ED25519_SEED_SIZE && private_key@.len() != ED25519_KEYPAIR_SIZE ==> outcome(r)
            == Err::<Seq<char>, ErrorKind>(ErrorKind::InvalidKeyFormat(private_key@.len() as usize)),
        r matches Ok(s) ==> exists|c: ContainerView|
            {
                &&& #[trigger] parse_text(s@) == Some(c)
                &&& s@ == container_text(c)
                &&& holds_seed(c, private_key@.subrange(0, ED25519_SEED_SIZE as int), passphrase.spec_bytes())
                &&& exists|salt: Seq<u8>, nonce: Seq<u8>|
                    salt.len() == SALT_SIZE && nonce.len() == NONCE_SIZE && seal_outcome(
                        private_key@,
                        passphrase.spec_bytes(),
                        salt,
                        nonce,
                    ) == Ok::<ContainerView, ErrorKind>(c)
            },
        r matches Err(e) ==> {
            ||| e.spec_kind() == ErrorKind::InvalidKeyFormat(private_key@.len() as usize) && private_key@.len()
                != ED25519_SEED_SIZE && private_key@.len() != ED25519_KEYPAIR_SIZE
            ||| e.spec_kind() == ErrorKind::KeyDerivationFailed && passphrase.spec_bytes().len() > 0xFFFF_FFFF
            ||| e.spec_kind() == ErrorKind::MemoryLockFailed && mode == LockingMode::Strict
            ||| e.spec_kind() == ErrorKind::SigningFailed
        },
{
    let container = match EncryptedKeyContainer::encrypt(private_key, passphrase, mode) {
        Ok(c) => c,
        Err(e) => return Err(e),
    };
    let r = container.to_json();
    proof {
        lemma_read_written(container@);
        assert(parse_text(r->Ok_0@) == Some(container@));
    }
    r
}

/// The text of a container, decrypted with the passphrase that sealed it,
/// signs every payload as the sealed seed does, and returns the seed's
/// public key.
pub proof fn lemma_round_trip(c: ContainerView, text: Seq<char>, seed: Seq<u8>, passphrase: Seq<u8>, payload: Seq<u8>)
    requires
        parse_text(text) == Some(c),
        holds_seed(c, seed, passphrase),
    ensures
        unseal_outcome(c, passphrase, payload) == Ok::<SigningResultView, ErrorKind>(signed_view(seed, payload)),
        signed_view(seed, payload).public_key == base58_text(ed25519_public(seed)),
{
    assert(unseal_outcome(c, passphrase, payload) == Ok::<SigningResultView, ErrorKind>(signed_view(seed, payload)));
}

/// The text of a container, decrypted with a passphrase under which AES-GCM
/// does not authenticate its ciphertext, fails as `DecryptionFailed`,
/// whatever the payload, and with no other kind of error.
pub proof fn lemma_wrong_passphrase(
    c: ContainerView,
    text: Seq<char>,
    seed: Seq<u8>,
    passphrase: Seq<u8>,
    other: Seq<u8>,
    payload: Seq<u8>,
)
    requires
        parse_text(text) == Some(c),
        holds_seed(c, seed, passphrase),
        other.len() <= 0xFFFF_FFFF,
        !authenticates(c, other),
    ensures
        unseal_outcome(c, other, payload) == Err::<SigningResultView, ErrorKind>(ErrorKind::DecryptionFailed),
{
    assert(unseal_outcome(c, other, payload) == Err::<SigningResultView, ErrorKind>(ErrorKind::DecryptionFailed));
}

/// Standard base64 text has no character that the container text escapes.
proof fn lemma_base64_plain(t: Seq<char>)
    requires
        forall|i: int| 0 <= i < t.len() ==> is_base64_char(#[trigger] t[i]),
    ensures
        is_plain(t),
{
}

/// Base58 text has no character that the container text escapes.
proof fn lemma_base58_plain(t: Seq<char>)
    requires
        forall|i: int| 0 <= i < t.len() ==> is_base58_char(#[trigger] t[i]),
    ensures
        is_plain(t),
{
}

} // verus!
