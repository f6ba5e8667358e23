use base64::Engine;
use ed25519_dalek::{Signature, Signer, SigningKey, Verifier};
use rand::rngs::OsRng;
use rand::RngCore;
use solana_secure_signer::container::decrypt_container;
use solana_secure_signer::signing::derive_key;
use solana_secure_signer::{
    decrypt_and_sign, sign_transaction, sign_with_secure_key, EncryptedKeyContainer, ErrorKind, LockingMode,
    SecureBuffer, SignerError,
};

fn b64(bytes: &[u8]) -> String {
    base64::engine::general_purpose::STANDARD.encode(bytes)
}

#[test]
fn test_encrypt_decrypt_roundtrip() {
    // Generate a test key
    let mut seed = [0u8; 32];
    OsRng.fill_bytes(&mut seed);
    let passphrase = "test_passphrase_123";

    // Encrypt
    let container = EncryptedKeyContainer::encrypt(&seed, passphrase, LockingMode::Permissive).unwrap();
    let json = container.to_json().unwrap();

    // Create a test message
    let message = b"test transaction message";

    // Decrypt and sign
    let result = decrypt_and_sign(&json, passphrase, message, LockingMode::Permissive).unwrap();

    // Verify the signature
    let signing_key = SigningKey::from_bytes(&seed);
    let public_key = signing_key.verifying_key();

    assert_eq!(result.public_key, bs58::encode(public_key.as_bytes()).into_string());
}

#[test]
fn test_wrong_passphrase_fails() {
    let mut seed = [0u8; 32];
    OsRng.fill_bytes(&mut seed);

    let container = EncryptedKeyContainer::encrypt(&seed, "correct_password", LockingMode::Permissive).unwrap();
    let json = container.to_json().unwrap();

    let result = decrypt_and_sign(&json, "wrong_password", b"test", LockingMode::Permissive);
    assert!(matches!(result, Err(SignerError::DecryptionFailed)));
}

#[test]
fn test_signature_verification() {
    let mut seed = [0u8; 32];
    OsRng.fill_bytes(&mut seed);
    let message = b"Hello, Solana!";

    let result = sign_transaction(&seed, message, LockingMode::Permissive).unwrap();

    // Verify signature
    let signing_key = SigningKey::from_bytes(&seed);
    let signature_bytes = bs58::decode(&result.signature).into_vec().unwrap();
    let signature = Signature::from_slice(&signature_bytes).unwrap();

    assert!(signing_key.verifying_key().verify(message, &signature).is_ok());
}

#[test]
fn zero_seed_scenario() {
    let seed = [0u8; 32];
    let container = EncryptedKeyContainer::encrypt(&seed, "correct", LockingMode::Permissive).unwrap();
    assert_eq!(container.version, 1);
    let json = container.to_json().unwrap();

    let signed = decrypt_and_sign(&json, "correct", b"hello", LockingMode::Permissive).unwrap();
    let expected = bs58::encode(SigningKey::from_bytes(&seed).verifying_key().as_bytes()).into_string();
    assert_eq!(signed.public_key, expected);
    assert_eq!(signed.public_key, "4zvwRjXUKGfvwnParsHAS3HuSVzV5cA4McphgmoCtajS");

    let refused = decrypt_and_sign(&json, "wrong", b"hello", LockingMode::Permissive);
    assert!(matches!(refused, Err(SignerError::DecryptionFailed)));
}

#[test]
fn encrypt_rejects_other_key_lengths() {
    for len in [0usize, 1, 31, 33, 48, 63, 65, 128] {
        let key = vec![1u8; len];
        match EncryptedKeyContainer::encrypt(&key, "pw", LockingMode::Permissive) {
            Err(SignerError::InvalidKeyFormat(n)) => assert_eq!(n, len),
            other => panic!("length {} gave {:?}", len, other.err()),
        }
    }
}

#[test]
fn encrypt_keypair_keeps_seed_half() {
    let mut keypair = [0u8; 64];
    OsRng.fill_bytes(&mut keypair);
    let seed: [u8; 32] = keypair[..32].try_into().unwrap();
    let container = EncryptedKeyContainer::encrypt(&keypair, "pw", LockingMode::Permissive).unwrap();
    let expected = bs58::encode(SigningKey::from_bytes(&seed).verifying_key().as_bytes()).into_string();
    assert_eq!(container.public_key, Some(expected));
    let salt = base64::engine::general_purpose::STANDARD.decode(&container.salt).unwrap();
    let nonce = base64::engine::general_purpose::STANDARD.decode(&container.nonce).unwrap();
    let ciphertext = base64::engine::general_purpose::STANDARD.decode(&container.ciphertext).unwrap();
    assert_eq!(salt.len(), 32);
    assert_eq!(nonce.len(), 12);
    assert_ne!(salt, vec![0u8; 32]);
    assert_ne!(nonce, vec![0u8; 12]);
    assert_eq!(ciphertext.len(), 48);
    assert_ne!(&ciphertext[..32], &seed[..]);
}

#[test]
fn encrypt_with_is_deterministic_and_decrypts() {
    let seed = [9u8; 32];
    let salt = [1u8; 32];
    let nonce = [2u8; 12];
    let a = EncryptedKeyContainer::encrypt_with(&seed, "pw", &salt, &nonce, LockingMode::Permissive).unwrap();
    assert_eq!(a.salt, b64(&salt));
    assert_eq!(a.nonce, b64(&nonce));
    let signed = decrypt_container(&a, "pw", b"abc", LockingMode::Permissive).unwrap();
    let key = SigningKey::from_bytes(&seed);
    let expected_sig = bs58::encode(key.sign(b"abc").to_bytes()).into_string();
    assert_eq!(signed.signature, expected_sig);
}

#[test]
fn signed_transaction_is_count_signature_payload() {
    let seed = [5u8; 32];
    let payload = b"xyz";
    let result = sign_transaction(&seed, payload, LockingMode::Permissive).unwrap();
    let sig = bs58::decode(&result.signature).into_vec().unwrap();
    assert_eq!(sig.len(), 64);
    let wrapped = base64::engine::general_purpose::STANDARD
        .decode(result.signed_transaction.unwrap())
        .unwrap();
    let mut expected = vec![1u8];
    expected.extend_from_slice(&sig);
    expected.extend_from_slice(payload);
    assert_eq!(wrapped, expected);
}

#[test]
fn short_payload_is_not_wrapped() {
    let seed = [5u8; 32];
    for payload in [&b""[..], &b"a"[..], &b"ab"[..]] {
        let result = sign_transaction(&seed, payload, LockingMode::Permissive).unwrap();
        assert!(result.signed_transaction.is_none());
        let key = SigningKey::from_bytes(&seed);
        let sig = Signature::from_slice(&bs58::decode(&result.signature).into_vec().unwrap()).unwrap();
        assert!(key.verifying_key().verify(payload, &sig).is_ok());
    }
}

#[test]
fn sign_rejects_seed_of_wrong_length() {
    match sign_transaction(&[1u8; 31], b"abc", LockingMode::Permissive) {
        Err(SignerError::InvalidKeyFormat(n)) => assert_eq!(n, 31),
        other => panic!("unexpected {:?}", other.err()),
    }
    match sign_transaction(&[1u8; 64], b"abc", LockingMode::Permissive) {
        Err(e) => assert_eq!(e.kind(), ErrorKind::InvalidKeyFormat(64)),
        Ok(_) => panic!("a 64-byte key was used as a seed"),
    }
}

#[test]
fn sign_with_secure_key_matches_dalek() {
    let seed = [11u8; 32];
    let buffer = SecureBuffer::from_slice_permissive(&seed).unwrap();
    let result = sign_with_secure_key(&buffer, b"message").unwrap();
    let key = SigningKey::from_bytes(&seed);
    assert_eq!(result.signature, bs58::encode(key.sign(b"message").to_bytes()).into_string());
    assert_eq!(result.public_key, bs58::encode(key.verifying_key().to_bytes()).into_string());
}

#[test]
fn derive_key_is_argon2id_v13() {
    let salt = [3u8; 32];
    let key = derive_key(b"passphrase", &salt, LockingMode::Permissive).unwrap();
    let params = argon2::Params::new(65536, 3, 4, Some(32)).unwrap();
    let mut expected = [0u8; 32];
    argon2::Argon2::new(argon2::Algorithm::Argon2id, argon2::Version::V0x13, params)
        .hash_password_into(b"passphrase", &salt, &mut expected)
        .unwrap();
    assert_eq!(key.as_slice(), &expected);
}

#[test]
fn derive_key_rejects_short_salt() {
    match derive_key(b"pw", &[0u8; 7], LockingMode::Permissive) {
        Err(e) => assert_eq!(e.kind(), ErrorKind::KeyDerivationFailed),
        Ok(_) => panic!("a 7-byte salt was accepted"),
    }
}

#[test]
fn tampered_ciphertext_fails_authentication() {
    let seed = [4u8; 32];
    let mut container =
        EncryptedKeyContainer::encrypt_with(&seed, "pw", &[6u8; 32], &[7u8; 12], LockingMode::Permissive).unwrap();
    let mut ct = base64::engine::general_purpose::STANDARD.decode(&container.ciphertext).unwrap();
    ct[0] ^= 1;
    container.ciphertext = b64(&ct);
    let r = decrypt_container(&container, "pw", b"abc", LockingMode::Permissive);
    assert!(matches!(r, Err(SignerError::DecryptionFailed)));
}

#[test]
fn undecodable_field_is_base64_error() {
    let container = EncryptedKeyContainer {
        version: 1,
        salt: "not base64!".to_string(),
        nonce: b64(&[0u8; 12]),
        ciphertext: b64(&[0u8; 48]),
        public_key: None,
    };
    let r = decrypt_container(&container, "pw", b"abc", LockingMode::Permissive);
    assert!(matches!(r, Err(SignerError::Base64Error(_))));
}

#[test]
fn wrong_nonce_length_is_container_error() {
    let container = EncryptedKeyContainer {
        version: 1,
        salt: b64(&[0u8; 32]),
        nonce: b64(&[0u8; 11]),
        ciphertext: b64(&[0u8; 48]),
        public_key: None,
    };
    let json = container.to_json().unwrap();
    let r = decrypt_and_sign(&json, "pw", b"abc", LockingMode::Permissive);
    assert!(matches!(r, Err(SignerError::ContainerError(_))));
}

#[test]
fn text_that_is_no_container_is_container_error() {
    let r = decrypt_and_sign("{\"version\":1}", "pw", b"abc", LockingMode::Permissive);
    assert_eq!(r.err().map(|e| e.kind()), Some(ErrorKind::ContainerError));
}

#[test]
fn reordered_container_with_bad_salt_is_base64_error() {
    let text = "{\"salt\":\"!!!!\",\"version\":1,\"nonce\":\"AAAA\",\"ciphertext\":\"AAAA\"}";
    let r = decrypt_and_sign(text, "pw", b"abc", LockingMode::Strict);
    assert!(matches!(r, Err(SignerError::Base64Error(_))));
}

#[test]
fn pretty_printed_container_decrypts() {
    let seed = [8u8; 32];
    let c = EncryptedKeyContainer::encrypt_with(&seed, "pw", &[3u8; 32], &[4u8; 12], LockingMode::Permissive).unwrap();
    let pretty = format!(
        "{{\n  \"public_key\": \"{}\",\n  \"ciphertext\": \"{}\",\n  \"nonce\": \"{}\",\n  \"salt\": \"{}\",\n  \"version\": 1\n}}\n",
        c.public_key.clone().unwrap(),
        c.ciphertext,
        c.nonce,
        c.salt
    );
    let signed = decrypt_and_sign(&pretty, "pw", b"abc", LockingMode::Permissive).unwrap();
    assert_eq!(Some(signed.public_key), c.public_key);
}
