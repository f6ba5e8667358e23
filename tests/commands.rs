use base64::Engine;
use ed25519_dalek::{Signature, SigningKey, Verifier};
use solana_secure_signer::commands::{create_container_from_base58, sign_direct, sign_with_container};
use solana_secure_signer::{ErrorKind, LockingMode, SignerError};

#[test]
fn sign_direct_decodes_key_and_message() {
    let seed = [21u8; 32];
    let key_b58 = bs58::encode(seed).into_string();
    let message = b"pay 3 lamports";
    let message_b64 = base64::engine::general_purpose::STANDARD.encode(message);
    let result = sign_direct(&key_b58, &message_b64, LockingMode::Permissive).unwrap();
    let key = SigningKey::from_bytes(&seed);
    assert_eq!(result.public_key, bs58::encode(key.verifying_key().as_bytes()).into_string());
    let sig = Signature::from_slice(&bs58::decode(&result.signature).into_vec().unwrap()).unwrap();
    assert!(key.verifying_key().verify(message, &sig).is_ok());
}

#[test]
fn sign_direct_reports_bad_base58() {
    let r = sign_direct("0OIl", "aGk=", LockingMode::Permissive);
    assert!(matches!(r, Err(SignerError::Base58Error(_))));
}

#[test]
fn sign_direct_reports_bad_base64() {
    let key_b58 = bs58::encode([1u8; 32]).into_string();
    let r = sign_direct(&key_b58, "***", LockingMode::Permissive);
    assert_eq!(r.err().map(|e| e.kind()), Some(ErrorKind::Base64Error));
}

#[test]
fn create_then_sign_with_container() {
    let seed = [33u8; 32];
    let key_b58 = bs58::encode(seed).into_string();
    let json = create_container_from_base58(&key_b58, "test_password", LockingMode::Permissive).unwrap();
    assert!(json.contains("\"version\":1"));
    let read = solana_secure_signer::EncryptedKeyContainer::from_json(&json).unwrap();
    assert_eq!(read.to_json().unwrap(), json);
    let tx_b64 = base64::engine::general_purpose::STANDARD.encode(b"unsigned tx");
    let result = sign_with_container(&json, "test_password", &tx_b64, LockingMode::Permissive).unwrap();
    let key = SigningKey::from_bytes(&seed);
    assert_eq!(result.public_key, bs58::encode(key.verifying_key().as_bytes()).into_string());
}

#[test]
fn create_from_base58_rejects_short_key() {
    let key_b58 = bs58::encode([1u8; 10]).into_string();
    match create_container_from_base58(&key_b58, "pw", LockingMode::Permissive) {
        Err(SignerError::InvalidKeyFormat(n)) => assert_eq!(n, 10),
        other => panic!("unexpected {:?}", other.err()),
    }
}

#[test]
fn sign_with_container_reports_bad_transaction() {
    let r = sign_with_container("{}", "pw", "@@", LockingMode::Permissive);
    assert!(matches!(r, Err(SignerError::Base64Error(_))));
}
