use solana_secure_signer::secure_buffer::push_decimal;
use solana_secure_signer::{ErrorKind, LockingMode, SecureBuffer, SecureGuard, SignerError, VERSION};

#[test]
fn test_version() {
    assert!(!VERSION.is_empty());
}

#[test]
fn test_secure_buffer_creation_permissive() {
    // Use permissive mode for tests (mlock may not be available)
    let buffer = SecureBuffer::new_permissive(32).unwrap();
    assert_eq!(buffer.len(), 32);
    assert!(buffer.as_slice().iter().all(|&b| b == 0));
}

#[test]
fn test_secure_buffer_from_slice_permissive() {
    let data = [1u8, 2, 3, 4, 5];
    let buffer = SecureBuffer::from_slice_permissive(&data).unwrap();
    assert_eq!(buffer.as_slice(), &data);
}

#[test]
fn test_secure_buffer_zeroize() {
    let mut buffer = SecureBuffer::from_slice_permissive(&[1, 2, 3, 4]).unwrap();
    buffer.zeroize();
    assert!(buffer.as_slice().iter().all(|&b| b == 0));
}

#[test]
fn test_debug_redacts_data() {
    let buffer = SecureBuffer::from_slice_permissive(&[0xDE, 0xAD, 0xBE, 0xEF]).unwrap();
    let debug_str = buffer.debug_string();
    assert!(debug_str.contains("[REDACTED]"));
    assert!(!debug_str.contains("DEAD"));
    assert!(!debug_str.contains("BEEF"));
}

#[test]
fn test_strict_mode_checks_locking() {
    // Either it works (locked) or fails (strict mode detected no lock)
    let result = SecureBuffer::new(32);
    match result {
        Ok(buf) => assert!(buf.is_locked(), "Strict mode should only succeed if locked"),
        Err(SignerError::MemoryLockFailed(_)) => {}
        Err(e) => panic!("Unexpected error: {:?}", e),
    }
}

#[test]
fn zeroize_keeps_length_and_is_idempotent() {
    let mut buffer = SecureBuffer::from_slice_permissive(&[9, 8, 7]).unwrap();
    buffer.zeroize();
    assert_eq!(buffer.as_slice(), &[0, 0, 0]);
    buffer.zeroize();
    assert_eq!(buffer.as_slice(), &[0, 0, 0]);
    assert_eq!(buffer.len(), 3);
}

#[test]
fn debug_string_shows_length_and_lock_state_only() {
    let buffer = SecureBuffer::from_slice_permissive(&[0xDE, 0xAD, 0xBE, 0xEF]).unwrap();
    let expected = format!(
        "SecureBuffer {{ len: 4, is_locked: {}, data: \"[REDACTED]\" }}",
        buffer.is_locked()
    );
    assert_eq!(buffer.debug_string(), expected);
    let other = SecureBuffer::from_slice_permissive(&[1, 2, 3, 4]).unwrap();
    if other.is_locked() == buffer.is_locked() {
        assert_eq!(other.debug_string(), buffer.debug_string());
    }
}

#[test]
fn empty_buffer_counts_as_locked() {
    let buffer = SecureBuffer::new(0).unwrap();
    assert!(buffer.is_empty());
    assert!(buffer.is_locked());
    let copied = SecureBuffer::from_slice(&[]).unwrap();
    assert_eq!(copied.len(), 0);
}

#[test]
fn strict_with_mode_agrees_with_new() {
    match SecureBuffer::with_mode(16, LockingMode::Strict) {
        Ok(buf) => {
            assert!(buf.is_locked());
            assert_eq!(buf.as_slice(), &[0u8; 16]);
        }
        Err(e) => assert_eq!(e.kind(), ErrorKind::MemoryLockFailed),
    }
}

#[test]
fn from_slice_strict_copies_or_reports_lock_failure() {
    match SecureBuffer::from_slice(&[5, 6, 7]) {
        Ok(buf) => {
            assert!(buf.is_locked());
            assert_eq!(buf.as_slice(), &[5, 6, 7]);
        }
        Err(e) => assert!(matches!(e, SignerError::MemoryLockFailed(_))),
    }
}

#[test]
fn resize_grows_with_zeros_and_keeps_contents() {
    let mut buffer = SecureBuffer::from_slice_permissive(&[1, 2, 3]).unwrap();
    buffer.resize_with_mode(6, LockingMode::Permissive).unwrap();
    assert_eq!(buffer.as_slice(), &[1, 2, 3, 0, 0, 0]);
}

#[test]
fn resize_shrinks_in_place() {
    let mut buffer = SecureBuffer::from_slice_permissive(&[1, 2, 3, 4, 5]).unwrap();
    let locked = buffer.is_locked();
    buffer.resize_with_mode(2, LockingMode::Strict).unwrap();
    assert_eq!(buffer.as_slice(), &[1, 2]);
    assert_eq!(buffer.is_locked(), locked);
    buffer.resize(0).unwrap();
    assert!(buffer.is_empty());
}

#[test]
fn strict_resize_keeps_buffer_when_pin_is_refused() {
    let mut buffer = SecureBuffer::from_slice_permissive(&[4, 4]).unwrap();
    match buffer.resize(8) {
        Ok(()) => {
            assert!(buffer.is_locked());
            assert_eq!(buffer.as_slice(), &[4, 4, 0, 0, 0, 0, 0, 0]);
        }
        Err(e) => {
            assert_eq!(e.kind(), ErrorKind::MemoryLockFailed);
            assert_eq!(buffer.as_slice(), &[4, 4]);
        }
    }
}

#[test]
fn as_mut_slice_writes_through() {
    let mut buffer = SecureBuffer::new_permissive(3).unwrap();
    buffer.as_mut_slice()[1] = 42;
    assert_eq!(buffer.as_slice(), &[0, 42, 0]);
}

#[test]
fn guard_zeroes_on_drop() {
    let mut bytes = [7u8; 8];
    {
        let mut guard = SecureGuard::new(&mut bytes);
        assert_eq!(guard.as_slice(), &[7u8; 8]);
        guard.as_mut_slice()[0] = 1;
        assert_eq!(guard.as_slice()[0], 1);
    }
    assert_eq!(bytes, [0u8; 8]);
}

#[test]
fn guard_zeroize_now() {
    let mut bytes = [3u8; 4];
    let mut guard = SecureGuard::new(&mut bytes);
    guard.zeroize();
    assert_eq!(guard.as_slice(), &[0u8; 4]);
}

#[test]
fn decimal_digits() {
    let mut s = String::from("n=");
    push_decimal(&mut s, 0);
    push_decimal(&mut s, 7);
    s.push(',');
    push_decimal(&mut s, 255);
    s.push(',');
    push_decimal(&mut s, 1_000_001);
    assert_eq!(s, "n=07,255,1000001");
}

#[test]
fn locking_mode_from_setting() {
    for s in ["1", "true", "TRUE", "True", "tRuE"] {
        assert_eq!(LockingMode::from_setting(Some(s)), LockingMode::Permissive);
    }
    for s in ["", "0", "yes", "true ", "11", "truth", "false"] {
        assert_eq!(LockingMode::from_setting(Some(s)), LockingMode::Strict);
    }
    assert_eq!(LockingMode::from_setting(None), LockingMode::Strict);
}
