//! Hashes, signatures and the clock.

use routinechain::crypto::{generate_keypair, hash, hash_concat, now_ms, sign, timestamp_of, verify};

#[test]
fn test_keypair_sign_verify() {
    let (public_key, private_key) = generate_keypair();
    let data = b"hello routinechain";

    let signature = sign(data, &private_key);
    assert!(verify(data, &signature, &public_key));
    assert!(!verify(b"wrong data", &signature, &public_key));
}

#[test]
fn test_hash() {
    let h1 = hash(b"hello");
    let h2 = hash(b"hello");
    let h3 = hash(b"world");

    assert_eq!(h1, h2);
    assert_ne!(h1, h3);
    assert_eq!(h1.len(), 32);
}

#[test]
fn test_hash_concat() {
    let h1 = hash_concat(&[b"hello", b"world"]);
    let h2 = hash_concat(&[b"hello", b"world"]);
    let h3 = hash_concat(&[b"helloworld"]);

    assert_eq!(h1, h2);
    // Streaming hash of two chunks should equal hash of concatenated
    assert_eq!(h1, h3);
    assert_eq!(h1.len(), 32);
}

#[test]
fn test_hash_is_the_outside_hash() {
    assert_eq!(hash(b"hello"), *blake3::hash(b"hello").as_bytes());
    assert_eq!(hash(b""), *blake3::hash(b"").as_bytes());
    assert_eq!(hash_concat(&[]), hash(b""));
    assert_eq!(hash_concat(&[b"", b"a", b"", b"bc"]), hash(b"abc"));
}

#[test]
fn test_signatures_are_bound_to_key_and_data() {
    let (public_key, private_key) = generate_keypair();
    let (other_public, other_private) = generate_keypair();
    assert_ne!(public_key, private_key);
    let signature = sign(b"data", &private_key);
    assert!(verify(b"data", &signature, &public_key));
    assert!(!verify(b"data", &signature, &other_public));
    assert!(!verify(b"data", &sign(b"data", &other_private), &public_key));
    assert!(!verify(b"data", &[0u8; 64], &public_key));
    // Signing is deterministic
    assert_eq!(signature, sign(b"data", &private_key));
    let outside = ed25519_dalek::SigningKey::from_bytes(&private_key);
    assert_eq!(public_key, outside.verifying_key().to_bytes());
}

#[test]
fn test_bytes_that_are_no_key_validate_nothing() {
    let (_, private_key) = generate_keypair();
    let signature = sign(b"data", &private_key);
    // y = 2 is on no point of the curve
    let mut no_key = [0u8; 32];
    no_key[0] = 2;
    assert!(!verify(b"data", &signature, &no_key));
}

#[test]
fn test_timestamps() {
    assert_eq!(timestamp_of(Ok(0)), 0);
    assert_eq!(timestamp_of(Ok(1_700_000_000_123)), 1_700_000_000_123);
    assert_eq!(timestamp_of(Err(5)), -5);
    assert_eq!(timestamp_of(Err(0)), 0);
    assert_eq!(timestamp_of(Ok(1u128 << 63)), i64::MIN);
    assert_eq!(timestamp_of(Ok((1u128 << 64) + 7)), 7);
    assert_eq!(timestamp_of(Err((1u128 << 64) + 7)), -7);
    // Some time after 2020 by any clock that is set
    assert!(now_ms() > 1_577_836_800_000);
}
