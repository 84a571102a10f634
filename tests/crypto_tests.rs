use tor_client::crypto::{generate_nonce, CryptoError, NtorKeys, OnionCrypto};
use tor_client::security::{constant_time_compare, SecretData};

fn keys() -> NtorKeys {
    NtorKeys { forward_key: [0x11; 32], backward_key: [0x22; 32] }
}

// A sender and the peer holding the same keys: what one seals under a
// counter, the other opens under the same counter.
#[test]
fn test_onion_encryption_roundtrip() {
    let mut crypto = OnionCrypto::from_ntor_keys(keys()).unwrap();
    let mut peer = OnionCrypto::from_ntor_keys(keys()).unwrap();
    let plaintext = b"test message";

    let encrypted = crypto.encrypt_forward(plaintext).unwrap();
    let decrypted = peer.decrypt_forward(&encrypted).unwrap();

    assert_eq!(plaintext, decrypted.as_slice());
}

#[test]
fn seal_adds_a_tag_and_advances_the_counter() {
    let mut crypto = OnionCrypto::from_ntor_keys(keys()).unwrap();
    assert_eq!(crypto.forward_nonce(), 0);
    let c1 = crypto.encrypt_forward(b"abc").unwrap();
    assert_eq!(c1.len(), 3 + 16);
    assert_ne!(&c1[..3], b"abc");
    assert_eq!(crypto.forward_nonce(), 1);
    let c2 = crypto.encrypt_forward(b"abc").unwrap();
    assert_ne!(c1, c2);
    assert_eq!(crypto.forward_nonce(), 2);
    assert_eq!(crypto.backward_nonce(), 0);
}

#[test]
fn altered_ciphertext_is_refused() {
    let mut crypto = OnionCrypto::from_ntor_keys(keys()).unwrap();
    let sealed = crypto.encrypt_forward(b"payload bytes").unwrap();
    for i in 0..sealed.len() {
        let mut altered = sealed.clone();
        altered[i] ^= 0x01;
        let mut peer = OnionCrypto::from_ntor_keys(keys()).unwrap();
        assert!(peer.decrypt_forward(&altered).is_err());
        assert_eq!(peer.forward_nonce(), 0);
    }
}

#[test]
fn wrong_counter_is_refused() {
    let mut crypto = OnionCrypto::from_ntor_keys(keys()).unwrap();
    let sealed = crypto.encrypt_forward(b"x").unwrap();
    let mut peer = OnionCrypto::resume(keys(), 1, 0);
    assert!(matches!(peer.decrypt_forward(&sealed), Err(CryptoError::RingError(_))));
}

#[test]
fn spent_counter_fails_instead_of_wrapping() {
    let mut crypto = OnionCrypto::resume(keys(), u64::MAX, 0);
    assert!(matches!(crypto.encrypt_forward(b"x"), Err(CryptoError::NonceExhausted)));
    assert_eq!(crypto.forward_nonce(), u64::MAX);
    assert!(matches!(crypto.decrypt_forward(&[0u8; 17]), Err(CryptoError::NonceExhausted)));

    let mut last = OnionCrypto::resume(keys(), u64::MAX - 1, 0);
    assert!(last.encrypt_forward(b"x").is_ok());
    assert_eq!(last.forward_nonce(), u64::MAX);
    assert!(matches!(last.encrypt_forward(b"x"), Err(CryptoError::NonceExhausted)));
}

#[test]
fn nonce_layout() {
    assert_eq!(generate_nonce(0), [0u8; 12]);
    assert_eq!(generate_nonce(0x0102030405060708), [0, 0, 0, 0, 1, 2, 3, 4, 5, 6, 7, 8]);
    assert_eq!(generate_nonce(u64::MAX)[4..], [0xFF; 8]);
}

#[test]
fn random_state_starts_at_zero() {
    let crypto = OnionCrypto::new().unwrap();
    assert_eq!(crypto.forward_nonce(), 0);
    assert_eq!(crypto.backward_nonce(), 0);
    assert!(crypto.keys_nonzero());
}

#[test]
fn constant_time_compare_cases() {
    assert!(constant_time_compare(b"abc", b"abc"));
    assert!(!constant_time_compare(b"abc", b"abd"));
    assert!(!constant_time_compare(b"abc", b"ab"));
    assert!(constant_time_compare(b"", b""));
}

#[test]
fn secret_data_zeroizes() {
    let mut s = SecretData::new([9u8; 32]);
    assert_eq!(s.expose(), &[9u8; 32]);
    s.zeroize();
    assert_eq!(s.expose(), &[0u8; 32]);
}

#[test]
fn zero_keys_are_detected() {
    let zero = OnionCrypto::from_ntor_keys(NtorKeys { forward_key: [0; 32], backward_key: [1; 32] }).unwrap();
    assert!(!zero.keys_nonzero());
    let fine = OnionCrypto::from_ntor_keys(keys()).unwrap();
    assert!(fine.keys_nonzero());
}

#[test]
fn empty_plaintext_seals_to_a_tag() {
    let mut crypto = OnionCrypto::from_ntor_keys(keys()).unwrap();
    assert_eq!(crypto.encrypt_forward(b"").unwrap().len(), 16);
    assert_eq!(crypto.encrypt_forward(&[7u8; 509]).unwrap().len(), 525);
}
