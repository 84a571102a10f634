use rand::SeedableRng;
use rand_core::OsRng;
use tor_client::crypto::{ntor_derive, ntor_handshake};
use tor_client::network::cells::{Create2Cell, Created2Cell};
use x25519_dalek::{EphemeralSecret, PublicKey};

#[test]
fn test_ntor_handshake() {
    let client_private_key = EphemeralSecret::random_from_rng(OsRng);
    let client_public_key = PublicKey::from(&client_private_key);

    let server_private_key = EphemeralSecret::random_from_rng(OsRng);
    let server_public_key = PublicKey::from(&server_private_key);

    let relay_identity_key = [1u8; 32];
    let relay_onion_key = [2u8; 32];

    let result = ntor_handshake(
        client_private_key,
        client_public_key.as_bytes(),
        server_public_key.as_bytes(),
        &relay_identity_key,
        &relay_onion_key,
    );

    assert!(result.is_ok());

    let (keys, auth) = result.unwrap();

    assert_ne!(keys.forward_key, [0u8; 32]);
    assert_ne!(keys.backward_key, [0u8; 32]);
    assert_eq!(auth.len(), 32);
    assert_ne!(auth, vec![0u8; 32]);
}

#[test]
fn handshake_unit_tests_test_create2_cell_to_bytes() {
    let client_private_key = EphemeralSecret::random_from_rng(OsRng);
    let client_public_key = PublicKey::from(&client_private_key);

    let create2_cell = Create2Cell::new(client_public_key.as_bytes());
    let bytes = create2_cell.to_bytes();

    assert_eq!(bytes.len(), 2 + 2 + 32);

    let handshake_type = u16::from_be_bytes(bytes[0..2].try_into().unwrap());
    assert_eq!(handshake_type, 2);

    let hlen = u16::from_be_bytes(bytes[2..4].try_into().unwrap());
    assert_eq!(hlen, 32);

    let hdata = &bytes[4..];
    assert_eq!(hdata, client_public_key.as_bytes());
}

// The payload here lacks the two-byte length that a CREATED2 payload starts
// with, so it is refused: it is 64 bytes, and a valid one is at least 66.
#[test]
fn handshake_unit_tests_test_created2_cell_from_bytes() {
    let server_private_key = EphemeralSecret::random_from_rng(OsRng);
    let server_public_key = PublicKey::from(&server_private_key);
    let auth = [3u8; 32];

    let mut payload = Vec::new();
    payload.extend_from_slice(server_public_key.as_bytes());
    payload.extend_from_slice(&auth);

    let result = Created2Cell::from_bytes(&payload);
    assert!(result.is_err());
}

fn seeded_secret(seed: u64) -> EphemeralSecret {
    EphemeralSecret::random_from_rng(rand::rngs::StdRng::seed_from_u64(seed))
}

fn run_both_sides(identity: &[u8], onion: &[u8]) -> ([u8; 32], [u8; 32], Vec<u8>, [u8; 32], [u8; 32], Vec<u8>) {
    let client_secret = seeded_secret(11);
    let client_public = PublicKey::from(&client_secret);
    let server_secret = seeded_secret(22);
    let server_public = PublicKey::from(&server_secret);

    let (client_keys, client_auth) = ntor_handshake(
        client_secret,
        client_public.as_bytes(),
        server_public.as_bytes(),
        identity,
        onion,
    )
    .unwrap();

    let shared = server_secret.diffie_hellman(&client_public);
    let (server_keys, server_auth) = ntor_derive(
        shared.as_bytes(),
        client_public.as_bytes(),
        server_public.as_bytes(),
        identity,
        onion,
    )
    .unwrap();
    (
        client_keys.forward_key,
        client_keys.backward_key,
        client_auth,
        server_keys.forward_key,
        server_keys.backward_key,
        server_auth,
    )
}

#[test]
fn client_and_server_derive_the_same_keys() {
    let (cf, cb, ca, sf, sb, sa) = run_both_sides(&[1u8; 32], &[2u8; 32]);
    assert_eq!(cf, sf);
    assert_eq!(cb, sb);
    assert_eq!(ca, sa);
    assert_eq!(ca.len(), 32);
    assert_ne!(cf, cb);
}

#[test]
fn seeded_handshake_is_deterministic() {
    let first = run_both_sides(&[1u8; 32], &[2u8; 32]);
    let second = run_both_sides(&[1u8; 32], &[2u8; 32]);
    assert_eq!(first, second);
    let other = run_both_sides(&[1u8; 20], &[2u8; 32]);
    assert_ne!(first.0, other.0);
}

#[test]
fn derivation_depends_on_every_input() {
    let base = ntor_derive(&[7u8; 32], &[1u8; 32], &[2u8; 32], &[3u8; 20], &[4u8; 32]).unwrap();
    let other_secret = ntor_derive(&[8u8; 32], &[1u8; 32], &[2u8; 32], &[3u8; 20], &[4u8; 32]).unwrap();
    let other_server = ntor_derive(&[7u8; 32], &[1u8; 32], &[9u8; 32], &[3u8; 20], &[4u8; 32]).unwrap();
    assert_ne!(base.0.forward_key, other_secret.0.forward_key);
    assert_ne!(base.1, other_server.1);
    assert_ne!(base.0.forward_key, [7u8; 32]);
}
