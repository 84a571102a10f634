use tor_client::circuit::{
    create2_cell_bytes, parse_created2_response, start_handshake, CircuitError, CircuitState,
    RelayHop,
};
use rand_core::OsRng;
use tor_client::crypto::{ntor_derive, NtorKeys, OnionCrypto};
use x25519_dalek::{EphemeralSecret, PublicKey};
use tor_client::directory::{DirectoryClient, OrAddress, RelayDescriptor};
use tor_client::network::cells::{Cell, Created2Cell};
use tor_client::CircuitManager;

fn hop(id: &str) -> RelayHop {
    let relay = RelayDescriptor {
        id: id.to_string(),
        nickname: id.to_string(),
        address: OrAddress { ip: [127, 0, 0, 1], port: 9001 },
        identity_key: vec![1; 20],
        onion_key: vec![2; 32],
        bandwidth: 1,
        flags: vec![],
    };
    RelayHop::from_relay(&relay)
}

fn keys(b: u8) -> NtorKeys {
    NtorKeys { forward_key: [b; 32], backward_key: [b + 1; 32] }
}

#[test]
fn ids_start_at_one_and_increase() {
    let mut m = CircuitManager::new();
    let a = m.begin_circuit(vec![hop("a")], 5).unwrap();
    let b = m.begin_circuit(vec![hop("b")], 6).unwrap();
    let c = m.begin_circuit(vec![hop("c")], 7).unwrap();
    assert_eq!(a, 1);
    assert!(a < b && b < c);
    assert_eq!(m.get_circuit_state(b), Some(CircuitState::Building));
    assert_eq!(m.get_circuit_state(99), None);
}

#[test]
fn ready_only_after_every_hop_is_keyed() {
    let mut m = CircuitManager::new();
    let id = m.begin_circuit(vec![hop("a"), hop("b")], 0).unwrap();
    assert!(matches!(m.mark_ready(id), Err(CircuitError::HandshakeFailed(_))));
    let created = Created2Cell { server_public_key: [0; 32], auth: vec![7; 32] };
    m.complete_hop_handshake(id, 0, keys(3), &[7; 32], &created).unwrap();
    assert!(m.mark_ready(id).is_err());
    m.complete_hop_handshake(id, 1, keys(5), &[7; 32], &created).unwrap();
    m.mark_ready(id).unwrap();
    assert_eq!(m.get_circuit_state(id), Some(CircuitState::Ready));
}

#[test]
fn auth_mismatch_and_zero_keys_keep_circuit_from_ready() {
    let mut m = CircuitManager::new();
    let id = m.begin_circuit(vec![hop("a")], 0).unwrap();
    let created = Created2Cell { server_public_key: [0; 32], auth: vec![7; 32] };
    assert!(matches!(
        m.complete_hop_handshake(id, 0, keys(3), &[8; 32], &created),
        Err(CircuitError::HandshakeFailed(_))
    ));
    assert!(m.complete_hop_handshake(id, 1, keys(3), &[7; 32], &created).is_err());
    m.complete_hop_handshake(id, 0, NtorKeys { forward_key: [0; 32], backward_key: [1; 32] }, &[7; 32], &created)
        .unwrap();
    assert!(m.mark_ready(id).is_err());
}

#[test]
fn teardown_is_idempotent() {
    let mut m = CircuitManager::new();
    let id = m.begin_circuit(vec![hop("a")], 0).unwrap();
    m.teardown(id);
    assert_eq!(m.get_circuit_state(id), Some(CircuitState::Closed));
    m.teardown(id);
    assert_eq!(m.get_circuit_state(id), Some(CircuitState::Closed));
    m.teardown(42);
    assert_eq!(m.get_circuit_state(42), None);
}

#[test]
fn errors_are_terminal() {
    let mut m = CircuitManager::new();
    let id = m.begin_circuit(vec![hop("a")], 0).unwrap();
    m.mark_error(id, "relay unreachable".to_string());
    assert_eq!(m.get_circuit_state(id), Some(CircuitState::Error("relay unreachable".to_string())));
    m.mark_error(id, "again".to_string());
    assert_eq!(m.get_circuit_state(id), Some(CircuitState::Error("relay unreachable".to_string())));
    assert!(m.mark_ready(id).is_err());
}

#[test]
fn create2_cell_on_the_wire() {
    let wire = create2_cell_bytes(0x01020304, &[0xAA; 32]);
    assert_eq!(wire.len(), 514);
    assert_eq!(&wire[0..5], &[1, 2, 3, 4, 10]);
    assert_eq!(&wire[5..9], &[0, 2, 0, 32]);
    assert_eq!(&wire[9..41], &[0xAA; 32]);
    assert!(wire[41..].iter().all(|b| *b == 0));
    let (_secret, public, cell) = start_handshake(9);
    assert_eq!(&cell[9..41], &public);
}

#[test]
fn created2_response_checks() {
    let created = Created2Cell { server_public_key: [4; 32], auth: vec![5; 32] };
    let wire = Cell { circ_id: 3, command: 11, payload: created.to_bytes() }.to_bytes().unwrap();
    let parsed = parse_created2_response(3, &wire).unwrap();
    assert_eq!(parsed.server_public_key, [4; 32]);
    assert_eq!(parsed.auth, vec![5; 32]);
    assert!(matches!(parse_created2_response(4, &wire), Err(CircuitError::HandshakeFailed(_))));
    assert!(matches!(parse_created2_response(3, &wire[..4]), Err(CircuitError::HandshakeFailed(_))));
    let wrong_command = Cell { circ_id: 3, command: 10, payload: created.to_bytes() }.to_bytes().unwrap();
    assert!(parse_created2_response(3, &wrong_command).is_err());
}

#[test]
fn mock_relays_become_hops() {
    let mut d = DirectoryClient::new_mock();
    d.fetch_consensus(0).unwrap();
    let r = d.select_relay(0).unwrap();
    let h = RelayHop::from_relay(&r);
    assert_eq!(h.relay_id, r.id);
    assert!(h.crypto_state.is_none());
}

#[test]
fn send_wraps_one_layer_per_hop() {
    let mut m = CircuitManager::new();
    let id = m.begin_circuit(vec![hop("guard"), hop("exit")], 0).unwrap();
    assert!(matches!(m.send(id, b"early"), Err(CircuitError::NotReady)));
    let created = Created2Cell { server_public_key: [0; 32], auth: vec![7; 32] };
    m.complete_hop_handshake(id, 0, keys(3), &[7; 32], &created).unwrap();
    m.complete_hop_handshake(id, 1, keys(5), &[7; 32], &created).unwrap();
    m.mark_ready(id).unwrap();

    let onion = m.send(id, b"hello exit").unwrap();
    assert_eq!(onion.len(), 10 + 2 * 16);
    let mut guard = OnionCrypto::from_ntor_keys(keys(3)).unwrap();
    let mut exit = OnionCrypto::from_ntor_keys(keys(5)).unwrap();
    let inner = guard.decrypt_forward(&onion).unwrap();
    let plain = exit.decrypt_forward(&inner).unwrap();
    assert_eq!(plain, b"hello exit");

    let second = m.send(id, b"hello exit").unwrap();
    assert_ne!(second, onion);
    let inner = guard.decrypt_forward(&second).unwrap();
    assert_eq!(exit.decrypt_forward(&inner).unwrap(), b"hello exit");
    assert!(matches!(m.send(77, b"x"), Err(CircuitError::NotReady)));
}

fn relay_backward(b: u8) -> OnionCrypto {
    // The relay seals toward the client with the hop's backward key.
    OnionCrypto::from_ntor_keys(NtorKeys { forward_key: [b + 1; 32], backward_key: [0x77; 32] }).unwrap()
}

fn ready_two_hops(m: &mut CircuitManager) -> u32 {
    let id = m.begin_circuit(vec![hop("guard"), hop("exit")], 0).unwrap();
    let created = Created2Cell { server_public_key: [0; 32], auth: vec![7; 32] };
    m.complete_hop_handshake(id, 0, keys(3), &[7; 32], &created).unwrap();
    m.complete_hop_handshake(id, 1, keys(5), &[7; 32], &created).unwrap();
    m.mark_ready(id).unwrap();
    id
}

#[test]
fn recv_peels_layers_in_hop_order() {
    let mut m = CircuitManager::new();
    let id = ready_two_hops(&mut m);
    let mut guard = relay_backward(3);
    let mut exit = relay_backward(5);

    let from_exit = guard.encrypt_forward(&exit.encrypt_forward(b"data from exit").unwrap()).unwrap();
    let (hop_index, payload) = m.recv(id, &from_exit).unwrap();
    assert_eq!(hop_index, 1);
    assert_eq!(payload, b"data from exit");

    let from_guard = guard.encrypt_forward(b"guard says").unwrap();
    let (hop_index, payload) = m.recv(id, &from_guard).unwrap();
    assert_eq!(hop_index, 0);
    assert_eq!(payload, b"guard says");
    assert_eq!(m.get_circuit_state(id), Some(CircuitState::Ready));
}

#[test]
fn unrecognised_inbound_cell_fails_the_circuit() {
    let mut m = CircuitManager::new();
    let id = ready_two_hops(&mut m);
    assert!(matches!(m.recv(id, &[0u8; 40]), Err(CircuitError::Crypto(_))));
    assert!(matches!(m.get_circuit_state(id), Some(CircuitState::Error(_))));
    assert!(matches!(m.recv(id, &[0u8; 40]), Err(CircuitError::NotReady)));
}

#[test]
fn circuits_need_a_hop() {
    let mut m = CircuitManager::new();
    assert!(matches!(m.begin_circuit(vec![], 0), Err(CircuitError::NoSuitableRelays)));
    assert_eq!(m.begin_circuit(vec![hop("a")], 0).unwrap(), 1);
}

#[test]
fn handshake_with_a_simulated_relay() {
    let mut m = CircuitManager::new();
    let id = m.begin_circuit(vec![hop("only")], 0).unwrap();
    let (secret, client_public, _cell) = start_handshake(id);

    let server_secret = EphemeralSecret::random_from_rng(OsRng);
    let server_public = PublicKey::from(&server_secret);
    let shared = server_secret.diffie_hellman(&PublicKey::from(client_public));
    let (_keys, auth) =
        ntor_derive(shared.as_bytes(), &client_public, server_public.as_bytes(), &[1; 20], &[2; 32]).unwrap();
    let created = Created2Cell { server_public_key: *server_public.as_bytes(), auth };
    let wire = Cell { circ_id: id, command: 11, payload: created.to_bytes() }.to_bytes().unwrap();

    m.handshake_hop(id, 0, secret, &client_public, &wire).unwrap();
    m.mark_ready(id).unwrap();
    assert_eq!(m.get_circuit_state(id), Some(CircuitState::Ready));

    let id2 = m.begin_circuit(vec![hop("other")], 0).unwrap();
    let (secret2, public2, _) = start_handshake(id2);
    let forged = Created2Cell { server_public_key: *server_public.as_bytes(), auth: vec![0; 32] };
    let wire2 = Cell { circ_id: id2, command: 11, payload: forged.to_bytes() }.to_bytes().unwrap();
    assert!(matches!(m.handshake_hop(id2, 0, secret2, &public2, &wire2), Err(CircuitError::HandshakeFailed(_))));
    assert!(m.mark_ready(id2).is_err());
}

#[test]
fn handshake_hop_refuses_wrong_replies() {
    let mut m = CircuitManager::new();
    let id = m.begin_circuit(vec![hop("only")], 0).unwrap();
    let created = Created2Cell { server_public_key: [9; 32], auth: vec![1; 32] };
    let other_circuit = Cell { circ_id: id + 1, command: 11, payload: created.to_bytes() }.to_bytes().unwrap();
    let other_command = Cell { circ_id: id, command: 3, payload: created.to_bytes() }.to_bytes().unwrap();
    for reply in [other_circuit, other_command, vec![0, 0, 0, 1], vec![0, 0, 0, 1, 11, 0, 63]] {
        let (secret, public, _) = start_handshake(id);
        assert!(matches!(m.handshake_hop(id, 0, secret, &public, &reply), Err(CircuitError::HandshakeFailed(_))));
    }
    let (secret, public, _) = start_handshake(id);
    let good_header = Cell { circ_id: id, command: 11, payload: created.to_bytes() }.to_bytes().unwrap();
    assert!(matches!(m.handshake_hop(id, 1, secret, &public, &good_header), Err(CircuitError::HandshakeFailed(_))));
    assert!(m.mark_ready(id).is_err());
}
