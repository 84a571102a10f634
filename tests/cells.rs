use rand_core::OsRng;
use tor_client::network::cells::{
    Cell, CellFormatError, Create2Cell, Created2Cell, CELL_COMMAND_CREATE2, CELL_COMMAND_RELAY,
};
use x25519_dalek::{EphemeralSecret, PublicKey};

#[test]
fn cells_test_create2_cell_to_bytes() {
    let client_private_key = EphemeralSecret::random_from_rng(OsRng);
    let client_public_key = PublicKey::from(&client_private_key);

    let create2_cell = Create2Cell::new(client_public_key.as_bytes());
    let bytes = create2_cell.to_bytes();

    assert_eq!(bytes.len(), 2 + 2 + 32);

    let handshake_type = u16::from_be_bytes(bytes[0..2].try_into().unwrap());
    assert_eq!(handshake_type, 2);

    let hlen = u16::from_be_bytes(bytes[2..4].try_into().unwrap());
    assert_eq!(hlen, 32);

    let hdata = &bytes[4..];
    assert_eq!(hdata, client_public_key.as_bytes());
}

#[test]
fn cells_test_created2_cell_from_bytes() {
    let server_private_key = EphemeralSecret::random_from_rng(OsRng);
    let server_public_key = PublicKey::from(&server_private_key);
    let auth = [3u8; 32];

    let mut hdata = Vec::new();
    hdata.extend_from_slice(server_public_key.as_bytes());
    hdata.extend_from_slice(&auth);

    let mut payload = Vec::new();
    payload.extend_from_slice(&(hdata.len() as u16).to_be_bytes());
    payload.extend_from_slice(&hdata);

    let result = Created2Cell::from_bytes(&payload);
    assert!(result.is_ok());

    let created2_cell = result.unwrap();
    assert_eq!(&created2_cell.server_public_key, server_public_key.as_bytes());
    assert_eq!(created2_cell.auth, auth.to_vec());
}

#[test]
fn create2_encoding_of_fixed_key() {
    let bytes = Create2Cell::new(&[0xAA; 32]).to_bytes();
    let mut expected = vec![0x00, 0x02, 0x00, 0x20];
    expected.extend_from_slice(&[0xAA; 32]);
    assert_eq!(bytes, expected);
    assert_eq!(bytes.len(), 36);

    let cell = Cell { circ_id: 7, command: CELL_COMMAND_CREATE2, payload: bytes.clone() };
    let wire = cell.to_bytes().unwrap();
    assert_eq!(wire.len(), 514);
    assert_eq!(&wire[0..4], &[0, 0, 0, 7]);
    assert_eq!(wire[4], 10);
    assert_eq!(&wire[5..41], &bytes[..]);
    assert!(wire[41..].iter().all(|b| *b == 0));
}

#[test]
fn cell_round_trip_keeps_header_and_payload() {
    let payload: Vec<u8> = (0..100u8).collect();
    let cell = Cell { circ_id: 0xDEADBEEF, command: CELL_COMMAND_RELAY, payload: payload.clone() };
    let wire = cell.to_bytes().unwrap();
    let back = Cell::from_bytes(&wire).unwrap();
    assert_eq!(back.circ_id, 0xDEADBEEF);
    assert_eq!(back.command, 3);
    assert_eq!(back.payload.len(), 509);
    assert_eq!(&back.payload[..100], &payload[..]);
    assert!(back.payload[100..].iter().all(|b| *b == 0));
}

#[test]
fn full_payload_fits_and_one_more_byte_fails() {
    let full = Cell { circ_id: 1, command: 3, payload: vec![0x5A; 509] };
    let wire = full.to_bytes().unwrap();
    assert_eq!(&wire[5..], &vec![0x5A; 509][..]);
    let back = Cell::from_bytes(&wire).unwrap();
    assert_eq!(back.payload, vec![0x5A; 509]);

    let over = Cell { circ_id: 1, command: 3, payload: vec![0x5A; 510] };
    assert!(matches!(over.to_bytes(), Err(CellFormatError::PayloadTooLong)));
}

#[test]
fn decoding_needs_exactly_one_cell() {
    assert!(matches!(Cell::from_bytes(&[0u8; 513]), Err(CellFormatError::WrongCellLength)));
    assert!(matches!(Cell::from_bytes(&[0u8; 515]), Err(CellFormatError::WrongCellLength)));
}

#[test]
fn create2_payload_round_trip() {
    let cell = Create2Cell { handshake_type: 2, handshake_data: vec![9, 8, 7, 6, 5] };
    let back = Create2Cell::from_bytes(&cell.to_bytes()).unwrap();
    assert_eq!(back.handshake_type, 2);
    assert_eq!(back.handshake_data, vec![9, 8, 7, 6, 5]);
    assert!(matches!(Create2Cell::from_bytes(&[0, 2, 0]), Err(CellFormatError::PayloadTooShort)));
    assert!(matches!(
        Create2Cell::from_bytes(&[0, 2, 0, 9, 1]),
        Err(CellFormatError::PayloadTooShort)
    ));
}

#[test]
fn created2_payload_round_trip_and_errors() {
    let cell = Created2Cell { server_public_key: [4u8; 32], auth: vec![5u8; 32] };
    let bytes = cell.to_bytes();
    assert_eq!(&bytes[0..2], &[0, 64]);
    let back = Created2Cell::from_bytes(&bytes).unwrap();
    assert_eq!(back.server_public_key, [4u8; 32]);
    assert_eq!(back.auth, vec![5u8; 32]);

    assert!(matches!(Created2Cell::from_bytes(&[0]), Err(CellFormatError::PayloadTooShort)));
    assert!(matches!(
        Created2Cell::from_bytes(&[0, 63, 1, 2]),
        Err(CellFormatError::InvalidHandshakeLength)
    ));
    assert!(matches!(
        Created2Cell::from_bytes(&bytes[..65]),
        Err(CellFormatError::PayloadTooShort)
    ));
}
