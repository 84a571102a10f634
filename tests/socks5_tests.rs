use tor_client::circuit::CircuitError;
use tor_client::proxy::socks5::{
    failure_reply_code, greeting_method_count, negotiate_method, parse_request, reply_bytes,
    request_address_kind, session_step, AddressKind, ProxyError, SessionAction, SessionEvent,
    SessionState, TargetFailure,
};

#[test]
fn negotiation_and_connect_request() {
    let greeting = [0x05u8, 0x01, 0x00];
    let n = greeting_method_count(&[greeting[0], greeting[1]]).unwrap();
    assert_eq!(n, 1);
    assert_eq!(negotiate_method(&greeting[2..2 + n]).unwrap(), [0x05, 0x00]);

    let mut request = vec![0x05, 0x01, 0x00, 0x03, 0x0B];
    request.extend_from_slice(b"example.com");
    request.extend_from_slice(&[0x00, 0x50]);
    let req = parse_request(&request).unwrap();
    assert_eq!(req.host, "example.com");
    assert_eq!(req.port, 80);
}

#[test]
fn wrong_version_and_methods() {
    assert!(matches!(greeting_method_count(&[4, 1]), Err(ProxyError::InvalidVersion(4))));
    assert!(matches!(negotiate_method(&[0x02]), Err(ProxyError::Unsupported(_))));
    assert!(matches!(negotiate_method(&[]), Err(ProxyError::Unsupported(_))));
    assert_eq!(negotiate_method(&[0x02, 0x00]).unwrap(), [5, 0]);
}

#[test]
fn request_headers() {
    assert_eq!(request_address_kind(&[5, 1, 0, 1]).unwrap(), AddressKind::Ipv4);
    assert_eq!(request_address_kind(&[5, 1, 0, 4]).unwrap(), AddressKind::Ipv6);
    assert!(matches!(request_address_kind(&[5, 2, 0, 1]), Err(ProxyError::CommandNotSupported(2))));
    assert!(matches!(request_address_kind(&[5, 1, 0, 9]), Err(ProxyError::AddressTypeNotSupported(9))));
    assert!(matches!(request_address_kind(&[4, 1, 0, 1]), Err(ProxyError::InvalidVersion(4))));
}

#[test]
fn ipv4_and_ipv6_targets() {
    let req = parse_request(&[5, 1, 0, 1, 10, 0, 255, 7, 0x1F, 0x90]).unwrap();
    assert_eq!(req.host, "10.0.255.7");
    assert_eq!(req.port, 8080);
    let mut v6 = vec![5, 1, 0, 4];
    v6.extend_from_slice(&[0x20, 0x01, 0x0d, 0xb8, 0, 0, 0, 0, 0, 0, 0, 0, 0, 0, 0xab, 0x01]);
    v6.extend_from_slice(&[1, 187]);
    let req = parse_request(&v6).unwrap();
    assert_eq!(req.host, "2001:0db8:0000:0000:0000:0000:0000:ab01");
    assert_eq!(req.port, 443);
}

#[test]
fn truncated_requests() {
    assert!(matches!(parse_request(&[5, 1, 0]), Err(ProxyError::Truncated)));
    assert!(matches!(parse_request(&[5, 1, 0, 1, 10, 0, 0, 1, 0]), Err(ProxyError::Truncated)));
    assert!(matches!(parse_request(&[5, 1, 0, 3, 5, b'a', b'b']), Err(ProxyError::Truncated)));
    assert!(matches!(parse_request(&[5, 1, 0, 3]), Err(ProxyError::Truncated)));
}

#[test]
fn replies() {
    assert_eq!(reply_bytes(0), [5, 0, 0, 1, 0, 0, 0, 0, 0, 0]);
    assert_eq!(reply_bytes(1)[1], 1);
    assert_eq!(failure_reply_code(&ProxyError::CommandNotSupported(2)), 7);
    assert_eq!(failure_reply_code(&ProxyError::AddressTypeNotSupported(2)), 8);
    assert_eq!(failure_reply_code(&ProxyError::Circuit(CircuitError::NoSuitableRelays)), 1);
    assert_eq!(failure_reply_code(&ProxyError::InvalidVersion(4)), 1);
}

#[test]
fn domain_bytes_that_are_not_utf8_are_replaced() {
    let req = parse_request(&[5, 1, 0, 3, 2, 0xFF, b'a', 0, 80]).unwrap();
    assert_eq!(req.host, "\u{FFFD}a");
}

#[test]
fn session_walks_through_a_connect() {
    let (s, a) = session_step(SessionState::AwaitGreeting, SessionEvent::MethodsOffered(vec![0]));
    assert!(matches!(s, SessionState::AwaitRequest));
    assert!(matches!(a, SessionAction::Reply(ref b) if b == &vec![5, 0]));
    let req = parse_request(&[5, 1, 0, 1, 1, 2, 3, 4, 0, 80]).unwrap();
    let (s, a) = session_step(s, SessionEvent::RequestRead(Ok(req)));
    assert!(matches!(a, SessionAction::BuildCircuit));
    let (s, a) = session_step(s, SessionEvent::CircuitBuilt);
    match a {
        SessionAction::OpenStream(q) => {
            assert_eq!(q.host, "1.2.3.4");
            assert_eq!(q.port, 80);
        }
        other => panic!("unexpected action {:?}", other),
    }
    let (s, a) = session_step(s, SessionEvent::TargetConnected);
    assert!(matches!(s, SessionState::Relaying));
    assert!(matches!(a, SessionAction::ReplyAndRelay(ref b) if b == &vec![5, 0, 0, 1, 0, 0, 0, 0, 0, 0]));
    let (s, a) = session_step(s, SessionEvent::RelayFinished);
    assert!(matches!(s, SessionState::Closed));
    assert!(matches!(a, SessionAction::Close));
}

#[test]
fn session_refusals() {
    let (s, a) = session_step(SessionState::AwaitGreeting, SessionEvent::MethodsOffered(vec![2]));
    assert!(matches!(s, SessionState::Closed));
    assert!(matches!(a, SessionAction::ReplyAndClose(ref b) if b == &vec![5, 0xFF]));
    let (_, a) = session_step(
        SessionState::AwaitRequest,
        SessionEvent::RequestRead(Err(ProxyError::CommandNotSupported(2))),
    );
    assert!(matches!(a, SessionAction::ReplyAndClose(ref b) if b[1] == 7));
    let req = parse_request(&[5, 1, 0, 1, 1, 2, 3, 4, 0, 80]).unwrap();
    let (s, a) = session_step(
        SessionState::AwaitCircuit(req),
        SessionEvent::CircuitFailed(CircuitError::NoSuitableRelays),
    );
    assert!(matches!(s, SessionState::Closed));
    assert!(matches!(a, SessionAction::ReplyAndClose(ref b) if b[1] == 1));
    let (s, a) = session_step(SessionState::Relaying, SessionEvent::CircuitBuilt);
    assert!(matches!(s, SessionState::Closed));
    assert!(matches!(a, SessionAction::Close));
}

#[test]
fn failed_stream_is_answered_with_its_code() {
    let cases = [
        (TargetFailure::HostUnreachable, 4u8),
        (TargetFailure::ConnectionRefused, 5u8),
        (TargetFailure::Other, 1u8),
    ];
    for (failure, code) in cases {
        let (s, a) = session_step(SessionState::AwaitTarget, SessionEvent::TargetFailed(failure));
        assert!(matches!(s, SessionState::Closed));
        assert!(matches!(a, SessionAction::ReplyAndClose(ref b) if b == &vec![5, code, 0, 1, 0, 0, 0, 0, 0, 0]));
    }
}

#[test]
fn request_edge_cases() {
    assert!(matches!(parse_request(&[5, 1, 0, 9, 1, 2]), Err(ProxyError::AddressTypeNotSupported(9))));
    assert!(matches!(parse_request(&[5, 1, 0, 3]), Err(ProxyError::Truncated)));
    let req = parse_request(&[5, 1, 0, 3, 0, 1, 0]).unwrap();
    assert_eq!(req.host, "");
    assert_eq!(req.port, 256);
}
