//! SOCKS5 negotiation and requests, as decisions on bytes: what a greeting
//! and a request say, and what to answer.
use vstd::prelude::*;
use vstd::utf8::*;
use crate::circuit::CircuitError;
use crate::network::cells::slice_range;
use crate::text::{all_ascii, ascii_chars, ascii_string, decimal, lemma_decimal_ascii, push_decimal};

verus! {

/// std's I/O error, carried through opaquely.
#[verifier::external_type_specification]
#[verifier::external_body]
pub struct ExIoError(std::io::Error);

#[derive(Debug)]
pub enum ProxyError {
    InvalidVersion(u8),
    Io(std::io::Error),
    Circuit(CircuitError),
    Unsupported(String),
    /// A request command other than CONNECT.
    CommandNotSupported(u8),
    /// An address type other than IPv4, domain name or IPv6.
    AddressTypeNotSupported(u8),
    /// The bytes end before the message does.
    Truncated,
}

impl From<std::io::Error> for ProxyError {
    fn from(err: std::io::Error) -> (r: ProxyError) {
        ProxyError::Io(err)
    }
}

impl vstd::std_specs::convert::FromSpecImpl<std::io::Error> for ProxyError {
    open spec fn obeys_from_spec() -> bool {
        true
    }

    open spec fn from_spec(v: std::io::Error) -> ProxyError {
        ProxyError::Io(v)
    }
}

impl From<CircuitError> for ProxyError {
    fn from(err: CircuitError) -> (r: ProxyError) {
        ProxyError::Circuit(err)
    }
}

impl vstd::std_specs::convert::FromSpecImpl<CircuitError> for ProxyError {
    open spec fn obeys_from_spec() -> bool {
        true
    }

    open spec fn from_spec(v: CircuitError) -> ProxyError {
        ProxyError::Circuit(v)
    }
}

/// The target a client asked to CONNECT to.
#[derive(Debug)]
pub struct Socks5Request {
    pub host: String,
    pub port: u16,
}

pub const SOCKS_VERSION: u8 = 5;

pub const METHOD_NO_AUTH: u8 = 0;

pub const COMMAND_CONNECT: u8 = 1;

pub const ATYP_IPV4: u8 = 1;

pub const ATYP_DOMAIN: u8 = 3;

pub const ATYP_IPV6: u8 = 4;

pub const REPLY_SUCCEEDED: u8 = 0;

pub const REPLY_GENERAL_FAILURE: u8 = 1;

pub const REPLY_COMMAND_NOT_SUPPORTED: u8 = 7;

pub const REPLY_ADDRESS_TYPE_NOT_SUPPORTED: u8 = 8;

/// The kinds of target address a request may carry.
#[derive(Debug, Clone, Copy, PartialEq, Eq, Structural)]
pub enum AddressKind {
    Ipv4,
    Domain,
    Ipv6,
}

/// Reads the greeting's header (version, method count): the number of
/// method bytes that follow.
pub fn greeting_method_count(header: &[u8; 2]) -> (r: Result<usize, ProxyError>)
    ensures
        header@[0] != SOCKS_VERSION ==> (r matches Err(ProxyError::InvalidVersion(v)) && v
            == header@[0]),
        header@[0] == SOCKS_VERSION ==> (r matches Ok(n) && n == header@[1]),
{
    if header[0] != SOCKS_VERSION {
        return Err(ProxyError::InvalidVersion(header[0]));
    }
    Ok(header[1] as usize)
}

/// Chooses "no authentication" when the client offers it; the answer is
/// then `05 00`. A client that offers only other methods is refused.
pub fn negotiate_method(methods: &[u8]) -> (r: Result<[u8; 2], ProxyError>)
    ensures
        methods@.contains(METHOD_NO_AUTH) ==> (r matches Ok(reply) && reply@ == seq![
            SOCKS_VERSION,
            METHOD_NO_AUTH,
        ]),
        !methods@.contains(METHOD_NO_AUTH) ==> (r matches Err(ProxyError::Unsupported(_))),
{
    let mut i: usize = 0;
    while i < methods.len()
        invariant
            i <= methods@.len(),
            forall|k: int| 0 <= k < i ==> methods@[k] != METHOD_NO_AUTH,
        decreases methods@.len() - i,
    {
        if methods[i] == METHOD_NO_AUTH {
            let reply = [SOCKS_VERSION, METHOD_NO_AUTH];
            assert(reply@ =~= seq![SOCKS_VERSION, METHOD_NO_AUTH]);
            return Ok(reply);
        }
        i += 1;
    }
    Err(ProxyError::Unsupported("no acceptable authentication method".to_string()))
}

/// Reads a request's header (version, command, reserved, address type):
/// only CONNECT is served, to an IPv4 address, a domain name or an IPv6
/// address.
pub fn request_address_kind(header: &[u8; 4]) -> (r: Result<AddressKind, ProxyError>)
    ensures
        header@[0] != SOCKS_VERSION ==> (r matches Err(ProxyError::InvalidVersion(v)) && v
            == header@[0]),
        header@[0] == SOCKS_VERSION && header@[1] != COMMAND_CONNECT ==> (r matches Err(
            ProxyError::CommandNotSupported(c),
        ) && c == header@[1]),
        header@[0] == SOCKS_VERSION && header@[1] == COMMAND_CONNECT ==> {
            let t = header@[3];
            &&& t == ATYP_IPV4 ==> r == Ok::<AddressKind, ProxyError>(AddressKind::Ipv4)
            &&& t == ATYP_DOMAIN ==> r == Ok::<AddressKind, ProxyError>(AddressKind::Domain)
            &&& t == ATYP_IPV6 ==> r == Ok::<AddressKind, ProxyError>(AddressKind::Ipv6)
            &&& t != ATYP_IPV4 && t != ATYP_DOMAIN && t != ATYP_IPV6 ==> (r matches Err(
                ProxyError::AddressTypeNotSupported(a),
            ) && a == t)
        },
{
    if header[0] != SOCKS_VERSION {
        return Err(ProxyError::InvalidVersion(header[0]));
    }
    if header[1] != COMMAND_CONNECT {
        return Err(ProxyError::CommandNotSupported(header[1]));
    }
    if header[3] == ATYP_IPV4 {
        Ok(AddressKind::Ipv4)
    } else if header[3] == ATYP_DOMAIN {
        Ok(AddressKind::Domain)
    } else if header[3] == ATYP_IPV6 {
        Ok(AddressKind::Ipv6)
    } else {
        Err(ProxyError::AddressTypeNotSupported(header[3]))
    }
}

/// The text std's `String::from_utf8_lossy` makes of bytes.
pub uninterp spec fn utf8_lossy(b: Seq<u8>) -> Seq<char>;

/// Relies on std's `String::from_utf8_lossy`: invalid sequences become
/// U+FFFD, and valid UTF-8 is decoded as it stands.
#[verifier::external_body]
fn lossy_string(b: &[u8]) -> (r: String)
    ensures
        r@ == utf8_lossy(b@),
        valid_utf8(b@) ==> r@ == decode_utf8(b@),
{
    String::from_utf8_lossy(b).to_string()
}

/// An IPv4 address in dotted-quad form.
pub open spec fn dotted_quad(a: Seq<u8>) -> Seq<u8> {
    decimal(a[0] as nat) + seq![46u8] + decimal(a[1] as nat) + seq![46u8] + decimal(a[2] as nat)
        + seq![46u8] + decimal(a[3] as nat)
}

/// A lowercase hexadecimal digit.
pub open spec fn hex_digit(v: u8) -> u8 {
    if v < 10 {
        (48 + v) as u8
    } else {
        (87 + v) as u8
    }
}

/// An IPv6 address as eight colon-separated groups of four lowercase hex
/// digits.
pub open spec fn ipv6_text(a: Seq<u8>) -> Seq<u8>
    decreases a.len(),
{
    if a.len() < 2 {
        Seq::<u8>::empty()
    } else {
        let prefix = ipv6_text(a.subrange(0, a.len() - 2));
        let g = seq![
            hex_digit(a[a.len() - 2] / 16),
            hex_digit(a[a.len() - 2] % 16),
            hex_digit(a[a.len() - 1] / 16),
            hex_digit(a[a.len() - 1] % 16),
        ];
        if a.len() == 2 {
            g
        } else {
            prefix + seq![58u8] + g
        }
    }
}

pub proof fn lemma_ipv6_ascii(a: Seq<u8>)
    ensures
        all_ascii(ipv6_text(a)),
    decreases a.len(),
{
    if a.len() >= 2 {
        lemma_ipv6_ascii(a.subrange(0, a.len() - 2));
    }
}

/// The port's two bytes, big-endian.
pub open spec fn port_of(p: Seq<u8>) -> u16 {
    (p[0] as u16 * 256 + p[1] as u16) as u16
}

/// The request that an address of the given kind and a port name: an IPv4
/// address in dotted-quad form, a domain name as text, an IPv6 address as
/// eight groups of hex digits.
pub fn request_target(kind: AddressKind, address: &[u8], port: &[u8; 2]) -> (r: Socks5Request)
    requires
        kind == AddressKind::Ipv4 ==> address@.len() == 4,
        kind == AddressKind::Ipv6 ==> address@.len() == 16,
    ensures
        r.port == port_of(port@),
        kind == AddressKind::Ipv4 ==> r.host@ == ascii_chars(dotted_quad(address@)),
        kind == AddressKind::Domain ==> r.host@ == utf8_lossy(address@),
        kind == AddressKind::Domain && valid_utf8(address@) ==> r.host@ == decode_utf8(address@),
        kind == AddressKind::Ipv6 ==> r.host@ == ascii_chars(ipv6_text(address@)),
{
    let port_value: u16 = (port[0] as u16) * 256 + (port[1] as u16);
    let host = match kind {
        AddressKind::Ipv4 => {
            let mut text: Vec<u8> = Vec::new();
            push_decimal(&mut text, address[0] as u64);
            text.push(46u8);
            push_decimal(&mut text, address[1] as u64);
            text.push(46u8);
            push_decimal(&mut text, address[2] as u64);
            text.push(46u8);
            push_decimal(&mut text, address[3] as u64);
            assert(text@ =~= dotted_quad(address@));
            proof {
                lemma_decimal_ascii(address@[0] as nat);
                lemma_decimal_ascii(address@[1] as nat);
                lemma_decimal_ascii(address@[2] as nat);
                lemma_decimal_ascii(address@[3] as nat);
                let t = text@;
                assert forall|k: int| 0 <= k < t.len() implies #[trigger] t[k] < 128u8 by {
                    let l0 = decimal(address@[0] as nat).len() as int;
                    let l1 = decimal(address@[1] as nat).len() as int;
                    let l2 = decimal(address@[2] as nat).len() as int;
                    if k < l0 {
                        assert(t[k] == decimal(address@[0] as nat)[k]);
                    } else if k == l0 {
                    } else if k < l0 + 1 + l1 {
                        assert(t[k] == decimal(address@[1] as nat)[k - l0 - 1]);
                    } else if k == l0 + 1 + l1 {
                    } else if k < l0 + 2 + l1 + l2 {
                        assert(t[k] == decimal(address@[2] as nat)[k - l0 - 2 - l1]);
                    } else if k == l0 + 2 + l1 + l2 {
                    } else {
                        assert(t[k] == decimal(address@[3] as nat)[k - l0 - 3 - l1 - l2]);
                    }
                }
            }
            ascii_string(text)
        },
        AddressKind::Domain => lossy_string(address),
        AddressKind::Ipv6 => {
            let mut text: Vec<u8> = Vec::new();
            let mut i: usize = 0;
            while i < 16
                invariant
                    address@.len() == 16,
                    i <= 16,
                    i % 2 == 0,
                    text@ == ipv6_text(address@.subrange(0, i as int)),
                decreases 16 - i,
            {
                let a = address[i];
                let b = address[i + 1];
                if i > 0 {
                    text.push(58u8);
                }
                text.push(hex_digit_of(a / 16));
                text.push(hex_digit_of(a % 16));
                text.push(hex_digit_of(b / 16));
                text.push(hex_digit_of(b % 16));
                let ghost next = address@.subrange(0, i + 2);
                assert(next.subrange(0, next.len() - 2) =~= address@.subrange(0, i as int));
                assert(text@ =~= ipv6_text(next));
                i += 2;
            }
            assert(address@.subrange(0, 16) =~= address@);
            proof {
                lemma_ipv6_ascii(address@);
            }
            ascii_string(text)
        },
    };
    Socks5Request { host, port: port_value }
}

fn hex_digit_of(v: u8) -> (r: u8)
    requires
        v < 16,
    ensures
        r == hex_digit(v),
{
    if v < 10 {
        48u8 + v
    } else {
        87u8 + v
    }
}

/// Reads a whole request: header, address and port. Bytes after the port
/// are ignored.
pub fn parse_request(bytes: &[u8]) -> (r: Result<Socks5Request, ProxyError>)
    ensures
        bytes@.len() < 4 ==> (r matches Err(ProxyError::Truncated)),
        bytes@.len() >= 4 && bytes@[0] != SOCKS_VERSION ==> (r matches Err(
            ProxyError::InvalidVersion(_),
        )),
        bytes@.len() >= 4 && bytes@[0] == SOCKS_VERSION && bytes@[1] != COMMAND_CONNECT ==> (r matches Err(
            ProxyError::CommandNotSupported(_),
        )),
        bytes@.len() >= 4 && bytes@[0] == SOCKS_VERSION && bytes@[1] == COMMAND_CONNECT
            && bytes@[3] != ATYP_IPV4 && bytes@[3] != ATYP_DOMAIN && bytes@[3] != ATYP_IPV6 ==> (r matches Err(
            ProxyError::AddressTypeNotSupported(a),
        ) && a == bytes@[3]),
        bytes@.len() == 4 && bytes@[0] == SOCKS_VERSION && bytes@[1] == COMMAND_CONNECT
            && bytes@[3] == ATYP_DOMAIN ==> (r matches Err(ProxyError::Truncated)),
        bytes@.len() >= 5 && bytes@[0] == SOCKS_VERSION && bytes@[1] == COMMAND_CONNECT
            && bytes@[3] == ATYP_DOMAIN ==> {
            let n = bytes@[4] as int;
            let domain = bytes@.subrange(5, 5 + n);
            &&& bytes@.len() < 5 + n + 2 ==> (r matches Err(ProxyError::Truncated))
            &&& bytes@.len() >= 5 + n + 2 ==> (r matches Ok(req) && req.host@ == utf8_lossy(domain)
                && (valid_utf8(domain) ==> req.host@ == decode_utf8(domain))
                && req.port == port_of(bytes@.subrange(5 + n, 7 + n)))
        },
        bytes@.len() >= 4 && bytes@[0] == SOCKS_VERSION && bytes@[1] == COMMAND_CONNECT
            && bytes@[3] == ATYP_IPV4 ==> {
            &&& bytes@.len() < 10 ==> (r matches Err(ProxyError::Truncated))
            &&& bytes@.len() >= 10 ==> (r matches Ok(req) && req.host@ == ascii_chars(
                dotted_quad(bytes@.subrange(4, 8)),
            ) && req.port == port_of(bytes@.subrange(8, 10)))
        },
        bytes@.len() >= 4 && bytes@[0] == SOCKS_VERSION && bytes@[1] == COMMAND_CONNECT
            && bytes@[3] == ATYP_IPV6 ==> {
            &&& bytes@.len() < 22 ==> (r matches Err(ProxyError::Truncated))
            &&& bytes@.len() >= 22 ==> (r matches Ok(req) && req.host@ == ascii_chars(
                ipv6_text(bytes@.subrange(4, 20)),
            ) && req.port == port_of(bytes@.subrange(20, 22)))
        },
{
    if bytes.len() < 4 {
        return Err(ProxyError::Truncated);
    }
    let header = [bytes[0], bytes[1], bytes[2], bytes[3]];
    let kind = match request_address_kind(&header) {
        Ok(k) => k,
        Err(e) => return Err(e),
    };
    let (start, len): (usize, usize) = match kind {
        AddressKind::Ipv4 => (4, 4),
        AddressKind::Ipv6 => (4, 16),
        AddressKind::Domain => {
            if bytes.len() < 5 {
                return Err(ProxyError::Truncated);
            }
            (5, bytes[4] as usize)
        },
    };
    if bytes.len() < start + len + 2 {
        return Err(ProxyError::Truncated);
    }
    let address = slice_range(bytes, start, start + len);
    let port = [bytes[start + len], bytes[start + len + 1]];
    assert(port@ =~= bytes@.subrange(start + len, start + len + 2));
    Ok(request_target(kind, address, &port))
}

/// The reply to a request: version, status, reserved, then the bind
/// address 0.0.0.0:0.
pub fn reply_bytes(status: u8) -> (r: [u8; 10])
    ensures
        r@ == seq![SOCKS_VERSION, status, 0u8, ATYP_IPV4, 0u8, 0u8, 0u8, 0u8, 0u8, 0u8],
{
    let r = [SOCKS_VERSION, status, 0u8, ATYP_IPV4, 0u8, 0u8, 0u8, 0u8, 0u8, 0u8];
    assert(r@ =~= seq![SOCKS_VERSION, status, 0u8, ATYP_IPV4, 0u8, 0u8, 0u8, 0u8, 0u8, 0u8]);
    r
}

/// The reply status for a refused session: command not supported, address
/// type not supported, or a general failure.
pub fn failure_reply_code(err: &ProxyError) -> (r: u8)
    ensures
        err is CommandNotSupported ==> r == REPLY_COMMAND_NOT_SUPPORTED,
        err is AddressTypeNotSupported ==> r == REPLY_ADDRESS_TYPE_NOT_SUPPORTED,
        !(err is CommandNotSupported) && !(err is AddressTypeNotSupported) ==> r
            == REPLY_GENERAL_FAILURE,
{
    match err {
        ProxyError::CommandNotSupported(_) => REPLY_COMMAND_NOT_SUPPORTED,
        ProxyError::AddressTypeNotSupported(_) => REPLY_ADDRESS_TYPE_NOT_SUPPORTED,
        _ => REPLY_GENERAL_FAILURE,
    }
}

/// Largest piece of client data sent in one relay cell.
pub const RELAY_DATA_MAX: usize = 498;

/// Where a client session stands.
#[derive(Debug)]
pub enum SessionState {
    /// Waiting for the methods the client offers.
    AwaitGreeting,
    /// Waiting for the request.
    AwaitRequest,
    /// A circuit is being built for this request.
    AwaitCircuit(Socks5Request),
    /// The target is being connected.
    AwaitTarget,
    /// Bytes are being copied both ways.
    Relaying,
    Closed,
}

/// Why the stream to a target did not open.
#[derive(Debug, Clone, Copy, PartialEq, Eq, Structural)]
pub enum TargetFailure {
    HostUnreachable,
    ConnectionRefused,
    Other,
}

pub const REPLY_HOST_UNREACHABLE: u8 = 4;

pub const REPLY_CONNECTION_REFUSED: u8 = 5;

/// The reply status for a stream that did not open.
pub open spec fn target_failure_code(f: TargetFailure) -> u8 {
    match f {
        TargetFailure::HostUnreachable => REPLY_HOST_UNREACHABLE,
        TargetFailure::ConnectionRefused => REPLY_CONNECTION_REFUSED,
        TargetFailure::Other => REPLY_GENERAL_FAILURE,
    }
}

/// What happened since the last step.
#[derive(Debug)]
pub enum SessionEvent {
    /// The client offered these authentication methods.
    MethodsOffered(Vec<u8>),
    /// The request was read, or why it could not be.
    RequestRead(Result<Socks5Request, ProxyError>),
    CircuitBuilt,
    CircuitFailed(CircuitError),
    /// The stream to the target is open.
    TargetConnected,
    /// The stream to the target could not be opened, and why.
    TargetFailed(TargetFailure),
    /// Both directions of the relay have ended.
    RelayFinished,
}

/// What the session does next.
#[derive(Debug)]
pub enum SessionAction {
    /// Send these bytes and read on.
    Reply(Vec<u8>),
    /// Send these bytes, then close.
    ReplyAndClose(Vec<u8>),
    /// Build a circuit for the request.
    BuildCircuit,
    /// Open a stream to the request's target.
    OpenStream(Socks5Request),
    /// Send these bytes, then copy bytes both ways.
    ReplyAndRelay(Vec<u8>),
    Close,
}

fn to_vec2(b: [u8; 2]) -> (r: Vec<u8>)
    ensures
        r@ == b@,
{
    let mut v: Vec<u8> = Vec::new();
    v.push(b[0]);
    v.push(b[1]);
    assert(v@ =~= b@);
    v
}

fn to_vec10(b: [u8; 10]) -> (r: Vec<u8>)
    ensures
        r@ == b@,
{
    let mut v: Vec<u8> = Vec::new();
    let mut i: usize = 0;
    while i < 10
        invariant
            i <= 10,
            v@ == b@.subrange(0, i as int),
        decreases 10 - i,
    {
        v.push(b[i]);
        i += 1;
        assert(v@ =~= b@.subrange(0, i as int));
    }
    assert(b@.subrange(0, 10) =~= b@);
    v
}

/// The reply bytes for a status, as a sequence.
pub open spec fn reply_seq(status: u8) -> Seq<u8> {
    seq![SOCKS_VERSION, status, 0u8, ATYP_IPV4, 0u8, 0u8, 0u8, 0u8, 0u8, 0u8]
}

/// One step of a client session: after negotiation the request is read; a
/// refused request is answered with its failure code; a circuit is built
/// for an accepted one and a stream to the target opened through it; only
/// once that stream is open is success answered and bytes relayed until both
/// directions end. A stream that does not open is answered with host
/// unreachable, connection refused or general failure. Any event out of
/// order closes the session.
pub fn session_step(state: SessionState, event: SessionEvent) -> (r: (SessionState, SessionAction))
    ensures
        match (state, event) {
            (SessionState::AwaitGreeting, SessionEvent::MethodsOffered(m)) => if m@.contains(
                METHOD_NO_AUTH,
            ) {
                r.0 is AwaitRequest && (r.1 matches SessionAction::Reply(b) && b@ == seq![
                    SOCKS_VERSION,
                    METHOD_NO_AUTH,
                ])
            } else {
                r.0 is Closed && (r.1 matches SessionAction::ReplyAndClose(b) && b@ == seq![
                    SOCKS_VERSION,
                    0xFFu8,
                ])
            },
            (SessionState::AwaitRequest, SessionEvent::RequestRead(Ok(req))) => (r.0 matches SessionState::AwaitCircuit(q) && q.host@ == req.host@ && q.port == req.port) && r.1 is BuildCircuit,
            (SessionState::AwaitRequest, SessionEvent::RequestRead(Err(e))) => r.0 is Closed && if e is Io {
                r.1 is Close
            } else {
                r.1 matches SessionAction::ReplyAndClose(b) && (e is CommandNotSupported ==> b@ == reply_seq(REPLY_COMMAND_NOT_SUPPORTED)) && (e is AddressTypeNotSupported ==> b@ == reply_seq(REPLY_ADDRESS_TYPE_NOT_SUPPORTED)) && (!(e is CommandNotSupported) && !(e is AddressTypeNotSupported) ==> b@ == reply_seq(REPLY_GENERAL_FAILURE))
            },
            (SessionState::AwaitCircuit(req), SessionEvent::CircuitBuilt) => r.0 is AwaitTarget && (r.1 matches SessionAction::OpenStream(q) && q.host@ == req.host@ && q.port == req.port),
            (SessionState::AwaitCircuit(_), SessionEvent::CircuitFailed(_)) => r.0 is Closed && (r.1 matches SessionAction::ReplyAndClose(b) && b@ == reply_seq(REPLY_GENERAL_FAILURE)),
            (SessionState::AwaitTarget, SessionEvent::TargetConnected) => r.0 is Relaying && (r.1 matches SessionAction::ReplyAndRelay(b) && b@ == reply_seq(REPLY_SUCCEEDED)),
            (SessionState::AwaitTarget, SessionEvent::TargetFailed(f)) => r.0 is Closed && (r.1 matches SessionAction::ReplyAndClose(b) && b@ == reply_seq(target_failure_code(f))),
            (SessionState::Relaying, SessionEvent::RelayFinished) => r.0 is Closed && r.1 is Close,
            _ => r.0 is Closed && r.1 is Close,
        },
{
    match state {
        SessionState::AwaitGreeting => match event {
            SessionEvent::MethodsOffered(m) => match negotiate_method(m.as_slice()) {
                Ok(reply) => (SessionState::AwaitRequest, SessionAction::Reply(to_vec2(reply))),
                Err(_) => {
                    let refuse = [SOCKS_VERSION, 0xFFu8];
                    assert(refuse@ =~= seq![SOCKS_VERSION, 0xFFu8]);
                    (SessionState::Closed, SessionAction::ReplyAndClose(to_vec2(refuse)))
                },
            },
            _ => (SessionState::Closed, SessionAction::Close),
        },
        SessionState::AwaitRequest => match event {
            SessionEvent::RequestRead(Ok(req)) => (SessionState::AwaitCircuit(req), SessionAction::BuildCircuit),
            SessionEvent::RequestRead(Err(e)) => {
                if let ProxyError::Io(_) = e {
                    (SessionState::Closed, SessionAction::Close)
                } else {
                    let code = failure_reply_code(&e);
                    (SessionState::Closed, SessionAction::ReplyAndClose(to_vec10(reply_bytes(code))))
                }
            },
            _ => (SessionState::Closed, SessionAction::Close),
        },
        SessionState::AwaitCircuit(req) => match event {
            SessionEvent::CircuitBuilt => (SessionState::AwaitTarget, SessionAction::OpenStream(req)),
            SessionEvent::CircuitFailed(_) => (
                SessionState::Closed,
                SessionAction::ReplyAndClose(to_vec10(reply_bytes(REPLY_GENERAL_FAILURE))),
            ),
            _ => (SessionState::Closed, SessionAction::Close),
        },
        SessionState::AwaitTarget => match event {
            SessionEvent::TargetConnected => (
                SessionState::Relaying,
                SessionAction::ReplyAndRelay(to_vec10(reply_bytes(REPLY_SUCCEEDED))),
            ),
            SessionEvent::TargetFailed(f) => {
                let code = match f {
                    TargetFailure::HostUnreachable => REPLY_HOST_UNREACHABLE,
                    TargetFailure::ConnectionRefused => REPLY_CONNECTION_REFUSED,
                    TargetFailure::Other => REPLY_GENERAL_FAILURE,
                };
                (SessionState::Closed, SessionAction::ReplyAndClose(to_vec10(reply_bytes(code))))
            },
            _ => (SessionState::Closed, SessionAction::Close),
        },
        SessionState::Relaying => match event {
            SessionEvent::RelayFinished => (SessionState::Closed, SessionAction::Close),
            _ => (SessionState::Closed, SessionAction::Close),
        },
        SessionState::Closed => (SessionState::Closed, SessionAction::Close),
    }
}

} // verus!
