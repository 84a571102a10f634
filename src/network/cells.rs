//! Fixed-size cells and the CREATE2 / CREATED2 handshake payloads.
use vstd::prelude::*;

verus! {

pub const CELL_COMMAND_CREATE2: u8 = 10;

pub const CELL_COMMAND_CREATED2: u8 = 11;

pub const CELL_COMMAND_RELAY: u8 = 3;

/// Size of a cell on the wire: circuit id, command, payload.
pub const CELL_LEN: usize = 514;

/// Room for the payload inside one cell.
pub const CELL_PAYLOAD_LEN: usize = 509;

/// Handshake type of ntor inside a CREATE2 payload.
pub const HANDSHAKE_TYPE_NTOR: u16 = 2;

/// Handshake-data length that a CREATED2 payload must announce.
pub const CREATED2_HANDSHAKE_LEN: u16 = 64;

/// Why bytes could not be framed or read as a cell or handshake payload.
#[derive(Debug, Clone, Copy, PartialEq, Eq, Structural)]
pub enum CellFormatError {
    /// The payload does not fit in the 509 bytes of a cell.
    PayloadTooLong,
    /// A wire cell is not exactly 514 bytes long.
    WrongCellLength,
    /// The payload ends before the fields it announces.
    PayloadTooShort,
    /// The announced handshake-data length is not the one required.
    InvalidHandshakeLength,
}

/// The four bytes of `x`, most significant first.
pub open spec fn be32(x: u32) -> Seq<u8> {
    seq![(x >> 24u32) as u8, (x >> 16u32) as u8, (x >> 8u32) as u8, x as u8]
}

/// The two bytes of `x`, most significant first.
pub open spec fn be16(x: u16) -> Seq<u8> {
    seq![(x >> 8u16) as u8, x as u8]
}

/// The integer that four big-endian bytes spell.
pub open spec fn from_be32(b0: u8, b1: u8, b2: u8, b3: u8) -> u32 {
    ((b0 as u32) << 24u32) | ((b1 as u32) << 16u32) | ((b2 as u32) << 8u32) | (b3 as u32)
}

/// The integer that two big-endian bytes spell.
pub open spec fn from_be16(b0: u8, b1: u8) -> u16 {
    (((b0 as u16) << 8u16) | (b1 as u16)) as u16
}

pub proof fn lemma_be32_round_trip(x: u32)
    ensures
        from_be32(be32(x)[0], be32(x)[1], be32(x)[2], be32(x)[3]) == x,
{
    let b0 = (x >> 24u32) as u8;
    let b1 = (x >> 16u32) as u8;
    let b2 = (x >> 8u32) as u8;
    let b3 = x as u8;
    assert(((b0 as u32) << 24u32) | ((b1 as u32) << 16u32) | ((b2 as u32) << 8u32) | (b3 as u32)
        == x) by (bit_vector)
        requires
            b0 == (x >> 24u32) as u8,
            b1 == (x >> 16u32) as u8,
            b2 == (x >> 8u32) as u8,
            b3 == x as u8,
    ;
}

pub proof fn lemma_be16_round_trip(x: u16)
    ensures
        from_be16(be16(x)[0], be16(x)[1]) == x,
{
    let b0 = (x >> 8u16) as u8;
    let b1 = x as u8;
    assert((((b0 as u16) << 8u16) | (b1 as u16)) as u16 == x) by (bit_vector)
        requires
            b0 == (x >> 8u16) as u8,
            b1 == x as u8,
    ;
}

/// `s` followed by zeros up to `n` bytes.
pub open spec fn zero_padded(s: Seq<u8>, n: nat) -> Seq<u8> {
    s + Seq::new((n - s.len()) as nat, |i: int| 0u8)
}

/// A cell as the protocol sees it: header fields and a payload.
#[derive(Debug, Clone)]
pub struct Cell {
    pub circ_id: u32,
    pub command: u8,
    pub payload: Vec<u8>,
}

/// The 514 wire bytes of a cell whose payload fits.
pub open spec fn cell_wire(circ_id: u32, command: u8, payload: Seq<u8>) -> Seq<u8> {
    be32(circ_id) + seq![command] + zero_padded(payload, CELL_PAYLOAD_LEN as nat)
}

fn push_be32(out: &mut Vec<u8>, x: u32)
    ensures
        final(out)@ == old(out)@ + be32(x),
{
    out.push((x >> 24u32) as u8);
    out.push((x >> 16u32) as u8);
    out.push((x >> 8u32) as u8);
    out.push(x as u8);
    assert(final(out)@ =~= old(out)@ + be32(x));
}

fn push_be16(out: &mut Vec<u8>, x: u16)
    ensures
        final(out)@ == old(out)@ + be16(x),
{
    out.push((x >> 8u16) as u8);
    out.push(x as u8);
    assert(final(out)@ =~= old(out)@ + be16(x));
}

pub fn push_all(out: &mut Vec<u8>, s: &[u8])
    ensures
        final(out)@ == old(out)@ + s@,
{
    let ghost start = out@;
    let mut i: usize = 0;
    while i < s.len()
        invariant
            i <= s@.len(),
            out@ == start + s@.subrange(0, i as int),
        decreases s@.len() - i,
    {
        out.push(s[i]);
        i += 1;
        assert(out@ =~= start + s@.subrange(0, i as int));
    }
    assert(s@.subrange(0, s@.len() as int) =~= s@);
}

impl Cell {
    /// Frames the cell as 514 bytes: big-endian circuit id, command, then the
    /// payload left-aligned and zero-padded. A payload over 509 bytes is refused.
    pub fn to_bytes(&self) -> (r: Result<Vec<u8>, CellFormatError>)
        ensures
            self.payload@.len() <= CELL_PAYLOAD_LEN ==> r == Ok::<Vec<u8>, CellFormatError>(
                r->Ok_0,
            ) && r->Ok_0@ == cell_wire(self.circ_id, self.command, self.payload@),
            self.payload@.len() > CELL_PAYLOAD_LEN ==> r == Err::<Vec<u8>, CellFormatError>(
                CellFormatError::PayloadTooLong,
            ),
    {
        if self.payload.len() > CELL_PAYLOAD_LEN {
            return Err(CellFormatError::PayloadTooLong);
        }
        let mut out: Vec<u8> = Vec::with_capacity(CELL_LEN);
        push_be32(&mut out, self.circ_id);
        out.push(self.command);
        push_all(&mut out, self.payload.as_slice());
        let ghost filled = out@;
        while out.len() < CELL_LEN
            invariant
                5 + self.payload@.len() <= out@.len() <= CELL_LEN,
                out@.subrange(0, filled.len() as int) == filled,
                forall|k: int| filled.len() <= k < out@.len() ==> out@[k] == 0u8,
                filled == be32(self.circ_id) + seq![self.command] + self.payload@,
            decreases CELL_LEN - out@.len(),
        {
            out.push(0u8);
        }
        let ghost want = cell_wire(self.circ_id, self.command, self.payload@);
        assert(want.len() == out@.len());
        assert forall|k: int| 0 <= k < out@.len() implies out@[k] == want[k] by {
            if k < filled.len() {
                assert(out@[k] == out@.subrange(0, filled.len() as int)[k]);
            }
        }
        assert(out@ =~= want);
        Ok(out)
    }

    /// Reads a 514-byte wire cell: its header fields and its 509-byte payload.
    pub fn from_bytes(bytes: &[u8]) -> (r: Result<Cell, CellFormatError>)
        ensures
            bytes@.len() != CELL_LEN ==> r == Err::<Cell, CellFormatError>(
                CellFormatError::WrongCellLength,
            ),
            bytes@.len() == CELL_LEN ==> r is Ok && r->Ok_0.circ_id == from_be32(
                bytes@[0],
                bytes@[1],
                bytes@[2],
                bytes@[3],
            ) && r->Ok_0.command == bytes@[4] && r->Ok_0.payload@ == bytes@.subrange(
                5,
                CELL_LEN as int,
            ),
    {
        if bytes.len() != CELL_LEN {
            return Err(CellFormatError::WrongCellLength);
        }
        let circ_id = ((bytes[0] as u32) << 24u32) | ((bytes[1] as u32) << 16u32) | ((
        bytes[2] as u32) << 8u32) | (bytes[3] as u32);
        let mut payload: Vec<u8> = Vec::with_capacity(CELL_PAYLOAD_LEN);
        push_all(&mut payload, slice_range(bytes, 5, CELL_LEN));
        Ok(Cell { circ_id, command: bytes[4], payload })
    }
}

/// A CREATE2 payload read as (handshake type, handshake data), or why not.
pub open spec fn create2_parse(p: Seq<u8>) -> Result<(u16, Seq<u8>), CellFormatError> {
    if p.len() < 4 {
        Err(CellFormatError::PayloadTooShort)
    } else {
        let hlen = from_be16(p[2], p[3]);
        if p.len() < 4 + hlen {
            Err(CellFormatError::PayloadTooShort)
        } else {
            Ok((from_be16(p[0], p[1]), p.subrange(4, 4 + hlen as int)))
        }
    }
}

/// The CREATE2 payload bytes: type, data length, data.
pub open spec fn create2_payload(htype: u16, data: Seq<u8>) -> Seq<u8> {
    be16(htype) + be16(data.len() as u16) + data
}

/// The CREATE2 payload that opens an ntor handshake.
#[derive(Debug, Clone)]
pub struct Create2Cell {
    pub handshake_type: u16,
    pub handshake_data: Vec<u8>,
}

impl Create2Cell {
    /// An ntor CREATE2 payload carrying the client's ephemeral public key.
    pub fn new(client_public_key: &[u8; 32]) -> (r: Self)
        ensures
            r.handshake_type == HANDSHAKE_TYPE_NTOR,
            r.handshake_data@ == client_public_key@,
    {
        let mut handshake_data: Vec<u8> = Vec::with_capacity(32);
        push_all(&mut handshake_data, client_public_key.as_slice());
        Create2Cell { handshake_type: HANDSHAKE_TYPE_NTOR, handshake_data }
    }

    /// Type, then the data length (its low 16 bits), then the data.
    pub fn to_bytes(&self) -> (r: Vec<u8>)
        ensures
            r@ == create2_payload(self.handshake_type, self.handshake_data@),
    {
        let mut bytes: Vec<u8> = Vec::new();
        push_be16(&mut bytes, self.handshake_type);
        push_be16(&mut bytes, #[verifier::truncate] (self.handshake_data.len() as u16));
        push_all(&mut bytes, self.handshake_data.as_slice());
        bytes
    }

    /// Reads a CREATE2 payload; bytes after the announced data are ignored.
    pub fn from_bytes(payload: &[u8]) -> (r: Result<Create2Cell, CellFormatError>)
        ensures
            match create2_parse(payload@) {
                Ok((t, d)) => r is Ok && r->Ok_0.handshake_type == t && r->Ok_0.handshake_data@
                    == d,
                Err(e) => r == Err::<Create2Cell, CellFormatError>(e),
            },
    {
        if payload.len() < 4 {
            return Err(CellFormatError::PayloadTooShort);
        }
        let hlen = (((payload[2] as u16) << 8u16) | (payload[3] as u16)) as u16;
        if payload.len() < 4 + hlen as usize {
            return Err(CellFormatError::PayloadTooShort);
        }
        let handshake_type = (((payload[0] as u16) << 8u16) | (payload[1] as u16)) as u16;
        let mut handshake_data: Vec<u8> = Vec::with_capacity(hlen as usize);
        push_all(&mut handshake_data, slice_range(payload, 4, 4 + hlen as usize));
        Ok(Create2Cell { handshake_type, handshake_data })
    }
}

/// A CREATED2 payload read as (server public key, auth tag), or why not.
pub open spec fn created2_parse(p: Seq<u8>) -> Result<(Seq<u8>, Seq<u8>), CellFormatError> {
    if p.len() < 2 {
        Err(CellFormatError::PayloadTooShort)
    } else if from_be16(p[0], p[1]) != CREATED2_HANDSHAKE_LEN {
        Err(CellFormatError::InvalidHandshakeLength)
    } else if p.len() < 66 {
        Err(CellFormatError::PayloadTooShort)
    } else {
        Ok((p.subrange(2, 34), p.subrange(34, 66)))
    }
}

/// The CREATED2 payload bytes: length 64, server key, auth tag.
pub open spec fn created2_payload(server_key: Seq<u8>, auth: Seq<u8>) -> Seq<u8> {
    be16(CREATED2_HANDSHAKE_LEN) + server_key + auth
}

/// The relay's answer to CREATE2: its ephemeral key and the tag it computed.
#[derive(Debug, Clone)]
pub struct Created2Cell {
    pub server_public_key: [u8; 32],
    pub auth: Vec<u8>,
}

impl Created2Cell {
    /// Reads a CREATED2 payload: a length that must be 64, then 32 bytes of
    /// server key and 32 bytes of auth tag.
    pub fn from_bytes(payload: &[u8]) -> (r: Result<Created2Cell, CellFormatError>)
        ensures
            match created2_parse(payload@) {
                Ok((k, a)) => r is Ok && r->Ok_0.server_public_key@ == k && r->Ok_0.auth@ == a,
                Err(e) => r == Err::<Created2Cell, CellFormatError>(e),
            },
    {
        if payload.len() < 2 {
            return Err(CellFormatError::PayloadTooShort);
        }
        let hlen = (((payload[0] as u16) << 8u16) | (payload[1] as u16)) as u16;
        if hlen != CREATED2_HANDSHAKE_LEN {
            return Err(CellFormatError::InvalidHandshakeLength);
        }
        if payload.len() < 66 {
            return Err(CellFormatError::PayloadTooShort);
        }
        let mut server_public_key = [0u8; 32];
        let mut i: usize = 0;
        while i < 32
            invariant
                i <= 32,
                payload@.len() >= 66,
                forall|k: int| 0 <= k < i ==> server_public_key@[k] == payload@[2 + k],
            decreases 32 - i,
        {
            server_public_key[i] = payload[2 + i];
            i += 1;
        }
        assert(server_public_key@ =~= payload@.subrange(2, 34));
        let mut auth: Vec<u8> = Vec::with_capacity(32);
        push_all(&mut auth, slice_range(payload, 34, 66));
        Ok(Created2Cell { server_public_key, auth })
    }

    /// The payload this cell was read from: length 64, key, tag.
    pub fn to_bytes(&self) -> (r: Vec<u8>)
        ensures
            r@ == created2_payload(self.server_public_key@, self.auth@),
    {
        let mut bytes: Vec<u8> = Vec::with_capacity(66);
        push_be16(&mut bytes, CREATED2_HANDSHAKE_LEN);
        push_all(&mut bytes, self.server_public_key.as_slice());
        push_all(&mut bytes, self.auth.as_slice());
        bytes
    }
}

/// Framing a cell and reading it back gives the same circuit id and command,
/// and the payload followed by zeros up to 509 bytes.
pub proof fn lemma_cell_round_trip(circ_id: u32, command: u8, payload: Seq<u8>)
    requires
        payload.len() <= CELL_PAYLOAD_LEN,
    ensures
        ({
            let w = cell_wire(circ_id, command, payload);
            &&& w.len() == CELL_LEN
            &&& from_be32(w[0], w[1], w[2], w[3]) == circ_id
            &&& w[4] == command
            &&& w.subrange(5, CELL_LEN as int) == zero_padded(payload, CELL_PAYLOAD_LEN as nat)
            &&& w.subrange(5, 5 + payload.len() as int) == payload
        }),
{
    let w = cell_wire(circ_id, command, payload);
    lemma_be32_round_trip(circ_id);
    assert(w.subrange(5, CELL_LEN as int) =~= zero_padded(payload, CELL_PAYLOAD_LEN as nat));
    assert(w.subrange(5, 5 + payload.len() as int) =~= payload);
}

/// A payload of exactly 509 bytes fills the cell: every byte of it is on the
/// wire, none cut off.
pub proof fn lemma_full_payload_kept(circ_id: u32, command: u8, payload: Seq<u8>)
    requires
        payload.len() == CELL_PAYLOAD_LEN,
    ensures
        cell_wire(circ_id, command, payload).subrange(5, CELL_LEN as int) == payload,
{
    let w = cell_wire(circ_id, command, payload);
    assert(w.subrange(5, CELL_LEN as int) =~= payload);
}

/// Writing a CREATE2 payload and reading it back gives the same type and data.
pub proof fn lemma_create2_round_trip(htype: u16, data: Seq<u8>)
    requires
        data.len() <= u16::MAX,
    ensures
        create2_parse(create2_payload(htype, data)) == Ok::<(u16, Seq<u8>), CellFormatError>(
            (htype, data),
        ),
{
    let p = create2_payload(htype, data);
    lemma_be16_round_trip(htype);
    lemma_be16_round_trip(data.len() as u16);
    assert((data.len() as u16) as int == data.len());
    assert(p.subrange(4, 4 + data.len() as int) =~= data);
}

/// Writing a CREATED2 payload and reading it back gives the same key and tag.
pub proof fn lemma_created2_round_trip(server_key: Seq<u8>, auth: Seq<u8>)
    requires
        server_key.len() == 32,
        auth.len() == 32,
    ensures
        created2_parse(created2_payload(server_key, auth)) == Ok::<
            (Seq<u8>, Seq<u8>),
            CellFormatError,
        >((server_key, auth)),
{
    let p = created2_payload(server_key, auth);
    lemma_be16_round_trip(CREATED2_HANDSHAKE_LEN);
    assert(p.subrange(2, 34) =~= server_key);
    assert(p.subrange(34, 66) =~= auth);
}

/// The bytes `s[from..to]` as a slice.
pub fn slice_range(s: &[u8], from: usize, to: usize) -> (r: &[u8])
    requires
        from <= to <= s@.len(),
    ensures
        r@ == s@.subrange(from as int, to as int),
{
    let (head, _) = s.split_at(to);
    let (_, mid) = head.split_at(from);
    mid
}

} // verus!
