//! Circuit bookkeeping: id allocation, per-hop keying, the circuit state
//! machine, and the handshake's framing and checks.
use std::collections::HashMap;
use vstd::prelude::*;
use crate::crypto::{
    aes256gcm_seal, ephemeral_public_key, AEAD_MAX_INPUT, fresh_ephemeral_secret, nonce_bytes, ntor_handshake, ntor_okm, CryptoError, NtorKeys,
    OnionCrypto,
};
use crate::directory::{copy_bytes, DirectoryError, OrAddress, RelayDescriptor};
use crate::network::cells::{
    cell_wire, create2_payload, created2_parse, from_be32, slice_range, Cell,
    Create2Cell, Created2Cell, CELL_COMMAND_CREATE2, CELL_COMMAND_CREATED2, HANDSHAKE_TYPE_NTOR,
};
use crate::security::constant_time_compare;

verus! {

broadcast use vstd::std_specs::hash::group_hash_axioms;

#[derive(Debug)]
pub enum CircuitError {
    Crypto(String),
    Directory(DirectoryError),
    Io(String),
    NoSuitableRelays,
    HandshakeFailed(String),
    /// Every circuit id has been given out.
    IdsExhausted,
    /// The circuit does not exist or is not Ready.
    NotReady,
}

impl From<DirectoryError> for CircuitError {
    fn from(err: DirectoryError) -> (r: CircuitError) {
        CircuitError::Directory(err)
    }
}

impl vstd::std_specs::convert::FromSpecImpl<DirectoryError> for CircuitError {
    open spec fn obeys_from_spec() -> bool {
        true
    }

    open spec fn from_spec(v: DirectoryError) -> CircuitError {
        CircuitError::Directory(v)
    }
}

impl CircuitError {
    /// The circuit error for a failed key operation.
    pub fn from_crypto(err: CryptoError) -> (r: CircuitError)
        ensures
            r is Crypto,
    {
        match err {
            CryptoError::RingError(_) => CircuitError::Crypto("AEAD operation failed".to_string()),
            CryptoError::NtorError(m) => CircuitError::Crypto(m),
            CryptoError::NonceExhausted => CircuitError::Crypto("nonce counter exhausted".to_string()),
        }
    }
}

pub type CircuitId = u32;

#[derive(Debug, Clone)]
pub enum CircuitState {
    Building,
    Ready,
    Closed,
    Error(String),
}

pub enum StateView {
    Building,
    Ready,
    Closed,
    Error(Seq<char>),
}

impl View for CircuitState {
    type V = StateView;

    open spec fn view(&self) -> StateView {
        match self {
            CircuitState::Building => StateView::Building,
            CircuitState::Ready => StateView::Ready,
            CircuitState::Closed => StateView::Closed,
            CircuitState::Error(s) => StateView::Error(s@),
        }
    }
}

impl CircuitState {
    /// A state equal to this one.
    pub fn copy(&self) -> (r: CircuitState)
        ensures
            r@ == self@,
    {
        match self {
            CircuitState::Building => CircuitState::Building,
            CircuitState::Ready => CircuitState::Ready,
            CircuitState::Closed => CircuitState::Closed,
            CircuitState::Error(s) => CircuitState::Error(s.clone()),
        }
    }
}

impl PartialEq for CircuitState {
    fn eq(&self, other: &CircuitState) -> (r: bool) {
        match self {
            CircuitState::Building => match other {
                CircuitState::Building => true,
                _ => false,
            },
            CircuitState::Ready => match other {
                CircuitState::Ready => true,
                _ => false,
            },
            CircuitState::Closed => match other {
                CircuitState::Closed => true,
                _ => false,
            },
            CircuitState::Error(a) => match other {
                CircuitState::Error(b) => *a == *b,
                _ => false,
            },
        }
    }
}

impl vstd::std_specs::cmp::PartialEqSpecImpl for CircuitState {
    open spec fn obeys_eq_spec() -> bool {
        true
    }

    open spec fn eq_spec(&self, other: &CircuitState) -> bool {
        self@ == other@
    }
}

/// One relay of a circuit; its keying state exists once its handshake is done.
pub struct RelayHop {
    pub relay_id: String,
    pub ip: OrAddress,
    pub identity_key: Vec<u8>,
    pub onion_key: Vec<u8>,
    pub crypto_state: Option<OnionCrypto>,
}

/// Keying state as values: forward key, backward key, their counters.
pub struct KeysView {
    pub forward_key: Seq<u8>,
    pub backward_key: Seq<u8>,
    pub forward_counter: u64,
    pub backward_counter: u64,
}

pub struct HopView {
    pub relay_id: Seq<char>,
    pub identity_key: Seq<u8>,
    pub onion_key: Seq<u8>,
    pub keys: Option<KeysView>,
}

pub open spec fn keys_view(c: OnionCrypto) -> KeysView {
    KeysView {
        forward_key: c.forward_key_bytes(),
        backward_key: c.backward_key_bytes(),
        forward_counter: c.forward_counter(),
        backward_counter: c.backward_counter(),
    }
}

impl View for RelayHop {
    type V = HopView;

    open spec fn view(&self) -> HopView {
        HopView {
            relay_id: self.relay_id@,
            identity_key: self.identity_key@,
            onion_key: self.onion_key@,
            keys: match self.crypto_state {
                None => None,
                Some(c) => Some(keys_view(c)),
            },
        }
    }
}

impl RelayHop {
    /// A hop for `relay`, not yet keyed.
    pub fn from_relay(relay: &RelayDescriptor) -> (r: RelayHop)
        ensures
            r@.relay_id == relay@.id,
            r@.identity_key == relay@.identity_key,
            r@.onion_key == relay@.onion_key,
            r@.keys is None,
            r.ip == relay.address,
    {
        RelayHop {
            relay_id: relay.id.clone(),
            ip: relay.address,
            identity_key: copy_bytes(&relay.identity_key),
            onion_key: copy_bytes(&relay.onion_key),
            crypto_state: None,
        }
    }
}

pub struct Circuit {
    pub id: CircuitId,
    pub hops: Vec<RelayHop>,
    pub state: CircuitState,
    /// Creation time, in seconds since the Unix epoch.
    pub created_at: u64,
}

pub struct CircuitView {
    pub id: u32,
    pub hops: Seq<HopView>,
    pub state: StateView,
    pub created_at: u64,
}

pub open spec fn hop_views(h: Seq<RelayHop>) -> Seq<HopView> {
    h.map_values(|x: RelayHop| x@)
}

impl View for Circuit {
    type V = CircuitView;

    open spec fn view(&self) -> CircuitView {
        CircuitView {
            id: self.id,
            hops: hop_views(self.hops@),
            state: self.state@,
            created_at: self.created_at,
        }
    }
}


pub open spec fn all_zero(k: Seq<u8>) -> bool {
    k == Seq::new(32, |i: int| 0u8)
}

/// A hop is keyed when its handshake installed keys, neither all zeros.
pub open spec fn hop_keyed(h: HopView) -> bool {
    h.keys is Some && !all_zero(h.keys->0.forward_key) && !all_zero(h.keys->0.backward_key)
}

/// The state of the circuit with id `id`, if there is one.
pub open spec fn state_of(cs: Map<u32, CircuitView>, id: u32) -> Option<StateView> {
    if cs.contains_key(id) {
        Some(cs[id].state)
    } else {
        None
    }
}

/// Circuits are consistent with the id counter: each is filed under its id,
/// given out from 1 and below the next id; each has at least one hop; a
/// Ready circuit has every hop keyed.
pub open spec fn circuits_wf(cs: Map<u32, CircuitView>, next: u32) -> bool {
    &&& next >= 1
    &&& forall|id: u32|
        #[trigger] cs.contains_key(id) ==> 1 <= id < next && cs[id].id == id && cs[id].hops.len()
            >= 1 && (cs[id].state == StateView::Ready ==> all_hops_keyed(cs[id]))
}

/// `c` closed: state Closed, every hop's keys gone.
pub open spec fn closed_view(c: CircuitView) -> CircuitView {
    CircuitView {
        id: c.id,
        hops: c.hops.map_values(
            |h: HopView|
                HopView {
                    relay_id: h.relay_id,
                    identity_key: h.identity_key,
                    onion_key: h.onion_key,
                    keys: None,
                },
        ),
        state: StateView::Closed,
        created_at: c.created_at,
    }
}

/// The circuits after tearing down `id`: that circuit Closed, its keys gone.
pub open spec fn torn_down(cs: Map<u32, CircuitView>, id: u32) -> Map<u32, CircuitView> {
    if cs.contains_key(id) {
        cs.insert(id, closed_view(cs[id]))
    } else {
        cs
    }
}

/// Tearing a circuit down twice leaves it as tearing it down once.
pub proof fn lemma_teardown_idempotent(cs: Map<u32, CircuitView>, id: u32)
    ensures
        torn_down(torn_down(cs, id), id) == torn_down(cs, id),
{
    if cs.contains_key(id) {
        let c = cs[id];
        assert(closed_view(closed_view(c)).hops =~= closed_view(c).hops);
        assert(closed_view(closed_view(c)) == closed_view(c));
        assert(torn_down(torn_down(cs, id), id) =~= torn_down(cs, id));
    }
}

/// Every circuit id given out is above every id given out before it.
pub proof fn lemma_new_id_above_all(cs: Map<u32, CircuitView>, next: u32)
    requires
        circuits_wf(cs, next),
    ensures
        forall|id: u32| #[trigger] cs.contains_key(id) ==> id < next,
{
}

/// In a Ready circuit every hop holds keys, and neither key is all zeros.
pub proof fn lemma_ready_circuit_keyed(cs: Map<u32, CircuitView>, next: u32, id: u32)
    requires
        circuits_wf(cs, next),
        cs.contains_key(id),
        cs[id].state == StateView::Ready,
    ensures
        forall|h: int| 0 <= h < cs[id].hops.len() ==> hop_keyed(#[trigger] cs[id].hops[h]),
{
}

/// `c` with state `s`.
pub open spec fn with_state(c: CircuitView, s: StateView) -> CircuitView {
    CircuitView { id: c.id, hops: c.hops, state: s, created_at: c.created_at }
}

/// `c` with hop `h` keyed by `k`.
pub open spec fn with_hop_keys(c: CircuitView, h: int, k: KeysView) -> CircuitView {
    CircuitView {
        id: c.id,
        hops: c.hops.update(
            h,
            HopView {
                relay_id: c.hops[h].relay_id,
                identity_key: c.hops[h].identity_key,
                onion_key: c.hops[h].onion_key,
                keys: Some(k),
            },
        ),
        state: c.state,
        created_at: c.created_at,
    }
}

pub open spec fn all_hops_keyed(c: CircuitView) -> bool {
    forall|h: int| 0 <= h < c.hops.len() ==> hop_keyed(#[trigger] c.hops[h])
}

fn hop_is_keyed(hop: &RelayHop) -> (r: bool)
    ensures
        r == hop_keyed(hop@),
{
    match &hop.crypto_state {
        Some(c) => c.keys_nonzero(),
        None => false,
    }
}

/// The client's opening of a hop's handshake: a fresh ephemeral secret, its
/// public key, and the wire cell carrying CREATE2 with that key.
pub fn start_handshake(circuit_id: CircuitId) -> (r: (x25519_dalek::EphemeralSecret, [u8; 32], Vec<u8>))
    ensures
        r.2@ == cell_wire(
            circuit_id,
            CELL_COMMAND_CREATE2,
            create2_payload(HANDSHAKE_TYPE_NTOR, r.1@),
        ),
{
    let secret = fresh_ephemeral_secret();
    let public = ephemeral_public_key(&secret);
    let cell = create2_cell_bytes(circuit_id, &public);
    (secret, public, cell)
}

/// The 514-byte CREATE2 cell offering `client_public_key` for ntor.
pub fn create2_cell_bytes(circuit_id: CircuitId, client_public_key: &[u8; 32]) -> (r: Vec<u8>)
    ensures
        r@ == cell_wire(
            circuit_id,
            CELL_COMMAND_CREATE2,
            create2_payload(HANDSHAKE_TYPE_NTOR, client_public_key@),
        ),
{
    let payload = Create2Cell::new(client_public_key).to_bytes();
    let cell = Cell { circ_id: circuit_id, command: CELL_COMMAND_CREATE2, payload };
    match cell.to_bytes() {
        Ok(b) => b,
        Err(_) => {
            assert(false);
            Vec::new()
        },
    }
}

/// Checks a relay's reply to CREATE2: at least a header, the same circuit
/// id, the CREATED2 command, and a well-formed CREATED2 payload.
pub fn parse_created2_response(circuit_id: CircuitId, response: &[u8]) -> (r: Result<
    Created2Cell,
    CircuitError,
>)
    ensures
        response@.len() < 5 ==> (r matches Err(CircuitError::HandshakeFailed(_))),
        response@.len() >= 5 ==> {
            let ok_header = from_be32(response@[0], response@[1], response@[2], response@[3])
                == circuit_id && response@[4] == CELL_COMMAND_CREATED2;
            &&& !ok_header ==> (r matches Err(CircuitError::HandshakeFailed(_)))
            &&& ok_header ==> match created2_parse(response@.subrange(5, response@.len() as int)) {
                Ok((k, a)) => r matches Ok(c) && c.server_public_key@ == k && c.auth@ == a,
                Err(_) => r matches Err(CircuitError::HandshakeFailed(_)),
            }
        },
{
    if response.len() < 5 {
        return Err(CircuitError::HandshakeFailed("Response too short".to_string()));
    }
    let id = ((response[0] as u32) << 24u32) | ((response[1] as u32) << 16u32) | ((
    response[2] as u32) << 8u32) | (response[3] as u32);
    if id != circuit_id || response[4] != CELL_COMMAND_CREATED2 {
        return Err(CircuitError::HandshakeFailed("Invalid response from relay".to_string()));
    }
    match Created2Cell::from_bytes(slice_range(response, 5, response.len())) {
        Ok(c) => Ok(c),
        Err(_) => Err(CircuitError::HandshakeFailed("Malformed CREATED2 payload".to_string())),
    }
}


/// `h` after one use of its forward key.
pub open spec fn advanced(h: HopView) -> HopView {
    HopView {
        relay_id: h.relay_id,
        identity_key: h.identity_key,
        onion_key: h.onion_key,
        keys: match h.keys {
            None => None,
            Some(k) => Some(
                KeysView {
                    forward_key: k.forward_key,
                    backward_key: k.backward_key,
                    forward_counter: (k.forward_counter + 1) as u64,
                    backward_counter: k.backward_counter,
                },
            ),
        },
    }
}

/// The onion for hop `k`: sealed with hop `k`'s forward key and nonce
/// first, then with hop `k - 1`'s, and so on to hop 0.
pub open spec fn onion_sealed(hops: Seq<HopView>, k: int, payload: Seq<u8>) -> Seq<u8>
    decreases k + 1,
{
    if k < 0 {
        payload
    } else {
        onion_sealed(
            hops,
            k - 1,
            aes256gcm_seal(
                hops[k].keys->0.forward_key,
                nonce_bytes(hops[k].keys->0.forward_counter),
                payload,
            ),
        )
    }
}

impl RelayHop {
    /// Seals `data` with this hop's forward key under its next nonce.
    pub fn seal_forward(&mut self, data: &[u8]) -> (r: Result<Vec<u8>, CircuitError>)
        ensures
            old(self)@.keys is None ==> r is Err,
            r is Err ==> final(self)@ == old(self)@,
            r matches Ok(c) ==> old(self)@.keys is Some && c@ == aes256gcm_seal(
                old(self)@.keys->0.forward_key,
                nonce_bytes(old(self)@.keys->0.forward_counter),
                data@,
            ) && old(self)@.keys->0.forward_counter < u64::MAX && final(self)@ == advanced(
                old(self)@,
            ),
            old(self)@.keys matches Some(k) && k.forward_counter == u64::MAX ==> r is Err,
            old(self)@.keys matches Some(k) && k.forward_counter < u64::MAX && data@.len()
                <= AEAD_MAX_INPUT ==> r is Ok,
            r matches Ok(c) ==> c@.len() == data@.len() + 16,
    {
        match &mut self.crypto_state {
            None => Err(CircuitError::NotReady),
            Some(c) => match c.encrypt_forward(data) {
                Ok(v) => Ok(v),
                Err(e) => Err(CircuitError::from_crypto(e)),
            },
        }
    }
}

/// Each use of a hop's key advances its counter, and distinct counters give
/// distinct nonces: no nonce repeats under one key.
pub proof fn lemma_send_fresh_nonce(h: HopView)
    requires
        h.keys is Some,
        h.keys->0.forward_counter < u64::MAX,
    ensures
        nonce_bytes(advanced(h).keys->0.forward_counter) != nonce_bytes(h.keys->0.forward_counter),
{
    crate::crypto::lemma_nonce_injective(
        advanced(h).keys->0.forward_counter,
        h.keys->0.forward_counter,
    );
}


/// `h` after one use of its backward key.
pub open spec fn advanced_back(h: HopView) -> HopView {
    HopView {
        relay_id: h.relay_id,
        identity_key: h.identity_key,
        onion_key: h.onion_key,
        keys: match h.keys {
            None => None,
            Some(k) => Some(
                KeysView {
                    forward_key: k.forward_key,
                    backward_key: k.backward_key,
                    forward_counter: k.forward_counter,
                    backward_counter: (k.backward_counter + 1) as u64,
                },
            ),
        },
    }
}

/// Whether hop `h`'s backward key opens `ct` under its next nonce: `ct`
/// seals a plaintext of a size AES-GCM accepts.
pub open spec fn opens(h: HopView, ct: Seq<u8>) -> bool {
    h.keys is Some && h.keys->0.backward_counter < u64::MAX && exists|p: Seq<u8>|
        p.len() <= AEAD_MAX_INPUT && aes256gcm_seal(
            h.keys->0.backward_key,
            nonce_bytes(h.keys->0.backward_counter),
            p,
        ) == ct
}

/// The plaintext that hop `h`'s backward key opens `ct` to.
pub open spec fn opened(h: HopView, ct: Seq<u8>) -> Seq<u8> {
    choose|p: Seq<u8>|
        p.len() <= AEAD_MAX_INPUT && aes256gcm_seal(
            h.keys->0.backward_key,
            nonce_bytes(h.keys->0.backward_counter),
            p,
        ) == ct
}

/// Peeling an inbound cell from hop `i` on: each hop whose backward key
/// opens what is left removes its layer; the result is the last hop that
/// did and what remained then.
pub open spec fn peeled(hops: Seq<HopView>, i: int, ct: Seq<u8>) -> (int, Seq<u8>)
    decreases hops.len() - i,
{
    if i < 0 || i >= hops.len() || !opens(hops[i], ct) {
        (i - 1, ct)
    } else {
        peeled(hops, i + 1, opened(hops[i], ct))
    }
}

impl RelayHop {
    /// Opens `data` with this hop's backward key under its next nonce.
    pub fn open_backward(&mut self, data: &[u8]) -> (r: Result<Vec<u8>, CircuitError>)
        ensures
            opens(old(self)@, data@) ==> (r matches Ok(p) && p@ == opened(old(self)@, data@))
                && final(self)@ == advanced_back(old(self)@),
            !opens(old(self)@, data@) ==> r is Err && final(self)@ == old(self)@,
    {
        match &mut self.crypto_state {
            None => Err(CircuitError::NotReady),
            Some(c) => {
                let ghost k = keys_view(*c);
                let res = c.decrypt_backward(data);
                proof {
                    if opens(old(self)@, data@) {
                        let p = opened(old(self)@, data@);
                        assert(aes256gcm_seal(k.backward_key, nonce_bytes(k.backward_counter), p) == data@);
                    }
                }
                match res {
                    Ok(v) => Ok(v),
                    Err(e) => Err(CircuitError::from_crypto(e)),
                }
            },
        }
    }
}

/// The keys ntor derives for a hop from a shared secret, with counters at 0.
pub open spec fn ntor_keys_view(
    shared: Seq<u8>,
    h: HopView,
    client: Seq<u8>,
    server: Seq<u8>,
) -> KeysView {
    let okm = ntor_okm(shared, h.identity_key, h.onion_key, client, server);
    KeysView {
        forward_key: okm.subrange(0, 32),
        backward_key: okm.subrange(32, 64),
        forward_counter: 0,
        backward_counter: 0,
    }
}


impl Circuit {
    /// Closes the circuit and wipes its hops' keys.
    fn close(&mut self)
        ensures
            final(self)@ == closed_view(old(self)@),
    {
        self.state = CircuitState::Closed;
        let ghost orig = hop_views(self.hops@);
        let n = self.hops.len();
        let mut kept: Vec<RelayHop> = Vec::new();
        let mut i: usize = 0;
        while i < n
            invariant
                i <= n,
                n == orig.len(),
                self.hops@.len() == n - i,
                kept@.len() == i,
                self.id == old(self).id,
                self.state@ == StateView::Closed,
                self.created_at == old(self).created_at,
                orig == hop_views(old(self).hops@),
                forall|q: int| 0 <= q < self.hops@.len() ==> (#[trigger] self.hops@[q])@ == orig[i + q],
                forall|q: int|
                    0 <= q < i ==> (#[trigger] kept@[q])@ == (HopView {
                        relay_id: orig[q].relay_id,
                        identity_key: orig[q].identity_key,
                        onion_key: orig[q].onion_key,
                        keys: None,
                    }),
            decreases n - i,
        {
            let mut h = self.hops.remove(0);
            h.crypto_state = None;
            kept.push(h);
            i += 1;
        }
        self.hops = kept;
        assert(hop_views(self.hops@) =~= closed_view(old(self)@).hops);
    }

    /// Whether every hop is keyed with keys that are not all zeros.
    fn all_keyed(&self) -> (r: bool)
        ensures
            r == all_hops_keyed(self@),
    {
        let mut i: usize = 0;
        while i < self.hops.len()
            invariant
                i <= self.hops@.len(),
                forall|h: int| 0 <= h < i ==> hop_keyed(#[trigger] self@.hops[h]),
            decreases self.hops@.len() - i,
        {
            assert(self@.hops[i as int] == self.hops@[i as int]@);
            if !hop_is_keyed(&self.hops[i]) {
                return false;
            }
            i += 1;
        }
        true
    }

    /// Installs keying state in hop `idx`.
    fn install_keys(&mut self, idx: usize, crypto: OnionCrypto)
        requires
            idx < old(self).hops@.len(),
        ensures
            final(self)@ == with_hop_keys(old(self)@, idx as int, keys_view(crypto)),
    {
        let mut h = self.hops.remove(idx);
        h.crypto_state = Some(crypto);
        self.hops.insert(idx, h);
        assert(hop_views(self.hops@) =~= with_hop_keys(old(self)@, idx as int, keys_view(crypto)).hops);
    }

    /// Seals `payload` with each hop's forward key, the last hop first.
    fn seal_onion(&mut self, payload: &[u8]) -> (r: Result<Vec<u8>, CircuitError>)
        requires
            all_hops_keyed(old(self)@),
        ensures
            final(self).id == old(self).id,
            final(self).state@ == old(self).state@,
            final(self).created_at == old(self).created_at,
            final(self).hops@.len() == old(self).hops@.len(),
            r matches Ok(d) ==> d@ == onion_sealed(old(self)@.hops, old(self)@.hops.len() - 1, payload@)
                && final(self)@.hops == old(self)@.hops.map_values(|h: HopView| advanced(h)),
            (forall|j: int|
                0 <= j < old(self)@.hops.len() ==> (#[trigger] old(self)@.hops[j]).keys->0.forward_counter
                    < u64::MAX) && payload@.len() + 16 * old(self)@.hops.len() <= AEAD_MAX_INPUT
                ==> r is Ok,
    {
        let ghost orig = old(self)@.hops;
        let ghost fine = (forall|j: int|
            0 <= j < orig.len() ==> (#[trigger] orig[j]).keys->0.forward_counter < u64::MAX)
            && payload@.len() + 16 * orig.len() <= AEAD_MAX_INPUT;
        let n = self.hops.len();
        let mut data: Vec<u8> = Vec::new();
        crate::network::cells::push_all(&mut data, payload);
        let mut i: usize = n;
        while i > 0
            invariant
                i <= n,
                n == orig.len(),
                self.hops@.len() == n,
                self.id == old(self).id,
                self.state@ == old(self).state@,
                self.created_at == old(self).created_at,
                orig == old(self)@.hops,
                all_hops_keyed(old(self)@),
                forall|j: int| 0 <= j < i ==> (#[trigger] self.hops@[j])@ == orig[j],
                forall|j: int| i <= j < n ==> (#[trigger] self.hops@[j])@ == advanced(orig[j]),
                onion_sealed(orig, i - 1, data@) == onion_sealed(orig, n - 1, payload@),
                data@.len() == payload@.len() + 16 * (n - i),
                fine == ((forall|j: int|
                    0 <= j < orig.len() ==> (#[trigger] orig[j]).keys->0.forward_counter < u64::MAX)
                    && payload@.len() + 16 * orig.len() <= AEAD_MAX_INPUT),
            decreases i,
        {
            let idx = i - 1;
            let mut h = self.hops.remove(idx);
            match h.seal_forward(data.as_slice()) {
                Ok(d) => {
                    assert(onion_sealed(orig, idx as int, data@) == onion_sealed(orig, idx - 1, d@));
                    data = d;
                    self.hops.insert(idx, h);
                },
                Err(e) => {
                    proof {
                        if fine {
                            assert(hop_keyed(orig[idx as int]));
                            assert(orig[idx as int].keys->0.forward_counter < u64::MAX);
                            assert(data@.len() <= AEAD_MAX_INPUT);
                        }
                        assert(!fine);
                    }
                    self.hops.insert(idx, h);
                    return Err(e);
                },
            }
            i = idx;
        }
        assert(hop_views(self.hops@) =~= orig.map_values(|h: HopView| advanced(h)));
        Ok(data)
    }

    /// Peels `cell` with the backward keys of hop 0, 1, and so on while each
    /// opens what is left; gives how many did and what remained.
    fn peel_onion(&mut self, cell: &[u8]) -> (r: (usize, Vec<u8>))
        requires
            all_hops_keyed(old(self)@),
        ensures
            ({
                let res = peeled(old(self)@.hops, 0, cell@);
                &&& r.0 == res.0 + 1
                &&& r.1@ == res.1
                &&& final(self).id == old(self).id
                &&& final(self).state@ == old(self).state@
                &&& final(self).created_at == old(self).created_at
                &&& final(self)@.hops == Seq::new(
                    old(self)@.hops.len(),
                    |j: int| if j <= res.0 {
                        advanced_back(old(self)@.hops[j])
                    } else {
                        old(self)@.hops[j]
                    },
                )
            }),
    {
        let ghost orig = old(self)@.hops;
        let n = self.hops.len();
        let mut data: Vec<u8> = Vec::new();
        crate::network::cells::push_all(&mut data, cell);
        let mut i: usize = 0;
        let mut done = false;
        while i < n && !done
            invariant
                i <= n,
                n == orig.len(),
                self.hops@.len() == n,
                self.id == old(self).id,
                self.state@ == old(self).state@,
                self.created_at == old(self).created_at,
                orig == old(self)@.hops,
                forall|j: int| 0 <= j < i ==> (#[trigger] self.hops@[j])@ == advanced_back(orig[j]),
                forall|j: int| i <= j < n ==> (#[trigger] self.hops@[j])@ == orig[j],
                !done ==> peeled(orig, i as int, data@) == peeled(orig, 0, cell@),
                done ==> peeled(orig, 0, cell@) == (i - 1, data@),
            decreases n - i + (if done {
                0int
            } else {
                1int
            }),
        {
            let mut h = self.hops.remove(i);
            match h.open_backward(data.as_slice()) {
                Ok(p) => {
                    data = p;
                    self.hops.insert(i, h);
                    i += 1;
                },
                Err(_) => {
                    self.hops.insert(i, h);
                    done = true;
                },
            }
        }
        proof {
            if !done {
                assert(peeled(orig, i as int, data@) == (i - 1, data@));
            }
        }
        assert(hop_views(self.hops@) =~= Seq::new(
            orig.len(),
            |j: int| if j <= i - 1 {
                advanced_back(orig[j])
            } else {
                orig[j]
            },
        ));
        (i, data)
    }
}

/// All circuits of this client, filed by id, and the next id to give out.
pub struct CircuitManager {
    circuits: HashMap<CircuitId, Circuit>,
    next_circuit_id: CircuitId,
}

pub open spec fn circuit_views(m: Map<u32, Circuit>) -> Map<u32, CircuitView> {
    m.map_values(|c: Circuit| c@)
}

impl CircuitManager {
    pub closed spec fn circuits(&self) -> Map<u32, CircuitView> {
        circuit_views(self.circuits@)
    }

    pub closed spec fn next_id(&self) -> u32 {
        self.next_circuit_id
    }

    pub open spec fn wf(&self) -> bool {
        circuits_wf(self.circuits(), self.next_id())
    }

    /// No circuits yet; ids start at 1.
    pub fn new() -> (r: Self)
        ensures
            r.wf(),
            r.circuits() == Map::<u32, CircuitView>::empty(),
            r.next_id() == 1,
    {
        let r = CircuitManager { circuits: HashMap::new(), next_circuit_id: 1 };
        assert(r.circuits() =~= Map::<u32, CircuitView>::empty());
        r
    }

    /// Takes circuit `id` out of the map.
    fn take(&mut self, circuit_id: CircuitId) -> (r: Option<Circuit>)
        ensures
            final(self).next_circuit_id == old(self).next_circuit_id,
            old(self).circuits().contains_key(circuit_id) ==> (r matches Some(c) && c@ == old(
                self,
            ).circuits()[circuit_id]) && final(self).circuits() == old(self).circuits().remove(
                circuit_id,
            ),
            !old(self).circuits().contains_key(circuit_id) ==> r is None && final(self).circuits()
                == old(self).circuits(),
    {
        let r = self.circuits.remove(&circuit_id);
        assert(self.circuits() =~= old(self).circuits().remove(circuit_id));
        r
    }

    /// Files circuit `c` under `id`.
    fn put(&mut self, circuit_id: CircuitId, c: Circuit)
        ensures
            final(self).next_circuit_id == old(self).next_circuit_id,
            final(self).circuits() == old(self).circuits().insert(circuit_id, c@),
    {
        self.circuits.insert(circuit_id, c);
        assert(self.circuits() =~= old(self).circuits().insert(circuit_id, c@));
    }

    /// The state of a circuit, if it exists.
    pub fn get_circuit_state(&self, circuit_id: CircuitId) -> (r: Option<CircuitState>)
        requires
            self.wf(),
        ensures
            match state_of(self.circuits(), circuit_id) {
                Some(s) => r is Some && r->0@ == s,
                None => r is None,
            },
    {
        match self.circuits.get(&circuit_id) {
            Some(c) => {
                assert(self.circuits()[circuit_id] == c@);
                Some(c.state.copy())
            },
            None => None,
        }
    }

    /// Gives out the next circuit id and records a Building circuit over
    /// `hops` under it. A circuit needs at least one hop. Ids are never
    /// reused: once the counter is spent the manager refuses.
    pub fn begin_circuit(&mut self, hops: Vec<RelayHop>, now: u64) -> (r: Result<
        CircuitId,
        CircuitError,
    >)
        requires
            old(self).wf(),
        ensures
            final(self).wf(),
            hops@.len() == 0 ==> (r matches Err(CircuitError::NoSuitableRelays))
                && final(self).circuits() == old(self).circuits() && final(self).next_id()
                == old(self).next_id(),
            hops@.len() > 0 && old(self).next_id() == u32::MAX ==> (r matches Err(CircuitError::IdsExhausted))
                && final(self).circuits() == old(self).circuits() && final(self).next_id()
                == old(self).next_id(),
            hops@.len() > 0 && old(self).next_id() < u32::MAX ==> (r matches Ok(id) && id == old(self).next_id()
                && !old(self).circuits().contains_key(id)
                && final(self).next_id() == id + 1 && final(self).circuits() == old(
                self,
            ).circuits().insert(
                id,
                CircuitView {
                    id,
                    hops: hop_views(hops@),
                    state: StateView::Building,
                    created_at: now,
                },
            )),
    {
        if hops.len() == 0 {
            return Err(CircuitError::NoSuitableRelays);
        }
        if self.next_circuit_id == u32::MAX {
            return Err(CircuitError::IdsExhausted);
        }
        let id = self.next_circuit_id;
        self.next_circuit_id = id + 1;
        let c = Circuit { id, hops, state: CircuitState::Building, created_at: now };
        self.put(id, c);
        Ok(id)
    }

    /// Closes a circuit and wipes its hops' keys; nothing happens for an
    /// unknown id, and a second teardown changes nothing.
    pub fn teardown(&mut self, circuit_id: CircuitId)
        requires
            old(self).wf(),
        ensures
            final(self).wf(),
            final(self).circuits() == torn_down(old(self).circuits(), circuit_id),
            final(self).next_id() == old(self).next_id(),
    {
        let ghost cs = self.circuits();
        match self.take(circuit_id) {
            None => {},
            Some(mut c) => {
                c.close();
                self.put(circuit_id, c);
                assert(self.circuits() =~= torn_down(cs, circuit_id));
            },
        }
    }

    /// Marks a Building circuit Ready once every hop is keyed; anything else
    /// is refused and changes nothing.
    pub fn mark_ready(&mut self, circuit_id: CircuitId) -> (r: Result<(), CircuitError>)
        requires
            old(self).wf(),
        ensures
            final(self).wf(),
            final(self).next_id() == old(self).next_id(),
            ({
                let cs = old(self).circuits();
                if cs.contains_key(circuit_id) && cs[circuit_id].state == StateView::Building
                    && all_hops_keyed(cs[circuit_id]) {
                    r is Ok && final(self).circuits() == cs.insert(
                        circuit_id,
                        with_state(cs[circuit_id], StateView::Ready),
                    )
                } else {
                    (r matches Err(CircuitError::HandshakeFailed(_))) && final(self).circuits() == cs
                }
            }),
    {
        let ghost cs = self.circuits();
        let mut c = match self.take(circuit_id) {
            Some(c) => c,
            None => return Err(CircuitError::HandshakeFailed("unknown circuit".to_string())),
        };
        let building = match c.state {
            CircuitState::Building => true,
            _ => false,
        };
        if !building || !c.all_keyed() {
            self.put(circuit_id, c);
            assert(self.circuits() =~= cs);
            return Err(CircuitError::HandshakeFailed("circuit is not ready to be used".to_string()));
        }
        c.state = CircuitState::Ready;
        self.put(circuit_id, c);
        assert(self.circuits() =~= cs.insert(circuit_id, with_state(cs[circuit_id], StateView::Ready)));
        Ok(())
    }

    /// Records a failure: a Building or Ready circuit goes to Error with
    /// `reason`; Closed and Error are terminal and stay.
    pub fn mark_error(&mut self, circuit_id: CircuitId, reason: String)
        requires
            old(self).wf(),
        ensures
            final(self).wf(),
            final(self).next_id() == old(self).next_id(),
            ({
                let cs = old(self).circuits();
                if cs.contains_key(circuit_id) && (cs[circuit_id].state == StateView::Building
                    || cs[circuit_id].state == StateView::Ready) {
                    final(self).circuits() == cs.insert(
                        circuit_id,
                        with_state(cs[circuit_id], StateView::Error(reason@)),
                    )
                } else {
                    final(self).circuits() == cs
                }
            }),
    {
        let ghost cs = self.circuits();
        let mut c = match self.take(circuit_id) {
            Some(c) => c,
            None => return ,
        };
        let live = match c.state {
            CircuitState::Building => true,
            CircuitState::Ready => true,
            _ => false,
        };
        if !live {
            self.put(circuit_id, c);
            assert(self.circuits() =~= cs);
            return ;
        }
        c.state = CircuitState::Error(reason);
        self.put(circuit_id, c);
        assert(self.circuits() =~= cs.insert(
            circuit_id,
            with_state(cs[circuit_id], StateView::Error(reason@)),
        ));
    }

    /// Installs the keys of hop `hop_index` of a Building circuit once the
    /// relay's auth tag equals the one the handshake expects (compared in
    /// constant time). Anything else is refused and changes nothing.
    pub fn complete_hop_handshake(
        &mut self,
        circuit_id: CircuitId,
        hop_index: usize,
        keys: NtorKeys,
        expected_auth: &[u8],
        created: &Created2Cell,
    ) -> (r: Result<(), CircuitError>)
        requires
            old(self).wf(),
        ensures
            final(self).wf(),
            final(self).next_id() == old(self).next_id(),
            ({
                let cs = old(self).circuits();
                let ok = cs.contains_key(circuit_id) && cs[circuit_id].state == StateView::Building
                    && hop_index < cs[circuit_id].hops.len() && expected_auth@ == created.auth@;
                &&& ok ==> r is Ok && final(self).circuits() == cs.insert(
                    circuit_id,
                    with_hop_keys(
                        cs[circuit_id],
                        hop_index as int,
                        KeysView {
                            forward_key: keys.forward_key@,
                            backward_key: keys.backward_key@,
                            forward_counter: 0,
                            backward_counter: 0,
                        },
                    ),
                )
                &&& !ok ==> (r matches Err(CircuitError::HandshakeFailed(_))) && final(self).circuits()
                    == cs
            }),
    {
        let ghost cs = self.circuits();
        let mut c = match self.take(circuit_id) {
            Some(c) => c,
            None => return Err(CircuitError::HandshakeFailed("unknown circuit".to_string())),
        };
        let building = match c.state {
            CircuitState::Building => true,
            _ => false,
        };
        if !building || hop_index >= c.hops.len() || !constant_time_compare(
            expected_auth,
            created.auth.as_slice(),
        ) {
            self.put(circuit_id, c);
            assert(self.circuits() =~= cs);
            return Err(CircuitError::HandshakeFailed("Invalid auth value from relay".to_string()));
        }
        let ghost kv = KeysView {
            forward_key: keys.forward_key@,
            backward_key: keys.backward_key@,
            forward_counter: 0,
            backward_counter: 0,
        };
        let crypto = match OnionCrypto::from_ntor_keys(keys) {
            Ok(k) => k,
            Err(_) => {
                self.put(circuit_id, c);
                assert(self.circuits() =~= cs);
                return Err(CircuitError::HandshakeFailed("keys refused".to_string()));
            },
        };
        c.install_keys(hop_index, crypto);
        self.put(circuit_id, c);
        assert(self.circuits() =~= cs.insert(
            circuit_id,
            with_hop_keys(cs[circuit_id], hop_index as int, kv),
        ));
        Ok(())
    }

    /// Wraps `payload` for the last hop of a Ready circuit: sealed with each
    /// hop's forward key from the last to the guard, each hop's counter
    /// advancing by one. A spent counter, or any failed seal, puts the
    /// circuit in Error.
    pub fn send(&mut self, circuit_id: CircuitId, payload: &[u8]) -> (r: Result<Vec<u8>, CircuitError>)
        requires
            old(self).wf(),
        ensures
            final(self).wf(),
            final(self).next_id() == old(self).next_id(),
            ({
                let cs = old(self).circuits();
                let ready = state_of(cs, circuit_id) == Some(StateView::Ready);
                let c = cs[circuit_id];
                &&& !ready ==> (r matches Err(CircuitError::NotReady)) && final(self).circuits() == cs
                &&& ready && r is Ok ==> r->Ok_0@ == onion_sealed(c.hops, c.hops.len() - 1, payload@)
                    && final(self).circuits() == cs.insert(
                    circuit_id,
                    CircuitView {
                        id: c.id,
                        hops: c.hops.map_values(|h: HopView| advanced(h)),
                        state: c.state,
                        created_at: c.created_at,
                    },
                )
                &&& ready && r is Err ==> (state_of(final(self).circuits(), circuit_id) matches Some(
                    StateView::Error(_),
                ))
                &&& ready && (forall|j: int|
                    0 <= j < c.hops.len() ==> (#[trigger] c.hops[j]).keys->0.forward_counter
                        < u64::MAX) && payload@.len() + 16 * c.hops.len() <= AEAD_MAX_INPUT
                    ==> r is Ok
            }),
    {
        let ghost cs = self.circuits();
        let mut c = match self.take(circuit_id) {
            Some(c) => c,
            None => return Err(CircuitError::NotReady),
        };
        let ready = match c.state {
            CircuitState::Ready => true,
            _ => false,
        };
        if !ready {
            self.put(circuit_id, c);
            assert(self.circuits() =~= cs);
            return Err(CircuitError::NotReady);
        }
        match c.seal_onion(payload) {
            Ok(d) => {
                self.put(circuit_id, c);
                assert(hop_views(c.hops@) == cs[circuit_id].hops.map_values(|h: HopView| advanced(h)));
                assert(self.circuits() =~= cs.insert(
                    circuit_id,
                    CircuitView {
                        id: cs[circuit_id].id,
                        hops: cs[circuit_id].hops.map_values(|h: HopView| advanced(h)),
                        state: cs[circuit_id].state,
                        created_at: cs[circuit_id].created_at,
                    },
                ));
                Ok(d)
            },
            Err(e) => {
                c.state = CircuitState::Error("a hop's nonce counter is spent".to_string());
                self.put(circuit_id, c);
                Err(e)
            },
        }
    }

    /// Peels an inbound cell of a Ready circuit with the backward keys of hop
    /// 0, 1, and so on, as long as each opens what is left; gives the last
    /// hop that did and the payload. A cell that not even the guard opens
    /// puts the circuit in Error.
    pub fn recv(&mut self, circuit_id: CircuitId, cell: &[u8]) -> (r: Result<(usize, Vec<u8>), CircuitError>)
        requires
            old(self).wf(),
        ensures
            final(self).wf(),
            final(self).next_id() == old(self).next_id(),
            ({
                let cs = old(self).circuits();
                let ready = state_of(cs, circuit_id) == Some(StateView::Ready);
                let c = cs[circuit_id];
                let res = peeled(c.hops, 0, cell@);
                &&& !ready ==> (r matches Err(CircuitError::NotReady)) && final(self).circuits() == cs
                &&& ready && res.0 >= 0 ==> (r matches Ok(out) && out.0 == res.0 && out.1@ == res.1)
                    && final(self).circuits() == cs.insert(
                    circuit_id,
                    CircuitView {
                        id: c.id,
                        hops: Seq::new(
                            c.hops.len(),
                            |j: int| if j <= res.0 {
                                advanced_back(c.hops[j])
                            } else {
                                c.hops[j]
                            },
                        ),
                        state: c.state,
                        created_at: c.created_at,
                    },
                )
                &&& ready && res.0 < 0 ==> r is Err && (state_of(final(self).circuits(), circuit_id) matches Some(
                    StateView::Error(_),
                ))
            }),
    {
        let ghost cs = self.circuits();
        let mut c = match self.take(circuit_id) {
            Some(c) => c,
            None => return Err(CircuitError::NotReady),
        };
        let ready = match c.state {
            CircuitState::Ready => true,
            _ => false,
        };
        if !ready {
            self.put(circuit_id, c);
            assert(self.circuits() =~= cs);
            return Err(CircuitError::NotReady);
        }
        let (count, data) = c.peel_onion(cell);
        if count == 0 {
            c.state = CircuitState::Error("inbound cell not recognised".to_string());
            self.put(circuit_id, c);
            return Err(CircuitError::Crypto("inbound cell not recognised".to_string()));
        }
        self.put(circuit_id, c);
        proof {
            let res = peeled(cs[circuit_id].hops, 0, cell@);
            let old_c = cs[circuit_id];
            let nv = CircuitView {
                id: old_c.id,
                hops: Seq::new(
                    old_c.hops.len(),
                    |j: int| if j <= res.0 {
                        advanced_back(old_c.hops[j])
                    } else {
                        old_c.hops[j]
                    },
                ),
                state: old_c.state,
                created_at: old_c.created_at,
            };
            assert(self.circuits() =~= cs.insert(circuit_id, nv));
        }
        Ok((count - 1, data))
    }

    /// Completes hop `hop_index` of a Building circuit from the relay's
    /// answer to its CREATE2: checks the answer's header and payload, runs
    /// ntor with the hop's own identity and onion keys, and installs the keys
    /// when the relay's auth tag matches. The shared secret is not visible
    /// here, so the contract says the keys are ntor's for some 32-byte secret.
    pub fn handshake_hop(
        &mut self,
        circuit_id: CircuitId,
        hop_index: usize,
        client_private_key: x25519_dalek::EphemeralSecret,
        client_public_key: &[u8; 32],
        response: &[u8],
    ) -> (r: Result<(), CircuitError>)
        requires
            old(self).wf(),
        ensures
            final(self).wf(),
            final(self).next_id() == old(self).next_id(),
            r is Err ==> final(self).circuits() == old(self).circuits(),
            r is Err ==> (r matches Err(CircuitError::HandshakeFailed(_))),
            ({
                let cs = old(self).circuits();
                (!cs.contains_key(circuit_id) || cs[circuit_id].state != StateView::Building
                    || hop_index >= cs[circuit_id].hops.len() || response@.len() < 5 || from_be32(
                    response@[0],
                    response@[1],
                    response@[2],
                    response@[3],
                ) != circuit_id || response@[4] != CELL_COMMAND_CREATED2 || created2_parse(
                    response@.subrange(5, response@.len() as int),
                ) is Err) ==> r is Err
            }),
            r is Ok ==> ({
                let cs = old(self).circuits();
                let c = cs[circuit_id];
                let parsed = created2_parse(response@.subrange(5, response@.len() as int));
                &&& cs.contains_key(circuit_id)
                &&& c.state == StateView::Building
                &&& hop_index < c.hops.len()
                &&& response@.len() >= 5
                &&& parsed is Ok
                &&& exists|s: Seq<u8>|
                    #![trigger ntor_okm(s, c.hops[hop_index as int].identity_key, c.hops[hop_index as int].onion_key, client_public_key@, parsed->Ok_0.0)]
                    s.len() == 32 && ntor_okm(
                        s,
                        c.hops[hop_index as int].identity_key,
                        c.hops[hop_index as int].onion_key,
                        client_public_key@,
                        parsed->Ok_0.0,
                    ).subrange(64, 96) == parsed->Ok_0.1 && final(self).circuits() == cs.insert(
                        circuit_id,
                        with_hop_keys(
                            c,
                            hop_index as int,
                            ntor_keys_view(
                                s,
                                c.hops[hop_index as int],
                                client_public_key@,
                                parsed->Ok_0.0,
                            ),
                        ),
                    )
            }),
    {
        let ghost cs = self.circuits();
        let (identity, onion) = match self.circuits.get(&circuit_id) {
            None => return Err(CircuitError::HandshakeFailed("unknown circuit".to_string())),
            Some(c) => {
                assert(cs[circuit_id] == c@);
                if hop_index >= c.hops.len() {
                    return Err(CircuitError::HandshakeFailed("no such hop".to_string()));
                }
                assert(cs[circuit_id].hops[hop_index as int] == c.hops@[hop_index as int]@);
                (copy_bytes(&c.hops[hop_index].identity_key), copy_bytes(&c.hops[hop_index].onion_key))
            },
        };
        let ghost hv = cs[circuit_id].hops[hop_index as int];
        let created = parse_created2_response(circuit_id, response)?;
        let (keys, auth) = match ntor_handshake(
            client_private_key,
            client_public_key,
            &created.server_public_key,
            identity.as_slice(),
            onion.as_slice(),
        ) {
            Ok(v) => v,
            Err(_) => return Err(CircuitError::HandshakeFailed("key agreement failed".to_string())),
        };
        let ghost fk = keys.forward_key@;
        let ghost bk = keys.backward_key@;
        let ghost y = created.server_public_key@;
        let res = self.complete_hop_handshake(circuit_id, hop_index, keys, auth.as_slice(), &created);
        proof {
            if res is Ok {
                let s = choose|s: Seq<u8>|
                    #![trigger ntor_okm(s, identity@, onion@, client_public_key@, y)]
                    s.len() == 32 && fk == ntor_okm(s, identity@, onion@, client_public_key@, y).subrange(0, 32)
                        && bk == ntor_okm(s, identity@, onion@, client_public_key@, y).subrange(32, 64)
                        && auth@ == ntor_okm(s, identity@, onion@, client_public_key@, y).subrange(64, 96);
                let parsed = created2_parse(response@.subrange(5, response@.len() as int));
                assert(parsed->Ok_0.0 == y);
                assert(ntor_keys_view(s, hv, client_public_key@, y) =~= KeysView {
                    forward_key: fk,
                    backward_key: bk,
                    forward_counter: 0,
                    backward_counter: 0,
                });
                assert(ntor_okm(s, hv.identity_key, hv.onion_key, client_public_key@, parsed->Ok_0.0).subrange(64, 96) == parsed->Ok_0.1);
            }
        }
        res
    }
}

} // verus!
