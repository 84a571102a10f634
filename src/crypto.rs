//! Key agreement (ntor over X25519 and HKDF-SHA256) and the per-hop AEAD
//! state (AES-256-GCM with counter nonces).
use vstd::prelude::*;
use crate::network::cells::{push_all, slice_range};
use crate::security::{wipe_bytes, SecretData};

verus! {

/// ring's opaque error type.
#[verifier::external_type_specification]
#[verifier::external_body]
pub struct ExUnspecified(ring::error::Unspecified);

/// x25519_dalek's single-use Diffie-Hellman secret, carried through opaquely.
#[verifier::external_type_specification]
#[verifier::external_body]
pub struct ExEphemeralSecret(x25519_dalek::EphemeralSecret);

#[derive(Debug)]
pub enum CryptoError {
    RingError(ring::error::Unspecified),
    NtorError(String),
    /// A direction's nonce counter is spent; the key must not be used again.
    NonceExhausted,
}

impl From<ring::error::Unspecified> for CryptoError {
    fn from(err: ring::error::Unspecified) -> (r: CryptoError) {
        CryptoError::RingError(err)
    }
}

impl vstd::std_specs::convert::FromSpecImpl<ring::error::Unspecified> for CryptoError {
    open spec fn obeys_from_spec() -> bool {
        true
    }

    open spec fn from_spec(v: ring::error::Unspecified) -> CryptoError {
        CryptoError::RingError(v)
    }
}

/// The 12-byte nonce of a counter: four zero bytes, then the counter big-endian.
pub open spec fn nonce_bytes(counter: u64) -> Seq<u8> {
    seq![
        0u8,
        0u8,
        0u8,
        0u8,
        (counter >> 56u64) as u8,
        (counter >> 48u64) as u8,
        (counter >> 40u64) as u8,
        (counter >> 32u64) as u8,
        (counter >> 24u64) as u8,
        (counter >> 16u64) as u8,
        (counter >> 8u64) as u8,
        counter as u8,
    ]
}

/// The AEAD nonce for a counter value.
pub fn generate_nonce(nonce: u64) -> (r: [u8; 12])
    ensures
        r@ == nonce_bytes(nonce),
{
    let r = [
        0u8,
        0u8,
        0u8,
        0u8,
        (nonce >> 56u64) as u8,
        (nonce >> 48u64) as u8,
        (nonce >> 40u64) as u8,
        (nonce >> 32u64) as u8,
        (nonce >> 24u64) as u8,
        (nonce >> 16u64) as u8,
        (nonce >> 8u64) as u8,
        nonce as u8,
    ];
    assert(r@ =~= nonce_bytes(nonce));
    r
}

/// Distinct counters give distinct nonces.
pub proof fn lemma_nonce_injective(a: u64, b: u64)
    requires
        a != b,
    ensures
        nonce_bytes(a) != nonce_bytes(b),
{
    if nonce_bytes(a) == nonce_bytes(b) {
        assert(nonce_bytes(a)[4] == nonce_bytes(b)[4]);
        assert(nonce_bytes(a)[5] == nonce_bytes(b)[5]);
        assert(nonce_bytes(a)[6] == nonce_bytes(b)[6]);
        assert(nonce_bytes(a)[7] == nonce_bytes(b)[7]);
        assert(nonce_bytes(a)[8] == nonce_bytes(b)[8]);
        assert(nonce_bytes(a)[9] == nonce_bytes(b)[9]);
        assert(nonce_bytes(a)[10] == nonce_bytes(b)[10]);
        assert(nonce_bytes(a)[11] == nonce_bytes(b)[11]);
        assert(a == b) by (bit_vector)
            requires
                (a >> 56u64) as u8 == (b >> 56u64) as u8,
                (a >> 48u64) as u8 == (b >> 48u64) as u8,
                (a >> 40u64) as u8 == (b >> 40u64) as u8,
                (a >> 32u64) as u8 == (b >> 32u64) as u8,
                (a >> 24u64) as u8 == (b >> 24u64) as u8,
                (a >> 16u64) as u8 == (b >> 16u64) as u8,
                (a >> 8u64) as u8 == (b >> 8u64) as u8,
                a as u8 == b as u8,
        ;
    }
}

/// Relies on ring's AES-256-GCM (`LessSafeKey::seal_in_place_separate_tag`,
/// empty associated data): the ciphertext followed by the 16-byte tag. The
/// result depends on the key, nonce and plaintext alone.
pub uninterp spec fn aes256gcm_seal(key: Seq<u8>, nonce: Seq<u8>, plaintext: Seq<u8>) -> Seq<
    u8,
>;

/// The longest input ring's AES-256-GCM seals: (2^32 - 2) blocks of 16 bytes.
pub const AEAD_MAX_INPUT: u64 = 68719476704;

/// Relies on ring's `UnboundKey::new` for AES-256-GCM (which accepts any
/// 32-byte key), `LessSafeKey::new` and `seal_in_place_separate_tag`, which
/// refuses only an input longer than `AEAD_MAX_INPUT` and gives a 16-byte
/// tag, appended here.
#[verifier::external_body]
fn aead_seal(key: &[u8; 32], nonce: [u8; 12], plaintext: &[u8]) -> (r: Result<
    Vec<u8>,
    ring::error::Unspecified,
>)
    ensures
        plaintext@.len() <= AEAD_MAX_INPUT ==> r is Ok,
        r matches Ok(c) ==> c@ == aes256gcm_seal(key@, nonce@, plaintext@) && c@.len()
            == plaintext@.len() + 16,
{
    let k = ring::aead::UnboundKey::new(&ring::aead::AES_256_GCM, key)?;
    let k = ring::aead::LessSafeKey::new(k);
    let mut in_out = plaintext.to_vec();
    let n = ring::aead::Nonce::assume_unique_for_key(nonce);
    let tag = k.seal_in_place_separate_tag(n, ring::aead::Aad::empty(), &mut in_out)?;
    in_out.extend_from_slice(tag.as_ref());
    Ok(in_out)
}

/// Relies on ring's `LessSafeKey::open_in_place` for AES-256-GCM, empty
/// associated data: it authenticates and decrypts, giving the plaintext that
/// seals to the input, and fails on anything that is no sealing of a
/// plaintext ring can seal (at most `AEAD_MAX_INPUT` bytes, a limit its
/// `gcm::Context::new` enforces on opening too); the plaintext is the input
/// without its 16-byte tag.
#[verifier::external_body]
fn aead_open(key: &[u8; 32], nonce: [u8; 12], ciphertext: &[u8]) -> (r: Result<
    Vec<u8>,
    ring::error::Unspecified,
>)
    ensures
        r matches Ok(q) ==> ciphertext@ == aes256gcm_seal(key@, nonce@, q@),
        r matches Ok(q) ==> q@.len() <= AEAD_MAX_INPUT && ciphertext@.len() == q@.len() + 16,
        r matches Ok(q) ==> forall|p: Seq<u8>|
            p.len() <= AEAD_MAX_INPUT && ciphertext@ == #[trigger] aes256gcm_seal(key@, nonce@, p)
                ==> q@ == p,
        r is Err ==> forall|p: Seq<u8>|
            p.len() <= AEAD_MAX_INPUT ==> ciphertext@ != #[trigger] aes256gcm_seal(key@, nonce@, p),
{
    let k = ring::aead::UnboundKey::new(&ring::aead::AES_256_GCM, key)?;
    let k = ring::aead::LessSafeKey::new(k);
    let mut in_out = ciphertext.to_vec();
    let n = ring::aead::Nonce::assume_unique_for_key(nonce);
    let len = k.open_in_place(n, ring::aead::Aad::empty(), &mut in_out)?.len();
    in_out.truncate(len);
    Ok(in_out)
}

/// Relies on ring's `SystemRandom::fill`: random bytes, or an error.
#[verifier::external_body]
fn fill_random(buf: &mut [u8; 32]) -> (r: Result<(), ring::error::Unspecified>) {
    ring::rand::SecureRandom::fill(&ring::rand::SystemRandom::new(), buf)
}

/// Onion encryption state of one hop: a key and a nonce counter for each
/// direction.
pub struct OnionCrypto {
    forward_key: SecretData,
    backward_key: SecretData,
    forward_nonce: u64,
    backward_nonce: u64,
}

impl OnionCrypto {
    pub closed spec fn forward_key_bytes(&self) -> Seq<u8> {
        self.forward_key.bytes()
    }

    pub closed spec fn backward_key_bytes(&self) -> Seq<u8> {
        self.backward_key.bytes()
    }

    pub closed spec fn forward_counter(&self) -> u64 {
        self.forward_nonce
    }

    pub closed spec fn backward_counter(&self) -> u64 {
        self.backward_nonce
    }

    /// State with fresh random keys and both counters at zero.
    pub fn new() -> (r: Result<Self, CryptoError>)
        ensures
            r matches Ok(c) ==> c.forward_counter() == 0 && c.backward_counter() == 0,
    {
        let mut forward_key = [0u8; 32];
        match fill_random(&mut forward_key) {
            Ok(()) => {},
            Err(e) => return Err(CryptoError::RingError(e)),
        }
        let mut backward_key = [0u8; 32];
        match fill_random(&mut backward_key) {
            Ok(()) => {},
            Err(e) => return Err(CryptoError::RingError(e)),
        }
        Ok(
            OnionCrypto {
                forward_key: SecretData::new(forward_key),
                backward_key: SecretData::new(backward_key),
                forward_nonce: 0,
                backward_nonce: 0,
            },
        )
    }

    /// State keyed by a handshake's output, both counters at zero.
    pub fn from_ntor_keys(keys: NtorKeys) -> (r: Result<Self, CryptoError>)
        ensures
            r matches Ok(c) && c.forward_key_bytes() == keys.forward_key@
                && c.backward_key_bytes() == keys.backward_key@ && c.forward_counter() == 0
                && c.backward_counter() == 0,
    {
        Ok(
            OnionCrypto {
                forward_key: SecretData::new(keys.forward_key),
                backward_key: SecretData::new(keys.backward_key),
                forward_nonce: 0,
                backward_nonce: 0,
            },
        )
    }

    /// State keyed by a handshake's output, resuming at the given counters.
    pub fn resume(keys: NtorKeys, forward_nonce: u64, backward_nonce: u64) -> (r: Self)
        ensures
            r.forward_key_bytes() == keys.forward_key@,
            r.backward_key_bytes() == keys.backward_key@,
            r.forward_counter() == forward_nonce,
            r.backward_counter() == backward_nonce,
    {
        OnionCrypto {
            forward_key: SecretData::new(keys.forward_key),
            backward_key: SecretData::new(keys.backward_key),
            forward_nonce,
            backward_nonce,
        }
    }

    /// Seals `plaintext` with the forward key under the forward counter's
    /// nonce, then advances the counter. A spent counter refuses.
    pub fn encrypt_forward(&mut self, plaintext: &[u8]) -> (r: Result<Vec<u8>, CryptoError>)
        ensures
            final(self).forward_key_bytes() == old(self).forward_key_bytes(),
            final(self).backward_key_bytes() == old(self).backward_key_bytes(),
            final(self).backward_counter() == old(self).backward_counter(),
            old(self).forward_counter() == u64::MAX ==> (r matches Err(
                CryptoError::NonceExhausted,
            )) && final(self).forward_counter() == u64::MAX,
            old(self).forward_counter() < u64::MAX && plaintext@.len() <= AEAD_MAX_INPUT ==> r is Ok,
            r matches Ok(c) ==> c@ == aes256gcm_seal(
                old(self).forward_key_bytes(),
                nonce_bytes(old(self).forward_counter()),
                plaintext@,
            ) && c@.len() == plaintext@.len() + 16 && final(self).forward_counter() == old(
                self,
            ).forward_counter() + 1,
            r is Err ==> final(self).forward_counter() == old(self).forward_counter(),
    {
        if self.forward_nonce == u64::MAX {
            return Err(CryptoError::NonceExhausted);
        }
        let nonce = generate_nonce(self.forward_nonce);
        match aead_seal(self.forward_key.expose(), nonce, plaintext) {
            Ok(c) => {
                self.forward_nonce = self.forward_nonce + 1;
                Ok(c)
            },
            Err(e) => Err(CryptoError::RingError(e)),
        }
    }

    /// Opens `ciphertext` with the forward key under the forward counter's
    /// nonce, then advances the counter. A spent counter refuses; a
    /// ciphertext that is no sealing under that key and nonce is refused and
    /// leaves the counter as it was.
    pub fn decrypt_forward(&mut self, ciphertext: &[u8]) -> (r: Result<Vec<u8>, CryptoError>)
        ensures
            final(self).forward_key_bytes() == old(self).forward_key_bytes(),
            final(self).backward_key_bytes() == old(self).backward_key_bytes(),
            final(self).backward_counter() == old(self).backward_counter(),
            old(self).forward_counter() == u64::MAX ==> (r matches Err(
                CryptoError::NonceExhausted,
            )) && final(self).forward_counter() == u64::MAX,
            r matches Ok(p) ==> p@.len() <= AEAD_MAX_INPUT && p@.len() + 16 == ciphertext@.len(),
            r matches Ok(p) ==> ciphertext@ == aes256gcm_seal(
                old(self).forward_key_bytes(),
                nonce_bytes(old(self).forward_counter()),
                p@,
            ) && final(self).forward_counter() == old(self).forward_counter() + 1,
            forall|p: Seq<u8>|
                old(self).forward_counter() < u64::MAX && p.len() <= AEAD_MAX_INPUT && ciphertext@
                    == #[trigger] aes256gcm_seal(
                    old(self).forward_key_bytes(),
                    nonce_bytes(old(self).forward_counter()),
                    p,
                ) ==> (r matches Ok(q) && q@ == p),
            r is Err ==> final(self).forward_counter() == old(self).forward_counter(),
    {
        if self.forward_nonce == u64::MAX {
            return Err(CryptoError::NonceExhausted);
        }
        let nonce = generate_nonce(self.forward_nonce);
        match aead_open(self.forward_key.expose(), nonce, ciphertext) {
            Ok(p) => {
                self.forward_nonce = self.forward_nonce + 1;
                Ok(p)
            },
            Err(e) => Err(CryptoError::RingError(e)),
        }
    }

    /// Opens `ciphertext` with the backward key under the backward counter's
    /// nonce, then advances the counter. A spent counter refuses; a
    /// ciphertext that is no sealing under that key and nonce is refused and
    /// leaves the counter as it was.
    pub fn decrypt_backward(&mut self, ciphertext: &[u8]) -> (r: Result<Vec<u8>, CryptoError>)
        ensures
            final(self).backward_key_bytes() == old(self).backward_key_bytes(),
            final(self).forward_key_bytes() == old(self).forward_key_bytes(),
            final(self).forward_counter() == old(self).forward_counter(),
            old(self).backward_counter() == u64::MAX ==> (r matches Err(
                CryptoError::NonceExhausted,
            )) && final(self).backward_counter() == u64::MAX,
            r matches Ok(p) ==> p@.len() <= AEAD_MAX_INPUT && p@.len() + 16 == ciphertext@.len(),
            r matches Ok(p) ==> ciphertext@ == aes256gcm_seal(
                old(self).backward_key_bytes(),
                nonce_bytes(old(self).backward_counter()),
                p@,
            ) && final(self).backward_counter() == old(self).backward_counter() + 1,
            forall|p: Seq<u8>|
                old(self).backward_counter() < u64::MAX && p.len() <= AEAD_MAX_INPUT && ciphertext@
                    == #[trigger] aes256gcm_seal(
                    old(self).backward_key_bytes(),
                    nonce_bytes(old(self).backward_counter()),
                    p,
                ) ==> (r matches Ok(q) && q@ == p),
            r is Err ==> final(self).backward_counter() == old(self).backward_counter(),
    {
        if self.backward_nonce == u64::MAX {
            return Err(CryptoError::NonceExhausted);
        }
        let nonce = generate_nonce(self.backward_nonce);
        match aead_open(self.backward_key.expose(), nonce, ciphertext) {
            Ok(p) => {
                self.backward_nonce = self.backward_nonce + 1;
                Ok(p)
            },
            Err(e) => Err(CryptoError::RingError(e)),
        }
    }

    /// The forward direction's next counter value.
    pub fn forward_nonce(&self) -> (r: u64)
        ensures
            r == self.forward_counter(),
    {
        self.forward_nonce
    }

    /// The backward direction's next counter value.
    pub fn backward_nonce(&self) -> (r: u64)
        ensures
            r == self.backward_counter(),
    {
        self.backward_nonce
    }

    /// Whether neither key is all zeros.
    pub fn keys_nonzero(&self) -> (r: bool)
        ensures
            r == (self.forward_key_bytes() != Seq::new(32, |i: int| 0u8)
                && self.backward_key_bytes() != Seq::new(32, |i: int| 0u8)),
    {
        let zero = [0u8; 32];
        assert(zero@ =~= Seq::new(32, |i: int| 0u8));
        !crate::security::constant_time_compare(self.forward_key.expose(), &zero)
            && !crate::security::constant_time_compare(self.backward_key.expose(), &zero)
    }
}

/// A ciphertext that opens to `p` is the sealing of `p`; so a sealing of `p`
/// with any byte changed never opens to `p`.
pub proof fn lemma_altered_ciphertext_not_opened(key: Seq<u8>, nonce: Seq<u8>, p: Seq<u8>, c: Seq<u8>, q: Seq<u8>)
    requires
        c != aes256gcm_seal(key, nonce, p),
        c == aes256gcm_seal(key, nonce, q),
    ensures
        q != p,
{
}

/// The keys a handshake yields, wiped when dropped.
pub struct NtorKeys {
    pub forward_key: [u8; 32],
    pub backward_key: [u8; 32],
}

impl Drop for NtorKeys {
    fn drop(&mut self)
        opens_invariants none
        no_unwind
    {
        wipe_bytes(&mut self.forward_key);
        wipe_bytes(&mut self.backward_key);
    }
}

/// Relies on the hkdf crate with SHA-256 (`Hkdf::new` then `expand`): the
/// output keying material of HKDF-SHA256. It depends on the arguments alone.
pub uninterp spec fn hkdf_sha256(salt: Seq<u8>, ikm: Seq<u8>, info: Seq<u8>, len: nat) -> Seq<u8>;

/// Relies on `Hkdf::<Sha256>::new(Some(salt), ikm)` and `expand(info, okm)`,
/// which refuses only an output longer than 255 hash lengths.
#[verifier::external_body]
fn hkdf_expand(salt: &[u8], ikm: &[u8], info: &[u8], len: usize) -> (r: Option<Vec<u8>>)
    ensures
        len <= 8160 ==> r is Some,
        len > 8160 ==> r is None,
        r matches Some(v) ==> v@ == hkdf_sha256(salt@, ikm@, info@, len as nat) && v@.len()
            == len,
{
    let hk = hkdf::Hkdf::<sha2::Sha256>::new(Some(salt), ikm);
    let mut okm = vec![0u8; len];
    match hk.expand(info, &mut okm) {
        Ok(()) => Some(okm),
        Err(_) => None,
    }
}

/// Relies on x25519_dalek's `EphemeralSecret::diffie_hellman`, which consumes
/// the secret: the 32-byte shared secret with the peer's public key.
#[verifier::external_body]
fn x25519_agree(secret: x25519_dalek::EphemeralSecret, their_public: &[u8; 32]) -> (r: [u8; 32]) {
    secret.diffie_hellman(&x25519_dalek::PublicKey::from(*their_public)).to_bytes()
}

/// Relies on x25519_dalek's `EphemeralSecret::random_from_rng` with the OS
/// generator: a fresh secret.
#[verifier::external_body]
pub(crate) fn fresh_ephemeral_secret() -> (r: x25519_dalek::EphemeralSecret) {
    x25519_dalek::EphemeralSecret::random_from_rng(rand_core::OsRng)
}

/// Relies on x25519_dalek's `PublicKey::from(&EphemeralSecret)`: the public
/// key of a secret.
#[verifier::external_body]
pub(crate) fn ephemeral_public_key(secret: &x25519_dalek::EphemeralSecret) -> (r: [u8; 32]) {
    x25519_dalek::PublicKey::from(secret).to_bytes()
}

/// The protocol id, used as HKDF salt and at the end of the secret input.
pub open spec fn protoid() -> Seq<u8> {
    seq![110u8, 116u8, 111u8, 114u8, 45u8, 99u8, 117u8, 114u8, 118u8, 101u8, 50u8, 53u8, 53u8, 49u8, 57u8, 45u8, 115u8, 104u8, 97u8, 50u8, 53u8, 54u8, 45u8, 49u8]
}

/// The HKDF info string of the key expansion.
pub open spec fn expand_info() -> Seq<u8> {
    seq![110u8, 116u8, 111u8, 114u8, 45u8, 107u8, 100u8, 102u8, 45u8, 101u8, 120u8, 112u8, 97u8, 110u8, 100u8]
}

/// The HKDF input: shared secret, relay identity, onion key, client key,
/// server key, protocol id.
pub open spec fn ntor_secret_input(
    shared: Seq<u8>,
    identity: Seq<u8>,
    onion: Seq<u8>,
    client: Seq<u8>,
    server: Seq<u8>,
) -> Seq<u8> {
    shared + identity + onion + client + server + protoid()
}

/// The 96 bytes of keying material: forward key, backward key, auth tag.
pub open spec fn ntor_okm(
    shared: Seq<u8>,
    identity: Seq<u8>,
    onion: Seq<u8>,
    client: Seq<u8>,
    server: Seq<u8>,
) -> Seq<u8> {
    hkdf_sha256(protoid(), ntor_secret_input(shared, identity, onion, client, server), expand_info(), 96)
}

/// Derives the ntor keys and the expected auth tag from the shared secret
/// and the handshake transcript.
pub fn ntor_derive(
    shared: &[u8; 32],
    client_public_key: &[u8; 32],
    server_public_key: &[u8; 32],
    relay_identity_key: &[u8],
    relay_onion_key: &[u8],
) -> (r: Result<(NtorKeys, Vec<u8>), CryptoError>)
    ensures
        ({
            let okm = ntor_okm(
                shared@,
                relay_identity_key@,
                relay_onion_key@,
                client_public_key@,
                server_public_key@,
            );
            r matches Ok(res) && res.0.forward_key@ == okm.subrange(0, 32)
                && res.0.backward_key@ == okm.subrange(32, 64) && res.1@ == okm.subrange(64, 96)
                && res.1@.len() == 32
        }),
{
    let proto = [110u8, 116u8, 111u8, 114u8, 45u8, 99u8, 117u8, 114u8, 118u8, 101u8, 50u8, 53u8, 53u8, 49u8, 57u8, 45u8, 115u8, 104u8, 97u8, 50u8, 53u8, 54u8, 45u8, 49u8];
    let info = [110u8, 116u8, 111u8, 114u8, 45u8, 107u8, 100u8, 102u8, 45u8, 101u8, 120u8, 112u8, 97u8, 110u8, 100u8];
    assert(proto@ =~= protoid());
    assert(info@ =~= expand_info());
    let mut secret_input: Vec<u8> = Vec::new();
    push_all(&mut secret_input, shared.as_slice());
    push_all(&mut secret_input, relay_identity_key);
    push_all(&mut secret_input, relay_onion_key);
    push_all(&mut secret_input, client_public_key.as_slice());
    push_all(&mut secret_input, server_public_key.as_slice());
    push_all(&mut secret_input, proto.as_slice());
    assert(secret_input@ =~= ntor_secret_input(
        shared@,
        relay_identity_key@,
        relay_onion_key@,
        client_public_key@,
        server_public_key@,
    ));
    let okm = match hkdf_expand(proto.as_slice(), secret_input.as_slice(), info.as_slice(), 96) {
        Some(v) => v,
        None => return Err(CryptoError::NtorError("HKDF expand failed".to_string())),
    };
    let mut forward_key = [0u8; 32];
    let mut backward_key = [0u8; 32];
    let mut i: usize = 0;
    while i < 32
        invariant
            i <= 32,
            okm@.len() == 96,
            forall|k: int| 0 <= k < i ==> forward_key@[k] == okm@[k],
            forall|k: int| 0 <= k < i ==> backward_key@[k] == okm@[32 + k],
        decreases 32 - i,
    {
        forward_key[i] = okm[i];
        backward_key[i] = okm[32 + i];
        i += 1;
    }
    assert(forward_key@ =~= okm@.subrange(0, 32));
    assert(backward_key@ =~= okm@.subrange(32, 64));
    let mut auth: Vec<u8> = Vec::new();
    push_all(&mut auth, slice_range(okm.as_slice(), 64, 96));
    Ok((NtorKeys { forward_key, backward_key }, auth))
}

/// The client side of ntor: agrees a shared secret from the client's
/// ephemeral secret and the server's key, then derives keys and auth tag from
/// it and the transcript. The secret itself is not visible here, so the
/// contract says the result is that derivation for some 32-byte secret.
pub fn ntor_handshake(
    client_private_key: x25519_dalek::EphemeralSecret,
    client_public_key: &[u8; 32],
    server_public_key: &[u8; 32],
    relay_identity_key: &[u8],
    relay_onion_key: &[u8],
) -> (r: Result<(NtorKeys, Vec<u8>), CryptoError>)
    ensures
        r is Ok,
        r matches Ok(res) ==> res.1@.len() == 32,
        r matches Ok(res) ==> exists|s: Seq<u8>|
            #![trigger ntor_okm(s, relay_identity_key@, relay_onion_key@, client_public_key@, server_public_key@)]
            s.len() == 32 && res.0.forward_key@ == ntor_okm(
                s,
                relay_identity_key@,
                relay_onion_key@,
                client_public_key@,
                server_public_key@,
            ).subrange(0, 32) && res.0.backward_key@ == ntor_okm(
                s,
                relay_identity_key@,
                relay_onion_key@,
                client_public_key@,
                server_public_key@,
            ).subrange(32, 64) && res.1@ == ntor_okm(
                s,
                relay_identity_key@,
                relay_onion_key@,
                client_public_key@,
                server_public_key@,
            ).subrange(64, 96),
{
    let shared = x25519_agree(client_private_key, server_public_key);
    let r = ntor_derive(&shared, client_public_key, server_public_key, relay_identity_key, relay_onion_key);
    assert(shared@.len() == 32);
    r
}

/// Two parties that hold the same shared secret and the same transcript
/// derive the same 96 bytes, hence the same keys and the same auth tag.
pub proof fn lemma_ntor_parties_agree(
    client_shared: Seq<u8>,
    server_shared: Seq<u8>,
    identity: Seq<u8>,
    onion: Seq<u8>,
    client: Seq<u8>,
    server: Seq<u8>,
)
    requires
        client_shared == server_shared,
    ensures
        ntor_okm(client_shared, identity, onion, client, server) == ntor_okm(
            server_shared,
            identity,
            onion,
            client,
            server,
        ),
{
}

} // verus!
