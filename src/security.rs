//! Constant-time comparison and secret key material that is wiped when
//! dropped.
use vstd::prelude::*;

verus! {

/// Compares two byte strings in time that depends on their lengths only.
pub fn constant_time_compare(a: &[u8], b: &[u8]) -> (r: bool)
    ensures
        r == (a@ == b@),
{
    if a.len() != b.len() {
        return false;
    }
    let mut result: u8 = 0;
    let mut i: usize = 0;
    while i < a.len()
        invariant
            i <= a@.len(),
            a@.len() == b@.len(),
            (result == 0) <==> (forall|k: int| 0 <= k < i ==> a@[k] == b@[k]),
        decreases a@.len() - i,
    {
        let x = a[i];
        let y = b[i];
        let next = result | (x ^ y);
        assert((next == 0) <==> (result == 0 && x == y)) by (bit_vector)
            requires
                next == result | (x ^ y),
        ;
        result = next;
        i += 1;
    }
    assert(result == 0 ==> a@ =~= b@);
    result == 0
}

/// Relies on zeroize's `Zeroize` for byte arrays: every byte is set to zero.
#[verifier::external_body]
pub(crate) fn wipe_bytes(bytes: &mut [u8; 32])
    ensures
        final(bytes)@ == Seq::new(32, |i: int| 0u8),
    opens_invariants none
    no_unwind
{
    zeroize::Zeroize::zeroize(bytes);
}

/// 32 bytes of key material, zeroed when dropped.
pub struct SecretData {
    key: [u8; 32],
}

impl SecretData {
    pub closed spec fn bytes(&self) -> Seq<u8> {
        self.key@
    }

    pub fn new(key: [u8; 32]) -> (r: SecretData)
        ensures
            r.bytes() == key@,
    {
        SecretData { key }
    }

    /// The key bytes.
    pub fn expose(&self) -> (r: &[u8; 32])
        ensures
            r@ == self.bytes(),
    {
        &self.key
    }

    /// Overwrites the key with zeros.
    pub fn zeroize(&mut self)
        ensures
            final(self).bytes() == Seq::new(32, |i: int| 0u8),
        opens_invariants none
        no_unwind
    {
        wipe_bytes(&mut self.key);
    }
}

impl Drop for SecretData {
    fn drop(&mut self)
        opens_invariants none
        no_unwind
    {
        self.zeroize();
    }
}

} // verus!
