//! Key agreement over a toy commutative group.
//!
//! A private key is a 64-bit scalar; its public counterpart is the scalar
//! multiplied (mod 2^64) by a fixed base. The shared secret of a public and a
//! private key is their product, so `agree(public_of(a), b)` equals
//! `agree(public_of(b), a)`: the commutativity that the Diffie-Hellman
//! ratchet relies on, proved in [`lemma_agreement_symmetric`].
use vstd::prelude::*;
use vstd::arithmetic::div_mod::lemma_mul_mod_noop_left;
use vstd::arithmetic::mul::lemma_mul_is_associative;
use vstd::arithmetic::mul::lemma_mul_is_commutative;

verus! {

/// Base point of the toy group.
pub const KEY_BASE: u64 = 0x9E37_79B9_7F4A_7C15;

#[derive(Clone, Copy, PartialEq, Eq, Structural, Debug)]
pub struct PublicKey {
    pub value: u64,
}

#[derive(Clone, Copy, PartialEq, Eq, Structural, Debug)]
pub struct PrivateKey {
    pub value: u64,
}

/// A long-term identity, carried as a bare public key.
#[derive(Clone, Copy, PartialEq, Eq, Structural, Debug)]
pub struct IdentityKey {
    pub public_key: PublicKey,
}

#[derive(Clone, Copy, PartialEq, Eq, Structural, Debug)]
pub struct IdentityKeyPair {
    pub identity_key: IdentityKey,
    pub private_key: PrivateKey,
}

pub open spec fn spec_public_of(key: PrivateKey) -> PublicKey {
    PublicKey { value: key.value.wrapping_mul(KEY_BASE) }
}

pub open spec fn spec_agree(public: PublicKey, private: PrivateKey) -> u64 {
    public.value.wrapping_mul(private.value)
}

impl PrivateKey {
    /// The public key of this private scalar.
    pub fn public_key(&self) -> (r: PublicKey)
        ensures
            r == spec_public_of(*self),
    {
        PublicKey { value: self.value.wrapping_mul(KEY_BASE) }
    }
}

/// The shared secret of a peer's public key and a local private key.
pub fn agree(public: &PublicKey, private: &PrivateKey) -> (r: u64)
    ensures
        r == spec_agree(*public, *private),
{
    public.value.wrapping_mul(private.value)
}

/// Two parties that exchange public keys derive the same shared secret.
pub proof fn lemma_agreement_symmetric(a: PrivateKey, b: PrivateKey)
    ensures
        spec_agree(spec_public_of(a), b) == spec_agree(spec_public_of(b), a),
{
    let m = 0x1_0000_0000_0000_0000int;
    let av = a.value as int;
    let bv = b.value as int;
    let g = KEY_BASE as int;
    lemma_mul_mod_noop_left(av * g, bv, m);
    lemma_mul_mod_noop_left(bv * g, av, m);
    assert((av * g) * bv == (bv * g) * av) by {
        lemma_mul_is_associative(av, g, bv);
        lemma_mul_is_associative(bv, g, av);
        lemma_mul_is_commutative(av, g * bv);
        lemma_mul_is_commutative(g, bv);
        lemma_mul_is_commutative(bv, g * av);
        lemma_mul_is_commutative(g, av);
        lemma_mul_is_associative(g, bv, av);
        lemma_mul_is_associative(g, av, bv);
        lemma_mul_is_commutative(bv, av);
    }
}

} // verus!
