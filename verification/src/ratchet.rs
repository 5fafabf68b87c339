//! Chain keys, root keys, and the message keys derived from them.
//!
//! Advancing a chain and deriving a cipher/MAC/IV triple are pure total
//! functions of the key material; the derivation formulas are simple 64-bit
//! mixing stand-ins for the usual HMAC constructions, stated exactly so that
//! every caller's contract can be exact too.
use vstd::prelude::*;

verus! {

/// Mixing constant of the key derivation.
pub const KDF_STEP: u64 = 0xA076_1D64_78BD_642F;

/// One mixing round: fold `salt` into `key`. Opaque: every contract treats
/// derived keys as opaque values; only the executable mixing round needs the
/// formula.
#[verifier::opaque]
pub open spec fn spec_mix(key: u64, salt: u64) -> u64 {
    key.wrapping_mul(KDF_STEP).wrapping_add(salt)
}

/// One mixing round, executable form.
pub fn mix(key: u64, salt: u64) -> (r: u64)
    ensures
        r == spec_mix(key, salt),
{
    proof {
        reveal(spec_mix);
    }
    key.wrapping_mul(KDF_STEP).wrapping_add(salt)
}

/// A symmetric chain secret together with the counter of the next message
/// key to be derived from it.
#[derive(Clone, Copy, PartialEq, Eq, Structural, Debug)]
pub struct ChainKey {
    pub key: u64,
    pub index: u64,
}

/// The secret that Diffie-Hellman outputs are mixed into on a ratchet step.
#[derive(Clone, Copy, PartialEq, Eq, Structural, Debug)]
pub struct RootKey {
    pub key: u64,
}

/// The cipher/MAC/IV triple for one message counter.
#[derive(Clone, Copy, PartialEq, Eq, Structural, Debug)]
pub struct MessageKeys {
    pub cipher_key: u64,
    pub mac_key: u64,
    pub iv: u64,
    pub counter: u32,
}

impl ChainKey {
    pub open spec fn spec_next(self) -> ChainKey {
        ChainKey { key: spec_mix(self.key, 1), index: (self.index + 1) as u64 }
    }

    pub open spec fn spec_message_keys(self) -> MessageKeys {
        MessageKeys {
            cipher_key: spec_mix(self.key, 2),
            mac_key: spec_mix(self.key, 3),
            iv: spec_mix(self.key, 4),
            counter: self.index as u32,
        }
    }

    /// The chain key one step further along the symmetric ratchet.
    pub fn next_chain_key(&self) -> (r: ChainKey)
        requires
            self.index < u64::MAX,
        ensures
            r == self.spec_next(),
    {
        ChainKey { key: mix(self.key, 1), index: self.index + 1 }
    }

    /// The message keys at this chain key's current counter.
    pub fn message_keys(&self) -> (r: MessageKeys)
        requires
            self.index <= u32::MAX,
        ensures
            r == self.spec_message_keys(),
    {
        MessageKeys {
            cipher_key: mix(self.key, 2),
            mac_key: mix(self.key, 3),
            iv: mix(self.key, 4),
            counter: self.index as u32,
        }
    }
}

/// Advance a chain key `n` steps.
pub open spec fn spec_advance(ck: ChainKey, n: nat) -> ChainKey
    decreases n,
{
    if n == 0 {
        ck
    } else {
        spec_advance(ck, (n - 1) as nat).spec_next()
    }
}

/// Advancing `n` steps raises the index by `n`.
pub proof fn lemma_advance_index(ck: ChainKey, n: nat)
    requires
        ck.index + n <= u64::MAX,
    ensures
        spec_advance(ck, n).index == ck.index + n,
    decreases n,
{
    if n > 0 {
        lemma_advance_index(ck, (n - 1) as nat);
    }
}

/// Advancing in two stages is advancing by the sum.
pub proof fn lemma_advance_add(ck: ChainKey, m: nat, n: nat)
    ensures
        spec_advance(spec_advance(ck, m), n) == spec_advance(ck, m + n),
    decreases n,
{
    if n > 0 {
        lemma_advance_add(ck, m, (n - 1) as nat);
    }
}

impl RootKey {
    pub open spec fn spec_create_chain(self, shared_secret: u64) -> (RootKey, ChainKey) {
        let mixed = spec_mix(self.key, shared_secret);
        (
            RootKey { key: spec_mix(mixed, 5) },
            ChainKey { key: spec_mix(mixed, 6), index: 0 },
        )
    }

    /// The Diffie-Hellman ratchet step: mix a fresh shared secret into the
    /// root key, yielding the next root key and a chain starting at zero.
    pub fn create_chain(
        &self,
        their_ratchet_key: &crate::curve::PublicKey,
        our_ratchet_key: &crate::curve::PrivateKey,
    ) -> (r: (RootKey, ChainKey))
        ensures
            r == self.spec_create_chain(
                crate::curve::spec_agree(*their_ratchet_key, *our_ratchet_key),
            ),
    {
        let secret = crate::curve::agree(their_ratchet_key, our_ratchet_key);
        let mixed = mix(self.key, secret);
        (RootKey { key: mix(mixed, 5) }, ChainKey { key: mix(mixed, 6), index: 0 })
    }
}

} // verus!
