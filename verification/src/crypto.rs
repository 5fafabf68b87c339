//! Symmetric primitives: a keystream cipher and a keyed MAC.
//!
//! Both are small deterministic 64-bit constructions standing in for
//! AES-256-CBC and HMAC. The cipher is its own inverse
//! ([`lemma_cipher_roundtrip`]); the MAC is a total function of the message
//! and the two identity keys, so verification is recomputation.
use vstd::prelude::*;
use crate::curve::IdentityKey;
use crate::ratchet::spec_mix;
use crate::ratchet::mix;

verus! {

/// Keystream state after `i` steps.
pub open spec fn spec_stream_state(key: u64, iv: u64, i: nat) -> u64
    decreases i,
{
    if i == 0 {
        spec_mix(key, iv)
    } else {
        spec_mix(spec_stream_state(key, iv, (i - 1) as nat), 7)
    }
}

/// The keystream byte that masks position `i`.
pub open spec fn spec_stream_byte(key: u64, iv: u64, i: nat) -> u8 {
    (spec_stream_state(key, iv, i) >> 56) as u8
}

/// `data` XOR-ed with the keystream of `(key, iv)`.
pub open spec fn spec_apply_keystream(data: Seq<u8>, key: u64, iv: u64) -> Seq<u8> {
    Seq::new(data.len(), |i: int| data[i] ^ spec_stream_byte(key, iv, i as nat))
}

/// Encrypt (equally: decrypt) `data` under `(key, iv)`.
pub fn apply_keystream(data: &[u8], key: u64, iv: u64) -> (r: Vec<u8>)
    ensures
        r@ == spec_apply_keystream(data@, key, iv),
{
    let mut out: Vec<u8> = Vec::new();
    let mut state: u64 = mix(key, iv);
    let mut i: usize = 0;
    while i < data.len()
        invariant
            i <= data.len(),
            state == spec_stream_state(key, iv, i as nat),
            out@.len() == i,
            forall|j: int| 0 <= j < i ==> out@[j] == data@[j] ^ spec_stream_byte(key, iv, j as nat),
        decreases data.len() - i,
    {
        out.push(data[i] ^ ((state >> 56) as u8));
        state = mix(state, 7);
        i = i + 1;
    }
    proof {
        assert(out@ =~= spec_apply_keystream(data@, key, iv));
    }
    out
}

/// Applying the keystream twice restores the data.
pub proof fn lemma_cipher_roundtrip(data: Seq<u8>, key: u64, iv: u64)
    ensures
        spec_apply_keystream(spec_apply_keystream(data, key, iv), key, iv) =~= data,
{
    assert forall|a: u8, b: u8| (a ^ b) ^ b == a by {
        assert(forall|a: u8, b: u8| (a ^ b) ^ b == a) by (bit_vector);
    }
}

/// MAC folding: absorb the message bytes one at a time.
pub open spec fn spec_mac_fold(acc: u64, data: Seq<u8>) -> u64
    decreases data.len(),
{
    if data.len() == 0 {
        acc
    } else {
        spec_mac_fold(spec_mix(acc, data[0] as u64), data.drop_first())
    }
}

/// The authentication tag over sender and receiver identities, the MAC key,
/// a message header word, and the message body.
pub open spec fn spec_mac(
    sender_identity: IdentityKey,
    receiver_identity: IdentityKey,
    mac_key: u64,
    header: u64,
    body: Seq<u8>,
) -> u64 {
    spec_mac_fold(
        spec_mix(spec_mix(spec_mix(mac_key, sender_identity.public_key.value),
            receiver_identity.public_key.value), header),
        body,
    )
}

/// Compute the authentication tag.
pub fn compute_mac(
    sender_identity: &IdentityKey,
    receiver_identity: &IdentityKey,
    mac_key: u64,
    header: u64,
    body: &[u8],
) -> (r: u64)
    ensures
        r == spec_mac(*sender_identity, *receiver_identity, mac_key, header, body@),
{
    let mut acc: u64 = mix(
        mix(mix(mac_key, sender_identity.public_key.value), receiver_identity.public_key.value),
        header,
    );
    let mut i: usize = 0;
    proof {
        assert(body@.skip(0) =~= body@);
    }
    while i < body.len()
        invariant
            i <= body.len(),
            spec_mac_fold(acc, body@.skip(i as int)) == spec_mac(
                *sender_identity, *receiver_identity, mac_key, header, body@),
        decreases body.len() - i,
    {
        proof {
            assert(body@.skip(i as int).drop_first() =~= body@.skip(i as int + 1));
            assert(body@.skip(i as int)[0] == body@[i as int]);
        }
        acc = mix(acc, body[i] as u64);
        i = i + 1;
    }
    proof {
        assert(body@.skip(body@.len() as int) =~= Seq::<u8>::empty());
    }
    acc
}

} // verus!
