//! The laws of the session cipher: proofs that relate encryption, decryption
//! and redelivery across calls, stated over the same models the executable
//! functions are specified by.
use vstd::prelude::*;
use crate::crypto::lemma_cipher_roundtrip;
use crate::curve::PublicKey;
use crate::errors::ErrorValue;
use crate::protocol::MessageValue;
use crate::ratchet::lemma_advance_add;
use crate::ratchet::lemma_advance_index;
use crate::ratchet::spec_advance;
use crate::ratchet::ChainKey;
use crate::ratchet::MessageKeys;
use crate::session_cipher::spec_decrypt_with_record;
use crate::session_cipher::spec_decrypt_with_state;
use crate::session_cipher::spec_encrypt;
use crate::session_cipher::spec_fetch_message_keys;
use crate::session_cipher::spec_ratchet_chain;
use crate::session_cipher::spec_skip_loop;
use crate::session_cipher::spec_try_archived;
use crate::session_cipher::ArchivedOutcome;
use crate::state::chain_pos;
use crate::state::lemma_chain_pos;
use crate::state::lemma_skipped_pos;
use crate::state::skipped_pos;
use crate::state::spec_push_skipped;
use crate::state::ReceiverChainValue;
use crate::state::RecordValue;
use crate::state::StateValue;
use crate::MAX_FORWARD_JUMPS;

verus! {

/// Well-formedness of one receiver chain: skipped keys exist only for
/// counters strictly below the chain's index, at most once each.
pub open spec fn wf_chain(c: ReceiverChainValue) -> bool {
    &&& c.chain_key.index <= u32::MAX as u64 + 1
    &&& forall|j: int| 0 <= j < c.skipped.len() ==> ((#[trigger] c.skipped[j]).counter as u64)
        < c.chain_key.index
    &&& forall|j1: int, j2: int| 0 <= j1 < j2 < c.skipped.len() ==> c.skipped[j1].counter
        != c.skipped[j2].counter
}

/// Well-formedness of a session state: every receiver chain is well-formed.
pub open spec fn wf_state(s: StateValue) -> bool {
    forall|i: int| 0 <= i < s.receiver_chains.len() ==> wf_chain(#[trigger] s.receiver_chains[i])
}

/// Well-formedness of a record: every candidate state is well-formed.
pub open spec fn wf_record(r: RecordValue) -> bool {
    &&& match r.current {
        Some(c) => wf_state(c),
        None => true,
    }
    &&& forall|i: int| 0 <= i < r.previous.len() ==> wf_state(#[trigger] r.previous[i])
}

/// The chain key that the skipped-key derivation loop ends on is the starting
/// key advanced `n` steps.
#[verifier::rlimit(100)]
pub proof fn lemma_skip_loop_chain(skipped: Seq<MessageKeys>, ck: ChainKey, n: nat)
    ensures
        spec_skip_loop(skipped, ck, n).1 == spec_advance(ck, n),
    decreases n,
{
    if n > 0 {
        lemma_skip_loop_chain(spec_push_skipped(skipped, ck.spec_message_keys()), ck.spec_next(), (
        n - 1) as nat);
        assert(spec_advance(ck, 0) == ck);
        assert(spec_advance(ck, 1) == ck.spec_next());
        lemma_advance_add(ck, 1, (n - 1) as nat);
    }
}

/// Every key the derivation loop leaves cached is for a counter below the
/// final index.
#[verifier::rlimit(100)]
pub proof fn lemma_skip_loop_counters(skipped: Seq<MessageKeys>, ck: ChainKey, n: nat)
    requires
        ck.index + n <= u32::MAX as u64 + 1,
        forall|j: int| 0 <= j < skipped.len() ==> ((#[trigger] skipped[j]).counter as u64) < ck.index,
    ensures
        forall|j: int| 0 <= j < spec_skip_loop(skipped, ck, n).0.len() ==> ((
        #[trigger] spec_skip_loop(skipped, ck, n).0[j]).counter as u64) < ck.index + n,
    decreases n,
{
    if n > 0 {
        let pushed = spec_push_skipped(skipped, ck.spec_message_keys());
        assert forall|j: int| 0 <= j < pushed.len() implies ((#[trigger] pushed[j]).counter as u64)
            < ck.index + 1 by {
            let grown = seq![ck.spec_message_keys()] + skipped;
            assert(pushed[j] == grown[j]);
            if j == 0 {
                assert(grown[0].counter == ck.index as u32);
            } else {
                assert(grown[j] == skipped[j - 1]);
            }
        }
        lemma_skip_loop_counters(pushed, ck.spec_next(), (n - 1) as nat);
        assert(spec_skip_loop(skipped, ck, n) == spec_skip_loop(pushed, ck.spec_next(), (n - 1) as nat));
        assert(ck.spec_next().index == ck.index + 1);
    }
}

/// Sessions of two peers that are ready for one round of traffic from the
/// first to the second: versions agree, identities cross-match, the sender
/// has not ratcheted past the receiver's window, and the receiver has not yet
/// seen the sender's ratchet key.
pub open spec fn paired_sessions(sa: StateValue, sb: StateValue) -> bool {
    &&& sa.sender_chain matches Some(a_chain)
    &&& sb.sender_chain is Some
    &&& sa.session_version == sb.session_version
    &&& sa.session_version <= u8::MAX
    &&& sa.remote_identity == Some(sb.local_identity)
    &&& sb.remote_identity == Some(sa.local_identity)
    &&& sa.pending_pre_key is None
    &&& {
        let a_chain = sa.sender_chain->Some_0;
        let derived = sb.root_key.spec_create_chain(
            crate::curve::spec_agree(a_chain.ratchet_public, sb.sender_chain->Some_0.ratchet_private),
        );
        &&& chain_pos(sb.receiver_chains, a_chain.ratchet_public) is None
        &&& a_chain.chain_key.index <= MAX_FORWARD_JUMPS as u64
        &&& a_chain.chain_key == spec_advance(derived.1, a_chain.chain_key.index as nat)
    }
}

/// What one party encrypts, the paired party decrypts back to the same
/// plaintext, against any record whose current state is the paired session.
pub proof fn lemma_encrypt_decrypt_roundtrip(
    sa: StateValue,
    sb: StateValue,
    previous: Seq<StateValue>,
    ptext: Seq<u8>,
)
    requires
        paired_sessions(sa, sb),
    ensures
        ({
            let enc = spec_encrypt(RecordValue { current: Some(sa), previous: Seq::empty() }, ptext);
            &&& enc is Ok
            &&& enc->Ok_0.message matches crate::protocol::CiphertextValue::SignalMessage(m)
            &&& spec_decrypt_with_state(sb, enc->Ok_0.message->SignalMessage_0).1 == Ok::<
                Seq<u8>,
                ErrorValue,
            >(ptext)
            &&& spec_decrypt_with_record(
                RecordValue { current: Some(sb), previous },
                enc->Ok_0.message->SignalMessage_0,
            ).1 == Ok::<Seq<u8>, ErrorValue>(ptext)
        }),
{
    reveal(spec_decrypt_with_state);
    let a_chain = sa.sender_chain->Some_0;
    let c = a_chain.chain_key.index;
    let enc = spec_encrypt(RecordValue { current: Some(sa), previous: Seq::empty() }, ptext);
    assert(enc is Ok);
    let m = enc->Ok_0.message->SignalMessage_0;
    assert(m.counter == c as u32);
    assert(m.message_version as u32 == sb.session_version);

    let derived = sb.root_key.spec_create_chain(
        crate::curve::spec_agree(a_chain.ratchet_public, sb.sender_chain->Some_0.ratchet_private),
    );
    let ratcheted = spec_ratchet_chain(sb, m.sender_ratchet_key);
    assert(m.sender_ratchet_key == a_chain.ratchet_public);
    assert(ratcheted.1 == derived.1);
    let s1 = ratcheted.0;
    assert(s1.receiver_chains[0].ratchet_key == a_chain.ratchet_public);
    assert(chain_pos(s1.receiver_chains, a_chain.ratchet_public) == Some(0int));
    assert(s1.receiver_chains[0].skipped =~= Seq::<MessageKeys>::empty());

    let ck = derived.1;
    assert(ck.index == 0);
    let n = (m.counter as u64 - ck.index) as nat;
    assert(n == c as nat);
    let fetched = spec_fetch_message_keys(s1, m.sender_ratchet_key, ck, m.counter);
    lemma_skip_loop_chain(s1.receiver_chains[0].skipped, ck, n);
    lemma_advance_index(ck, n);
    assert(spec_skip_loop(s1.receiver_chains[0].skipped, ck, n).1 == a_chain.chain_key);
    assert(fetched.1 == Ok::<MessageKeys, ErrorValue>(a_chain.chain_key.spec_message_keys()));
    assert(fetched.0.remote_identity == Some(sa.local_identity));
    assert(fetched.0.local_identity == sb.local_identity);

    let keys = a_chain.chain_key.spec_message_keys();
    assert(m.mac == crate::protocol::spec_envelope_mac(
        sa.local_identity,
        sb.local_identity,
        keys.mac_key,
        m,
    ));
    lemma_cipher_roundtrip(ptext, keys.cipher_key, keys.iv);
    assert(spec_decrypt_with_state(sb, m).1 == Ok::<Seq<u8>, ErrorValue>(ptext));
}

/// Chain lookup depends only on the chains' ratchet keys.
proof fn lemma_chain_pos_same_keys(
    c1: Seq<ReceiverChainValue>,
    c2: Seq<ReceiverChainValue>,
    k: PublicKey,
)
    requires
        c1.len() == c2.len(),
        forall|j: int| 0 <= j < c1.len() ==> (#[trigger] c1[j]).ratchet_key == c2[j].ratchet_key,
    ensures
        chain_pos(c1, k) == chain_pos(c2, k),
    decreases c1.len(),
{
    if c1.len() > 0 {
        let t1 = c1.drop_first();
        let t2 = c2.drop_first();
        assert forall|j: int| 0 <= j < t1.len() implies (#[trigger] t1[j]).ratchet_key
            == t2[j].ratchet_key by {
            assert(t1[j] == c1[j + 1]);
            assert(t2[j] == c2[j + 1]);
        }
        lemma_chain_pos_same_keys(t1, t2, k);
    }
}

/// A state that has decrypted an envelope classifies the same envelope as a
/// duplicate ever after.
pub proof fn lemma_state_decrypt_idempotent(s: StateValue, m: MessageValue)
    requires
        wf_state(s),
        spec_decrypt_with_state(s, m).1 is Ok,
    ensures
        spec_decrypt_with_state(spec_decrypt_with_state(s, m).0, m).1 matches Err(
            ErrorValue::DuplicatedMessage(_, _),
        ),
{
    reveal(spec_decrypt_with_state);
    let k = m.sender_ratchet_key;
    let ratcheted = spec_ratchet_chain(s, k);
    let s1 = ratcheted.0;
    let ck = ratcheted.1;
    let i = chain_pos(s1.receiver_chains, k)->Some_0;
    lemma_chain_pos(s.receiver_chains, k);
    if chain_pos(s.receiver_chains, k) is None {
        assert(s1.receiver_chains[0].ratchet_key == k);
        assert(chain_pos(s1.receiver_chains, k) == Some(0int));
    }
    lemma_chain_pos(s1.receiver_chains, k);
    let chain = s1.receiver_chains[i];
    let fetched = spec_fetch_message_keys(s1, k, ck, m.counter);
    let s2 = fetched.0;
    assert(chain.chain_key == ck);

    // The well-formedness of the chain that was used.
    assert(wf_chain(chain)) by {
        if chain_pos(s.receiver_chains, k) is Some {
            assert(s.receiver_chains[i] == chain);
        } else {
            assert(chain.skipped =~= Seq::<MessageKeys>::empty());
        }
    }

    let s_final = spec_decrypt_with_state(s, m).0;
    assert(s_final.receiver_chains == s2.receiver_chains);
    assert(s_final.session_version == s.session_version);
    assert(s_final.sender_chain is Some);

    // After the first decryption the chain at `i` holds no key for the
    // counter and its index is beyond it.
    let new_chain = s_final.receiver_chains[i];
    assert(new_chain.ratchet_key == k);
    if ck.index > m.counter as u64 {
        let j = skipped_pos(chain.skipped, m.counter)->Some_0;
        lemma_skipped_pos(chain.skipped, m.counter);
        assert(new_chain.chain_key == ck);
        assert(new_chain.skipped == chain.skipped.remove(j));
        assert forall|t: int| 0 <= t < new_chain.skipped.len() implies (
        #[trigger] new_chain.skipped[t]).counter != m.counter by {
            if t < j {
                assert(new_chain.skipped[t] == chain.skipped[t]);
            } else {
                assert(new_chain.skipped[t] == chain.skipped[t + 1]);
            }
        }
        lemma_skipped_pos(new_chain.skipped, m.counter);
    } else {
        let n = (m.counter as u64 - ck.index) as nat;
        let stepped = spec_skip_loop(chain.skipped, ck, n);
        lemma_skip_loop_chain(chain.skipped, ck, n);
        lemma_advance_index(ck, n);
        assert(stepped.1.index == m.counter as u64);
        assert(new_chain.chain_key == stepped.1.spec_next());
        assert(new_chain.chain_key.index == m.counter as u64 + 1);
        lemma_skip_loop_counters(chain.skipped, ck, n);
        assert forall|t: int| 0 <= t < new_chain.skipped.len() implies (
        #[trigger] new_chain.skipped[t]).counter != m.counter by {
            assert((new_chain.skipped[t].counter as u64) < ck.index + n);
        }
        lemma_skipped_pos(new_chain.skipped, m.counter);
    }

    // The second decryption finds the same chain and fails the cache lookup.
    let ratcheted2 = spec_ratchet_chain(s_final, m.sender_ratchet_key);
    assert forall|j: int| 0 <= j < s_final.receiver_chains.len() implies (
    #[trigger] s_final.receiver_chains[j]).ratchet_key == s1.receiver_chains[j].ratchet_key by {
        if j != i {
            assert(s_final.receiver_chains[j] == s1.receiver_chains[j]);
        }
    }
    lemma_chain_pos_same_keys(s_final.receiver_chains, s1.receiver_chains, k);
    assert(chain_pos(s_final.receiver_chains, k) == Some(i));
    assert(ratcheted2 == (s_final, new_chain.chain_key));
    assert(new_chain.chain_key.index > m.counter as u64);
    assert(spec_fetch_message_keys(s_final, k, new_chain.chain_key, m.counter).1 == Err::<
        MessageKeys,
        ErrorValue,
    >(ErrorValue::DuplicatedMessage(new_chain.chain_key.index, m.counter)));
}

/// The archived scan's hit names the archived state that decrypted the
/// envelope.
pub proof fn lemma_try_archived_found(previous: Seq<StateValue>, m: MessageValue)
    ensures
        spec_try_archived(previous, m) matches ArchivedOutcome::Found(i, s, p) ==> 0 <= i
            < previous.len() && spec_decrypt_with_state(previous[i], m) == (s, Ok::<
            Seq<u8>,
            ErrorValue,
        >(p)),
    decreases previous.len(),
{
    if previous.len() > 0 {
        lemma_try_archived_found(previous.drop_first(), m);
        assert forall|j: int| 0 <= j < previous.len() - 1 implies previous.drop_first()[j]
            == previous[j + 1] by {}
    }
}

/// An envelope a record has decrypted once is classified `DuplicatedMessage`
/// when decrypted again under the resulting record, whichever candidate state
/// decrypted it the first time.
pub proof fn lemma_record_decrypt_idempotent(r: RecordValue, m: MessageValue)
    requires
        wf_record(r),
        spec_decrypt_with_record(r, m).1 is Ok,
    ensures
        spec_decrypt_with_record(spec_decrypt_with_record(r, m).0, m).1 matches Err(
            ErrorValue::DuplicatedMessage(_, _),
        ),
{
    let r2 = spec_decrypt_with_record(r, m).0;
    if r.current is Some && spec_decrypt_with_state(r.current->Some_0, m).1 is Ok {
        lemma_state_decrypt_idempotent(r.current->Some_0, m);
    } else {
        let outcome = spec_try_archived(r.previous, m);
        lemma_try_archived_found(r.previous, m);
        match outcome {
            ArchivedOutcome::Found(i, s2, p) => {
                lemma_state_decrypt_idempotent(r.previous[i], m);
            },
            _ => {
                assert(false);
            },
        }
    }
}

/// A receiver chain that tracks the sender chain rooted at `ck0` after some
/// set of counters was consumed, in whatever order: the chain key is `ck0`
/// advanced to the chain's index, and the skipped-key cache holds exactly the
/// genuine message keys of the unconsumed counters below it.
pub open spec fn chain_synced(c: ReceiverChainValue, ck0: ChainKey, consumed: Set<u32>) -> bool {
    &&& ck0.index == 0
    &&& c.chain_key.index <= MAX_FORWARD_JUMPS as u64 + 1
    &&& c.skipped.len() <= c.chain_key.index
    &&& c.chain_key == spec_advance(ck0, c.chain_key.index as nat)
    &&& forall|j: u32| (j as u64) < c.chain_key.index && !consumed.contains(j)
        ==> skipped_pos(c.skipped, j) is Some
    &&& forall|t: int| 0 <= t < c.skipped.len() ==> (#[trigger] c.skipped[t])
        == spec_advance(ck0, c.skipped[t].counter as nat).spec_message_keys()
    &&& forall|t: int| 0 <= t < c.skipped.len() ==> ((#[trigger] c.skipped[t]).counter as u64)
        < c.chain_key.index
}

/// Without eviction pressure, the derivation loop prepends the `n` derived
/// keys, newest first, in front of the old cache.
#[verifier::rlimit(100)]
pub proof fn lemma_skip_loop_no_evict(skipped: Seq<MessageKeys>, ck: ChainKey, n: nat)
    requires
        skipped.len() + n <= crate::MAX_MESSAGE_KEYS,
    ensures
        spec_skip_loop(skipped, ck, n).0.len() == skipped.len() + n,
        forall|t: int| 0 <= t < n ==> #[trigger] spec_skip_loop(skipped, ck, n).0[t]
            == spec_advance(ck, (n - 1 - t) as nat).spec_message_keys(),
        forall|t: int| n <= t < skipped.len() + n ==> #[trigger] spec_skip_loop(skipped, ck, n).0[t]
            == skipped[t - n],
    decreases n,
{
    if n > 0 {
        let pushed = spec_push_skipped(skipped, ck.spec_message_keys());
        assert(pushed =~= seq![ck.spec_message_keys()] + skipped);
        lemma_skip_loop_no_evict(pushed, ck.spec_next(), (n - 1) as nat);
        assert(spec_skip_loop(skipped, ck, n) == spec_skip_loop(pushed, ck.spec_next(), (n - 1) as nat));
        assert(spec_advance(ck, 0) == ck);
        assert(spec_advance(ck, 1) == ck.spec_next());
        assert forall|t: int| 0 <= t < n implies #[trigger] spec_skip_loop(skipped, ck, n).0[t]
            == spec_advance(ck, (n - 1 - t) as nat).spec_message_keys() by {
            if t < n - 1 {
                lemma_advance_add(ck, 1, (n - 1 - t - 1) as nat);
            } else {
                assert(spec_skip_loop(skipped, ck, n).0[t] == pushed[0]);
            }
        }
    }
}

/// The genuine envelope for counter `c` of the sender chain rooted at `ck0`:
/// what the sender's encryption produces there for plaintext `p`.
pub open spec fn genuine_envelope(
    m: MessageValue,
    ck0: ChainKey,
    k: PublicKey,
    c: u32,
    p: Seq<u8>,
    sender_identity: crate::curve::IdentityKey,
    receiver_identity: crate::curve::IdentityKey,
) -> bool {
    let keys = spec_advance(ck0, c as nat).spec_message_keys();
    &&& m.sender_ratchet_key == k
    &&& m.counter == c
    &&& m.body == crate::crypto::spec_apply_keystream(p, keys.cipher_key, keys.iv)
    &&& m.mac == crate::protocol::spec_envelope_mac(sender_identity, receiver_identity, keys.mac_key, m)
}

/// Order independence of delivery: whatever counters were consumed before and
/// in whatever order, a genuine envelope for an unconsumed counter within the
/// forward-jump window still decrypts to its plaintext — from the cache when
/// the chain has moved past it, by a bounded jump ahead otherwise.
pub proof fn lemma_unconsumed_envelope_decrypts(
    s: StateValue,
    m: MessageValue,
    ck0: ChainKey,
    consumed: Set<u32>,
    c: u32,
    p: Seq<u8>,
)
    requires
        s.sender_chain is Some,
        s.remote_identity is Some,
        m.message_version as u32 == s.session_version,
        chain_pos(s.receiver_chains, m.sender_ratchet_key) matches Some(i) && chain_synced(
            s.receiver_chains[i],
            ck0,
            consumed,
        ),
        !consumed.contains(c),
        c <= MAX_FORWARD_JUMPS,
        genuine_envelope(
            m,
            ck0,
            m.sender_ratchet_key,
            c,
            p,
            s.remote_identity->Some_0,
            s.local_identity,
        ),
    ensures
        spec_decrypt_with_state(s, m).1 == Ok::<Seq<u8>, ErrorValue>(p),
        ({
            let s2 = spec_decrypt_with_state(s, m).0;
            let i = chain_pos(s.receiver_chains, m.sender_ratchet_key)->Some_0;
            &&& chain_pos(s2.receiver_chains, m.sender_ratchet_key) == chain_pos(
                s.receiver_chains,
                m.sender_ratchet_key,
            )
            &&& chain_synced(s2.receiver_chains[i], ck0, consumed.insert(c))
            &&& s2.session_version == s.session_version
            &&& s2.sender_chain == s.sender_chain
            &&& s2.remote_identity == s.remote_identity
            &&& s2.local_identity == s.local_identity
        }),
{
    reveal(spec_decrypt_with_state);
    let k = m.sender_ratchet_key;
    let i = chain_pos(s.receiver_chains, k)->Some_0;
    lemma_chain_pos(s.receiver_chains, k);
    let chain = s.receiver_chains[i];
    let ck = chain.chain_key;
    let keys = spec_advance(ck0, c as nat).spec_message_keys();
    lemma_advance_index(ck0, c as nat);
    assert(keys.counter == c);
    let ratcheted = spec_ratchet_chain(s, k);
    assert(ratcheted == (s, ck));
    let fetched = spec_fetch_message_keys(s, k, ck, c);
    let s2 = spec_decrypt_with_state(s, m).0;
    if ck.index > c as u64 {
        assert(skipped_pos(chain.skipped, c) is Some);
        lemma_skipped_pos(chain.skipped, c);
        let t = skipped_pos(chain.skipped, c)->Some_0;
        assert(chain.skipped[t] == spec_advance(ck0, c as nat).spec_message_keys());
        assert(fetched.1 == Ok::<MessageKeys, ErrorValue>(keys));

        // The cache after consuming the hit still tracks the sender chain.
        let new_chain = ReceiverChainValue { skipped: chain.skipped.remove(t), ..chain };
        assert(s2.receiver_chains[i] == new_chain);
        assert forall|t2: int| 0 <= t2 < new_chain.skipped.len() implies {
            &&& (#[trigger] new_chain.skipped[t2]) == spec_advance(
                ck0,
                new_chain.skipped[t2].counter as nat,
            ).spec_message_keys()
            &&& ((new_chain.skipped[t2].counter as u64) < new_chain.chain_key.index)
        } by {
            if t2 < t {
                assert(new_chain.skipped[t2] == chain.skipped[t2]);
            } else {
                assert(new_chain.skipped[t2] == chain.skipped[t2 + 1]);
            }
        }
        assert forall|j: u32| (j as u64) < new_chain.chain_key.index && !consumed.insert(
            c,
        ).contains(j) implies skipped_pos(new_chain.skipped, j) is Some by {
            lemma_skipped_pos(chain.skipped, j);
            let tj = skipped_pos(chain.skipped, j)->Some_0;
            assert(chain.skipped[tj].counter == j);
            assert(tj != t);
            lemma_skipped_pos(new_chain.skipped, j);
            if skipped_pos(new_chain.skipped, j) is None {
                if tj < t {
                    assert(new_chain.skipped[tj].counter == j);
                } else {
                    assert(new_chain.skipped[tj - 1] == chain.skipped[tj]);
                }
                assert(false);
            }
        }
        assert(chain_synced(new_chain, ck0, consumed.insert(c)));
    } else {
        let n = (c as u64 - ck.index) as nat;
        lemma_skip_loop_chain(chain.skipped, ck, n);
        lemma_advance_add(ck0, ck.index as nat, n);
        assert(spec_advance(ck, n) == spec_advance(ck0, c as nat));
        assert(fetched.1 == Ok::<MessageKeys, ErrorValue>(keys));

        // The derivation loop caches exactly the counters it stepped over,
        // without evicting anything: the cache stays within the bound.
        let stepped = spec_skip_loop(chain.skipped, ck, n);
        lemma_skip_loop_no_evict(chain.skipped, ck, n);
        let new_chain = ReceiverChainValue {
            chain_key: stepped.1.spec_next(),
            skipped: stepped.0,
            ..chain
        };
        assert(s2.receiver_chains[i] == new_chain);
        assert(spec_advance(ck0, (c + 1) as nat) == spec_advance(ck0, c as nat).spec_next());
        assert(new_chain.chain_key == spec_advance(ck0, (c + 1) as nat));
        lemma_advance_index(ck0, (c + 1) as nat);
        assert(new_chain.chain_key.index == c as u64 + 1);
        assert forall|t2: int| 0 <= t2 < new_chain.skipped.len() implies {
            &&& (#[trigger] new_chain.skipped[t2]) == spec_advance(
                ck0,
                new_chain.skipped[t2].counter as nat,
            ).spec_message_keys()
            &&& ((new_chain.skipped[t2].counter as u64) < new_chain.chain_key.index)
        } by {
            if t2 < n {
                let j = (ck.index + n - 1 - t2) as nat;
                lemma_advance_add(ck0, ck.index as nat, (n - 1 - t2) as nat);
                lemma_advance_index(ck0, j);
                assert(new_chain.skipped[t2] == spec_advance(ck, (n - 1 - t2) as nat).spec_message_keys());
                assert(new_chain.skipped[t2].counter as nat == j);
            } else {
                assert(new_chain.skipped[t2] == chain.skipped[t2 - n]);
            }
        }
        assert forall|j: u32| (j as u64) < new_chain.chain_key.index && !consumed.insert(
            c,
        ).contains(j) implies skipped_pos(new_chain.skipped, j) is Some by {
            lemma_skipped_pos(new_chain.skipped, j);
            if skipped_pos(new_chain.skipped, j) is None {
                if (j as u64) < ck.index {
                    lemma_skipped_pos(chain.skipped, j);
                    let tj = skipped_pos(chain.skipped, j)->Some_0;
                    assert(new_chain.skipped[tj + n] == chain.skipped[tj]);
                    assert(new_chain.skipped[tj + n].counter == j);
                } else {
                    let t2 = n - 1 - (j as u64 - ck.index) as int;
                    lemma_advance_add(ck0, ck.index as nat, (n - 1 - t2) as nat);
                    lemma_advance_index(ck0, (ck.index + n - 1 - t2) as nat);
                    assert(new_chain.skipped[t2] == spec_advance(ck, (n - 1 - t2) as nat).spec_message_keys());
                    assert(new_chain.skipped[t2].counter == j);
                }
                assert(false);
            }
        }
        assert(chain_synced(new_chain, ck0, consumed.insert(c)));
    }
    assert forall|j: int| 0 <= j < s2.receiver_chains.len() implies (
    #[trigger] s2.receiver_chains[j]).ratchet_key == s.receiver_chains[j].ratchet_key by {
        if j != i {
            assert(s2.receiver_chains[j] == s.receiver_chains[j]);
        }
    }
    lemma_chain_pos_same_keys(s2.receiver_chains, s.receiver_chains, k);
    lemma_cipher_roundtrip(p, keys.cipher_key, keys.iv);
    assert(crate::crypto::spec_apply_keystream(m.body, keys.cipher_key, keys.iv) =~= p);
}

/// Decrypt a sequence of envelopes in order against one state, threading the
/// mutations.
pub open spec fn spec_decrypt_sequence(s: StateValue, msgs: Seq<MessageValue>) -> (
    StateValue,
    Seq<Result<Seq<u8>, ErrorValue>>,
)
    decreases msgs.len(),
{
    if msgs.len() == 0 {
        (s, Seq::empty())
    } else {
        let first = spec_decrypt_with_state(s, msgs[0]);
        let rest = spec_decrypt_sequence(first.0, msgs.drop_first());
        (rest.0, seq![first.1] + rest.1)
    }
}

/// A decryption sequence yields one result per envelope.
pub proof fn lemma_decrypt_sequence_len(s: StateValue, msgs: Seq<MessageValue>)
    ensures
        spec_decrypt_sequence(s, msgs).1.len() == msgs.len(),
    decreases msgs.len(),
{
    if msgs.len() > 0 {
        lemma_decrypt_sequence_len(spec_decrypt_with_state(s, msgs[0]).0, msgs.drop_first());
    }
}

/// Permutation independence: a batch of genuine envelopes for distinct,
/// unconsumed counters within the forward-jump window decrypts, delivered in
/// any order, to exactly the plaintexts it was produced from.
pub proof fn lemma_any_order_decrypts(
    s: StateValue,
    msgs: Seq<MessageValue>,
    plaintexts: Seq<Seq<u8>>,
    ck0: ChainKey,
    consumed: Set<u32>,
    k: PublicKey,
)
    requires
        s.sender_chain is Some,
        s.remote_identity is Some,
        chain_pos(s.receiver_chains, k) matches Some(i) && chain_synced(
            s.receiver_chains[i],
            ck0,
            consumed,
        ),
        plaintexts.len() == msgs.len(),
        forall|t: int| 0 <= t < msgs.len() ==> {
            let m = #[trigger] msgs[t];
            &&& m.sender_ratchet_key == k
            &&& m.message_version as u32 == s.session_version
            &&& m.counter <= MAX_FORWARD_JUMPS
            &&& !consumed.contains(m.counter)
            &&& genuine_envelope(
                m,
                ck0,
                k,
                m.counter,
                plaintexts[t],
                s.remote_identity->Some_0,
                s.local_identity,
            )
        },
        forall|t1: int, t2: int| 0 <= t1 < t2 < msgs.len() ==> msgs[t1].counter
            != msgs[t2].counter,
    ensures
        forall|t: int| 0 <= t < msgs.len() ==> #[trigger] spec_decrypt_sequence(s, msgs).1[t]
            == Ok::<Seq<u8>, ErrorValue>(plaintexts[t]),
    decreases msgs.len(),
{
    if msgs.len() > 0 {
        let m0 = msgs[0];
        lemma_unconsumed_envelope_decrypts(s, m0, ck0, consumed, m0.counter, plaintexts[0]);
        let s1 = spec_decrypt_with_state(s, m0).0;
        let rest = msgs.drop_first();
        let rest_p = plaintexts.drop_first();
        assert forall|t: int| 0 <= t < rest.len() implies {
            let m = #[trigger] rest[t];
            &&& m.sender_ratchet_key == k
            &&& m.message_version as u32 == s1.session_version
            &&& m.counter <= MAX_FORWARD_JUMPS
            &&& !consumed.insert(m0.counter).contains(m.counter)
            &&& genuine_envelope(
                m,
                ck0,
                k,
                m.counter,
                rest_p[t],
                s1.remote_identity->Some_0,
                s1.local_identity,
            )
        } by {
            assert(rest[t] == msgs[t + 1]);
            assert(rest_p[t] == plaintexts[t + 1]);
            assert(msgs[t + 1].counter != m0.counter);
        }
        assert forall|t1: int, t2: int| 0 <= t1 < t2 < rest.len() implies rest[t1].counter
            != rest[t2].counter by {
            assert(rest[t1] == msgs[t1 + 1]);
            assert(rest[t2] == msgs[t2 + 1]);
        }
        lemma_any_order_decrypts(s1, rest, rest_p, ck0, consumed.insert(m0.counter), k);
        lemma_decrypt_sequence_len(s1, rest);
        assert(spec_decrypt_sequence(s, msgs).1 == seq![spec_decrypt_with_state(s, m0).1]
            + spec_decrypt_sequence(s1, rest).1);
        assert forall|t: int| 0 <= t < msgs.len() implies #[trigger] spec_decrypt_sequence(
            s,
            msgs,
        ).1[t] == Ok::<Seq<u8>, ErrorValue>(plaintexts[t]) by {
            if t == 0 {
                assert(spec_decrypt_sequence(s, msgs).1[0] == spec_decrypt_with_state(s, m0).1);
            } else {
                assert((seq![spec_decrypt_with_state(s, m0).1] + spec_decrypt_sequence(
                    s1,
                    rest,
                ).1)[t] == spec_decrypt_sequence(s1, rest).1[t - 1]);
                assert(rest_p[t - 1] == plaintexts[t]);
            }
        }
    }
}

/// An envelope whose counter lies beyond the receiver chain's index by more
/// than the forward-jump bound is rejected, and the state is unchanged but
/// for the ratchet step that looked the chain up.
pub proof fn lemma_too_far_rejected(s: StateValue, m: MessageValue)
    requires
        s.sender_chain is Some,
        m.message_version as u32 == s.session_version,
        ({
            let ratcheted = spec_ratchet_chain(s, m.sender_ratchet_key);
            m.counter as u64 > ratcheted.1.index + MAX_FORWARD_JUMPS as u64
        }),
    ensures
        spec_decrypt_with_state(s, m).1 == Err::<Seq<u8>, ErrorValue>(
            ErrorValue::InvalidMessage("message from too far into the future"@),
        ),
        spec_decrypt_with_state(s, m).0 == spec_ratchet_chain(s, m.sender_ratchet_key).0,
{
    reveal(spec_decrypt_with_state);
}

} // verus!
