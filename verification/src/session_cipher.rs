//! The session cipher: outbound encryption, inbound decryption, the
//! Diffie-Hellman ratchet step, and skipped-key bookkeeping.
//!
//! Each executable function mirrors a pure model function over abstract state
//! values; the contracts equate the two, so every caller reasons about the
//! model alone.
use vstd::prelude::*;
use crate::address::AddressValue;
use crate::address::ProtocolAddress;
use crate::crypto::apply_keystream;
use crate::curve::IdentityKey;
use crate::curve::IdentityKeyPair;
use crate::curve::PrivateKey;
use crate::protocol::CiphertextMessage;
use crate::protocol::CiphertextValue;
use crate::protocol::PreKeyMessageValue;
use crate::protocol::PreKeySignalMessage;
use crate::session::process_prekey;
use crate::session::spec_process_prekey;
use crate::session::spec_promoted;
use crate::session::PreKeyOutcome;
use crate::state::SenderChain;
use crate::storage::Direction;
use crate::storage::IdentityKeyStore;
use crate::storage::PreKeyStore;
use crate::storage::SessionStore;
use crate::storage::SignedPreKeyStore;
use crate::crypto::spec_apply_keystream;
use crate::curve::spec_agree;
use crate::curve::PublicKey;
use crate::errors::ErrorValue;
use crate::errors::SignalProtocolError;
use crate::protocol::spec_envelope_mac;
use crate::protocol::MessageValue;
use crate::protocol::SignalMessage;
use crate::ratchet::ChainKey;
use crate::ratchet::MessageKeys;
use crate::state::chain_pos;
use crate::state::lemma_chain_pos;
use crate::state::skipped_pos;
use crate::state::spec_add_chain;
use crate::state::spec_push_skipped;
use crate::state::ReceiverChainValue;
use crate::state::RecordValue;
use crate::state::SessionRecord;
use crate::state::SessionState;
use crate::state::StateValue;
use crate::MAX_FORWARD_JUMPS;

verus! {

/// Model of the receiver half of the DH ratchet: the state after looking up
/// or creating the chain for `k`, and that chain's key.
pub open spec fn spec_ratchet_chain(s: StateValue, k: PublicKey) -> (StateValue, ChainKey) {
    match chain_pos(s.receiver_chains, k) {
        Some(i) => (s, s.receiver_chains[i].chain_key),
        None => {
            let secret = spec_agree(k, s.sender_chain->Some_0.ratchet_private);
            let rc = s.root_key.spec_create_chain(secret);
            (
                StateValue {
                    root_key: rc.0,
                    receiver_chains: spec_add_chain(s.receiver_chains, k, rc.1),
                    ..s
                },
                rc.1,
            )
        },
    }
}

/// Model of the skipped-key derivation loop: starting from cache `skipped`
/// and chain key `ck`, derive and store `n` message keys.
pub open spec fn spec_skip_loop(skipped: Seq<MessageKeys>, ck: ChainKey, n: nat) -> (
    Seq<MessageKeys>,
    ChainKey,
)
    decreases n,
{
    if n == 0 {
        (skipped, ck)
    } else {
        spec_skip_loop(
            spec_push_skipped(skipped, ck.spec_message_keys()),
            ck.spec_next(),
            (n - 1) as nat,
        )
    }
}

/// Model of message-key retrieval for the chain keyed by `k` (which must be
/// at position `chain_pos`), whose current chain key is `ck`.
pub open spec fn spec_fetch_message_keys(
    s: StateValue,
    k: PublicKey,
    ck: ChainKey,
    counter: u32,
) -> (StateValue, Result<MessageKeys, ErrorValue>) {
    let i = chain_pos(s.receiver_chains, k)->Some_0;
    let chain = s.receiver_chains[i];
    if ck.index > counter as u64 {
        match skipped_pos(chain.skipped, counter) {
            Some(j) => (
                s.with_chains(
                    s.receiver_chains.update(
                        i,
                        ReceiverChainValue { skipped: chain.skipped.remove(j), ..chain },
                    ),
                ),
                Ok(chain.skipped[j]),
            ),
            None => (s, Err(ErrorValue::DuplicatedMessage(ck.index, counter))),
        }
    } else if counter as u64 - ck.index > MAX_FORWARD_JUMPS as u64 {
        (s, Err(ErrorValue::InvalidMessage("message from too far into the future"@)))
    } else {
        let stepped = spec_skip_loop(chain.skipped, ck, (counter as u64 - ck.index) as nat);
        (
            s.with_chains(
                s.receiver_chains.update(
                    i,
                    ReceiverChainValue {
                        chain_key: stepped.1.spec_next(),
                        skipped: stepped.0,
                        ..chain
                    },
                ),
            ),
            Ok(stepped.1.spec_message_keys()),
        )
    }
}

/// On first sight of a new peer ratchet key, rotate the root key and install
/// a receiver chain for it; otherwise return the existing chain key.
pub fn get_or_create_chain_key(state: &mut SessionState, their_ephemeral: &PublicKey) -> (r:
    ChainKey)
    requires
        old(state)@.sender_chain is Some,
    ensures
        final(state)@ == spec_ratchet_chain(old(state)@, *their_ephemeral).0,
        r == spec_ratchet_chain(old(state)@, *their_ephemeral).1,
        chain_pos(final(state)@.receiver_chains, *their_ephemeral) is Some,
        final(state)@.receiver_chains[chain_pos(
            final(state)@.receiver_chains,
            *their_ephemeral,
        )->Some_0].chain_key == r,
        final(state)@.sender_chain == old(state)@.sender_chain,
        final(state)@.session_version == old(state)@.session_version,
    {
    match state.find_receiver_chain(their_ephemeral) {
        Some(i) => {
            let r = state.receiver_chains[i].chain_key;
            proof {
                lemma_chain_pos(state@.receiver_chains, *their_ephemeral);
            }
            r
        },
        None => {
            let our_private = state.sender_chain.unwrap().ratchet_private;
            let created = state.root_key.create_chain(their_ephemeral, &our_private);
            state.root_key = created.0;
            state.add_receiver_chain(*their_ephemeral, created.1);
            proof {
                let s2 = spec_ratchet_chain(old(state)@, *their_ephemeral).0;
                assert(state@ =~= s2);
                assert(state@.receiver_chains[0].ratchet_key == *their_ephemeral);
                assert(chain_pos(state@.receiver_chains, *their_ephemeral) == Some(0int));
            }
            created.1
        },
    }
}

/// Retrieve the message keys for `counter` on the chain keyed by
/// `their_ephemeral`: from the skipped-key cache when the counter is in the
/// past, directly or by a bounded jump ahead otherwise.
pub fn get_or_create_message_key(
    state: &mut SessionState,
    their_ephemeral: &PublicKey,
    chain_key: &ChainKey,
    counter: u32,
) -> (r: Result<MessageKeys, SignalProtocolError>)
    requires
        chain_pos(old(state)@.receiver_chains, *their_ephemeral) is Some,
        old(state)@.receiver_chains[chain_pos(
            old(state)@.receiver_chains,
            *their_ephemeral,
        )->Some_0].chain_key == *chain_key,
    ensures
        final(state)@ == spec_fetch_message_keys(old(state)@, *their_ephemeral, *chain_key, counter).0,
        (match r {
            Ok(mk) => spec_fetch_message_keys(old(state)@, *their_ephemeral, *chain_key, counter).1
                == Ok::<MessageKeys, ErrorValue>(mk),
            Err(e) => spec_fetch_message_keys(old(state)@, *their_ephemeral, *chain_key, counter).1
                == Err::<MessageKeys, ErrorValue>(e@),
        }),
{
    let ghost s0 = state@;
    let ghost pos = chain_pos(s0.receiver_chains, *their_ephemeral)->Some_0;
    let i = match state.find_receiver_chain(their_ephemeral) {
        Some(i) => i,
        None => {
            proof {
                assert(false);
            }
            0
        },
    };
    let chain_index = chain_key.index;
    if chain_index > counter as u64 {
        match state.take_skipped(i, counter) {
            Some(keys) => Ok(keys),
            None => Err(SignalProtocolError::DuplicatedMessage(chain_index, counter)),
        }
    } else {
        let jump = counter as u64 - chain_index;
        if jump > MAX_FORWARD_JUMPS as u64 {
            return Err(SignalProtocolError::InvalidMessage(
                "message from too far into the future",
            ));
        }
        let mut ck = *chain_key;
        let ghost stepped = spec_skip_loop(
            s0.receiver_chains[pos].skipped,
            *chain_key,
            (counter as u64 - chain_key.index) as nat,
        );
        while ck.index < counter as u64
            invariant
                i as int == pos,
                0 <= pos < state@.receiver_chains.len(),
                state@.receiver_chains.len() == s0.receiver_chains.len(),
                ck.index <= counter as u64,
                state@ == s0.with_chains(
                    s0.receiver_chains.update(
                        pos,
                        ReceiverChainValue {
                            skipped: state@.receiver_chains[pos].skipped,
                            ..s0.receiver_chains[pos]
                        },
                    ),
                ),
                spec_skip_loop(
                    state@.receiver_chains[pos].skipped,
                    ck,
                    (counter as u64 - ck.index) as nat,
                ) == stepped,
            decreases counter as u64 - ck.index,
        {
            let keys = ck.message_keys();
            state.push_skipped(i, keys);
            ck = ck.next_chain_key();
            proof {
                assert(state@ =~= s0.with_chains(
                    s0.receiver_chains.update(
                        pos,
                        ReceiverChainValue {
                            skipped: state@.receiver_chains[pos].skipped,
                            ..s0.receiver_chains[pos]
                        },
                    ),
                ));
            }
        }
        let next = ck.next_chain_key();
        state.set_chain_key(i, next);
        proof {
            assert(state@ =~= spec_fetch_message_keys(s0, *their_ephemeral, *chain_key, counter).0);
        }
        Ok(ck.message_keys())
    }
}

/// Model of decrypting one envelope against one session state. Opaque:
/// callers reason through [`decrypt_message_with_state`]'s contract and
/// reveal the definition only where a proof unfolds one decryption.
#[verifier::opaque]
pub open spec fn spec_decrypt_with_state(s: StateValue, m: MessageValue) -> (
    StateValue,
    Result<Seq<u8>, ErrorValue>,
) {
    if s.sender_chain is None {
        (s, Err(ErrorValue::InvalidMessage("No session available to decrypt"@)))
    } else if m.message_version as u32 != s.session_version {
        (s, Err(ErrorValue::UnrecognizedMessageVersion(m.message_version as u32)))
    } else {
        let ratcheted = spec_ratchet_chain(s, m.sender_ratchet_key);
        let fetched = spec_fetch_message_keys(
            ratcheted.0,
            m.sender_ratchet_key,
            ratcheted.1,
            m.counter,
        );
        match fetched.1 {
            Err(e) => (fetched.0, Err(e)),
            Ok(keys) => match fetched.0.remote_identity {
                None => (fetched.0, Err(ErrorValue::InvalidSessionStructure)),
                Some(their_identity) => if m.mac != spec_envelope_mac(
                    their_identity,
                    fetched.0.local_identity,
                    keys.mac_key,
                    m,
                ) {
                    (fetched.0, Err(ErrorValue::InvalidCiphertext))
                } else {
                    (
                        StateValue { pending_pre_key: None, ..fetched.0 },
                        Ok(spec_apply_keystream(m.body, keys.cipher_key, keys.iv)),
                    )
                },
            },
        }
    }
}

/// Decrypt one envelope against one session state: check the version, obtain
/// the receiver chain and the message keys, verify the MAC, decrypt, and
/// clear any pending prekey handshake.
pub fn decrypt_message_with_state(state: &mut SessionState, ciphertext: &SignalMessage) -> (r:
    Result<Vec<u8>, SignalProtocolError>)
    ensures
        final(state)@ == spec_decrypt_with_state(old(state)@, ciphertext@).0,
        (match r {
            Ok(p) => spec_decrypt_with_state(old(state)@, ciphertext@).1 == Ok::<
                Seq<u8>,
                ErrorValue,
            >(p@),
            Err(e) => spec_decrypt_with_state(old(state)@, ciphertext@).1 == Err::<
                Seq<u8>,
                ErrorValue,
            >(e@),
        }),
{
    proof {
        reveal(spec_decrypt_with_state);
    }
    if !state.has_sender_chain() {
        return Err(SignalProtocolError::InvalidMessage("No session available to decrypt"));
    }
    if ciphertext.message_version as u32 != state.session_version {
        return Err(SignalProtocolError::UnrecognizedMessageVersion(
            ciphertext.message_version as u32,
        ));
    }
    let their_ephemeral = ciphertext.sender_ratchet_key;
    let chain_key = get_or_create_chain_key(state, &their_ephemeral);
    let message_keys = match get_or_create_message_key(
        state,
        &their_ephemeral,
        &chain_key,
        ciphertext.counter,
    ) {
        Ok(keys) => keys,
        Err(e) => {
            return Err(e);
        },
    };
    let their_identity = match state.remote_identity {
        Some(identity) => identity,
        None => {
            return Err(SignalProtocolError::InvalidSessionStructure);
        },
    };
    if !ciphertext.verify_mac(&their_identity, &state.local_identity, message_keys.mac_key) {
        return Err(SignalProtocolError::InvalidCiphertext);
    }
    let ptext = apply_keystream(ciphertext.body.as_slice(), message_keys.cipher_key, message_keys.iv);
    state.pending_pre_key = None;
    proof {
        assert(state@ =~= spec_decrypt_with_state(old(state)@, ciphertext@).0);
    }
    Ok(ptext)
}

/// Outcome of scanning the archived states for one that decrypts an envelope.
#[verifier::ext_equal]
pub ghost enum ArchivedOutcome {
    /// The state at this index decrypted the envelope; its mutated value and
    /// the plaintext.
    Found(int, StateValue, Seq<u8>),
    /// A state classified the envelope as a duplicate; scanning stops.
    Duplicate(u64, u32),
    NotFound,
}

/// Model of trying the archived states in stored order.
pub open spec fn spec_try_archived(previous: Seq<StateValue>, m: MessageValue) -> ArchivedOutcome
    decreases previous.len(),
{
    if previous.len() == 0 {
        ArchivedOutcome::NotFound
    } else {
        let tried = spec_decrypt_with_state(previous[0], m);
        match tried.1 {
            Ok(p) => ArchivedOutcome::Found(0, tried.0, p),
            Err(ErrorValue::DuplicatedMessage(ci, co)) => ArchivedOutcome::Duplicate(ci, co),
            Err(_) => match spec_try_archived(previous.drop_first(), m) {
                ArchivedOutcome::Found(i, s, p) => ArchivedOutcome::Found(i + 1, s, p),
                outcome => outcome,
            },
        }
    }
}

/// Model of the archived-state fallback at the record level.
pub open spec fn spec_record_fallback(r: RecordValue, m: MessageValue) -> (
    RecordValue,
    Result<Seq<u8>, ErrorValue>,
) {
    match spec_try_archived(r.previous, m) {
        ArchivedOutcome::Found(i, s, p) => (r.promote(i, s), Ok(p)),
        ArchivedOutcome::Duplicate(ci, co) => (r, Err(ErrorValue::DuplicatedMessage(ci, co))),
        ArchivedOutcome::NotFound => (r, Err(ErrorValue::InvalidMessage(
            "message decryption failed"@,
        ))),
    }
}

/// Model of decrypting one envelope against a whole record: the current state
/// first, then the archive; a duplicate classification anywhere returns
/// immediately with the record unchanged.
pub open spec fn spec_decrypt_with_record(r: RecordValue, m: MessageValue) -> (
    RecordValue,
    Result<Seq<u8>, ErrorValue>,
) {
    match r.current {
        Some(current) => {
            let tried = spec_decrypt_with_state(current, m);
            match tried.1 {
                Ok(p) => (RecordValue { current: Some(tried.0), ..r }, Ok(p)),
                Err(ErrorValue::DuplicatedMessage(ci, co)) => (r, Err(
                    ErrorValue::DuplicatedMessage(ci, co),
                )),
                Err(_) => spec_record_fallback(r, m),
            }
        },
        None => spec_record_fallback(r, m),
    }
}

/// One archived state failing with a non-duplicate error shifts the scan to
/// the rest of the archive.
proof fn lemma_try_archived_step(previous: Seq<StateValue>, m: MessageValue, k: int)
    requires
        0 <= k <= previous.len(),
        forall|j: int| 0 <= j < k ==> {
            let res = #[trigger] spec_decrypt_with_state(previous[j], m).1;
            res is Err && !(res->Err_0 is DuplicatedMessage)
        },
    ensures
        spec_try_archived(previous, m) == (match spec_try_archived(previous.skip(k), m) {
            ArchivedOutcome::Found(i, s, p) => ArchivedOutcome::Found(i + k, s, p),
            outcome => outcome,
        }),
    decreases k,
{
    if k == 0 {
        assert(previous.skip(0) =~= previous);
    } else {
        lemma_try_archived_step(previous, m, k - 1);
        let rest = previous.skip(k - 1);
        assert(rest.len() > 0);
        assert(rest[0] == previous[k - 1]);
        assert(rest.drop_first() =~= previous.skip(k));
        assert(spec_decrypt_with_state(previous[k - 1], m).1 is Err);
    }
}

/// Decrypt an envelope against the record: try the current state, then each
/// archived state in order, promoting a successful archived state to current;
/// return a duplicate classification immediately with the record unchanged.
#[verifier::rlimit(100)]
pub fn decrypt_message_with_record(record: &mut SessionRecord, ciphertext: &SignalMessage) -> (r:
    Result<Vec<u8>, SignalProtocolError>)
    ensures
        final(record)@ == spec_decrypt_with_record(old(record)@, ciphertext@).0,
        (match r {
            Ok(p) => spec_decrypt_with_record(old(record)@, ciphertext@).1 == Ok::<
                Seq<u8>,
                ErrorValue,
            >(p@),
            Err(e) => spec_decrypt_with_record(old(record)@, ciphertext@).1 == Err::<
                Seq<u8>,
                ErrorValue,
            >(e@),
        }),
{
    let ghost r0 = record@;
    let current_copy: Option<SessionState> = match &record.current {
        Some(current) => Some(current.clone()),
        None => None,
    };
    if let Some(mut current) = current_copy {
        let ghost cur0 = current@;
        proof {
            assert(r0.current == Some(cur0));
        }
        match decrypt_message_with_state(&mut current, ciphertext) {
            Ok(ptext) => {
                proof {
                    assert(spec_decrypt_with_state(cur0, ciphertext@).1 == Ok::<Seq<u8>, ErrorValue>(
                        ptext@,
                    ));
                }
                record.set_session_state(current);
                proof {
                    assert(record@ =~= spec_decrypt_with_record(r0, ciphertext@).0);
                }
                return Ok(ptext);
            },
            Err(e) => {
                match e {
                    SignalProtocolError::DuplicatedMessage(ci, co) => {
                        proof {
                            assert(spec_decrypt_with_state(cur0, ciphertext@).1 == Err::<
                                Seq<u8>,
                                ErrorValue,
                            >(ErrorValue::DuplicatedMessage(ci, co)));
                        }
                        return Err(SignalProtocolError::DuplicatedMessage(ci, co));
                    },
                    other => {
                        proof {
                            let res = spec_decrypt_with_state(cur0, ciphertext@).1;
                            assert(res == Err::<Seq<u8>, ErrorValue>(other@));
                            assert(res is Err && !(res->Err_0 is DuplicatedMessage));
                        }
                    },
                }
            },
        }
    }
    proof {
        assert(spec_decrypt_with_record(r0, ciphertext@) == spec_record_fallback(r0, ciphertext@));
    }
    let mut idx: usize = 0;
    let mut found: Option<(Vec<u8>, SessionState)> = None;
    while idx < record.previous.len() && found.is_none()
        invariant
            idx <= record.previous@.len(),
            r0 == old(record)@,
            record@ == r0,
            spec_decrypt_with_record(r0, ciphertext@) == spec_record_fallback(r0, ciphertext@),
            (match found {
                None => forall|j: int| 0 <= j < idx ==> {
                    let res = #[trigger] spec_decrypt_with_state(r0.previous[j], ciphertext@).1;
                    res is Err && !(res->Err_0 is DuplicatedMessage)
                },
                Some(hit) => idx < r0.previous.len() && spec_try_archived(r0.previous, ciphertext@)
                    == ArchivedOutcome::Found(idx as int, hit.1@, hit.0@),
            }),
        decreases record.previous@.len() - idx + (if found is None { 1int } else { 0int }),
    {
        let mut candidate = record.previous[idx].clone();
        let ghost cand0 = candidate@;
        proof {
            assert(cand0 == r0.previous[idx as int]);
        }
        match decrypt_message_with_state(&mut candidate, ciphertext) {
            Ok(ptext) => {
                proof {
                    lemma_try_archived_step(r0.previous, ciphertext@, idx as int);
                    assert(r0.previous.skip(idx as int)[0] == r0.previous[idx as int]);
                    assert(spec_try_archived(r0.previous.skip(idx as int), ciphertext@)
                        == ArchivedOutcome::Found(0, candidate@, ptext@));
                }
                found = Some((ptext, candidate));
            },
            Err(e) => {
                match e {
                    SignalProtocolError::DuplicatedMessage(ci, co) => {
                        proof {
                            lemma_try_archived_step(r0.previous, ciphertext@, idx as int);
                            assert(r0.previous.skip(idx as int)[0] == r0.previous[idx as int]);
                            assert(spec_decrypt_with_state(cand0, ciphertext@).1 == Err::<
                                Seq<u8>,
                                ErrorValue,
                            >(ErrorValue::DuplicatedMessage(ci, co)));
                            assert(spec_try_archived(r0.previous.skip(idx as int), ciphertext@)
                                == ArchivedOutcome::Duplicate(ci, co));
                            assert(spec_try_archived(r0.previous, ciphertext@)
                                == ArchivedOutcome::Duplicate(ci, co));
                        }
                        return Err(SignalProtocolError::DuplicatedMessage(ci, co));
                    },
                    other => {
                        proof {
                            let res = spec_decrypt_with_state(cand0, ciphertext@).1;
                            assert(res == Err::<Seq<u8>, ErrorValue>(other@));
                            assert(res is Err && !(res->Err_0 is DuplicatedMessage));
                        }
                        idx = idx + 1;
                    },
                }
            },
        }
    }
    match found {
        Some((ptext, updated)) => {
            record.promote_old_session(idx, updated);
            proof {
                assert(record@ == spec_decrypt_with_record(r0, ciphertext@).0);
            }
            Ok(ptext)
        },
        None => {
            proof {
                lemma_try_archived_step(r0.previous, ciphertext@, idx as int);
                assert(r0.previous.skip(r0.previous.len() as int) =~= Seq::<StateValue>::empty());
                assert(spec_try_archived(r0.previous, ciphertext@) == ArchivedOutcome::NotFound);
            }
            Err(SignalProtocolError::InvalidMessage("message decryption failed"))
        },
    }
}

/// What a successful encryption produces: the advanced record, the envelope,
/// and the remote identity the trust check and the stores see.
#[verifier::ext_equal]
pub ghost struct EncryptSuccess {
    pub new_record: RecordValue,
    pub their_identity: IdentityKey,
    pub message: CiphertextValue,
}

/// Model of encryption against a loaded record: derive the message keys at
/// the sender chain's counter, encrypt, build the envelope (a prekey envelope
/// while the handshake is unacknowledged), and advance the sender chain.
pub open spec fn spec_encrypt(r: RecordValue, ptext: Seq<u8>) -> Result<
    EncryptSuccess,
    ErrorValue,
> {
    match r.current {
        None => Err(ErrorValue::InvalidSessionStructure),
        Some(s) => match s.sender_chain {
            None => Err(ErrorValue::InvalidSessionStructure),
            Some(chain) => match s.remote_identity {
                None => Err(ErrorValue::InvalidSessionStructure),
                Some(their_identity) => if chain.chain_key.index > u32::MAX as u64 {
                    Err(ErrorValue::InvalidSessionStructure)
                } else {
                    let keys = chain.chain_key.spec_message_keys();
                    let bare = MessageValue {
                        message_version: s.session_version as u8,
                        sender_ratchet_key: chain.ratchet_public,
                        counter: chain.chain_key.index as u32,
                        previous_counter: s.previous_counter,
                        body: spec_apply_keystream(ptext, keys.cipher_key, keys.iv),
                        mac: 0,
                    };
                    let msg = MessageValue {
                        mac: spec_envelope_mac(s.local_identity, their_identity, keys.mac_key, bare),
                        ..bare
                    };
                    let envelope = match s.pending_pre_key {
                        Some(items) => CiphertextValue::PreKeySignalMessage(
                            PreKeyMessageValue {
                                message_version: s.session_version as u8,
                                registration_id: s.local_registration_id,
                                pre_key_id: items.pre_key_id,
                                signed_pre_key_id: items.signed_pre_key_id,
                                base_key: items.base_key,
                                identity_key: s.local_identity,
                                message: msg,
                            },
                        ),
                        None => CiphertextValue::SignalMessage(msg),
                    };
                    let advanced = StateValue {
                        sender_chain: Some(
                            SenderChain { chain_key: chain.chain_key.spec_next(), ..chain },
                        ),
                        ..s
                    };
                    Ok(
                        EncryptSuccess {
                            new_record: RecordValue { current: Some(advanced), ..r },
                            their_identity,
                            message: envelope,
                        },
                    )
                },
            },
        },
    }
}

/// Encrypt `ptext` for `remote_address`: load the session, encrypt under the
/// sender chain's message keys, advance the chain, then (after all the
/// cryptographic work, preserving the historical order) consult the trust
/// gate and persist the identity and the advanced session. A denied trust
/// check aborts with nothing persisted.
pub fn message_encrypt<S: SessionStore, I: IdentityKeyStore>(
    ptext: &[u8],
    remote_address: &ProtocolAddress,
    session_store: &mut S,
    identity_store: &mut I,
) -> (r: Result<CiphertextMessage, SignalProtocolError>)
    ensures
        !old(session_store).sessions().contains_key(remote_address@) ==> {
            &&& r matches Err(e) && e@ == ErrorValue::SessionNotFound
            &&& *final(session_store) == *old(session_store)
            &&& *final(identity_store) == *old(identity_store)
        },
        old(session_store).sessions().contains_key(remote_address@) ==> (match spec_encrypt(
            old(session_store).sessions()[remote_address@],
            ptext@,
        ) {
            Err(ev) => {
                &&& r matches Err(e) && e@ == ev
                &&& *final(session_store) == *old(session_store)
                &&& *final(identity_store) == *old(identity_store)
            },
            Ok(success) => if !old(identity_store).trusts(
                remote_address@,
                success.their_identity,
                Direction::Sending,
            ) {
                &&& r matches Err(e) && e@ == ErrorValue::UntrustedIdentity(remote_address@)
                &&& *final(session_store) == *old(session_store)
                &&& *final(identity_store) == *old(identity_store)
            } else {
                &&& r matches Ok(envelope) && envelope@ == success.message
                &&& final(session_store).sessions() == old(session_store).sessions().insert(
                    remote_address@,
                    success.new_record,
                )
                &&& final(identity_store).identities() == old(identity_store).identities().insert(
                    remote_address@,
                    success.their_identity,
                )
                &&& final(identity_store).local_identity() == old(identity_store).local_identity()
                &&& final(identity_store).local_registration_id() == old(
                    identity_store,
                ).local_registration_id()
            },
        }),
{
    let record = match session_store.load_session(remote_address) {
        Some(record) => record,
        None => {
            return Err(SignalProtocolError::SessionNotFound);
        },
    };
    let mut state = match record.current {
        Some(state) => state,
        None => {
            return Err(SignalProtocolError::InvalidSessionStructure);
        },
    };
    let chain = match state.sender_chain {
        Some(chain) => chain,
        None => {
            return Err(SignalProtocolError::InvalidSessionStructure);
        },
    };
    let their_identity = match state.remote_identity {
        Some(identity) => identity,
        None => {
            return Err(SignalProtocolError::InvalidSessionStructure);
        },
    };
    if chain.chain_key.index > u32::MAX as u64 {
        return Err(SignalProtocolError::InvalidSessionStructure);
    }
    let keys = chain.chain_key.message_keys();
    let body = apply_keystream(ptext, keys.cipher_key, keys.iv);
    let message = crate::protocol::SignalMessage::new(
        state.session_version as u8,
        keys.mac_key,
        chain.ratchet_public,
        chain.chain_key.index as u32,
        state.previous_counter,
        body,
        &state.local_identity,
        &their_identity,
    );
    let envelope = match state.pending_pre_key {
        Some(items) => CiphertextMessage::PreKeySignalMessage(
            PreKeySignalMessage {
                message_version: state.session_version as u8,
                registration_id: state.local_registration_id,
                pre_key_id: items.pre_key_id,
                signed_pre_key_id: items.signed_pre_key_id,
                base_key: items.base_key,
                identity_key: state.local_identity,
                message,
            },
        ),
        None => CiphertextMessage::SignalMessage(message),
    };
    state.sender_chain = Some(
        SenderChain {
            ratchet_public: chain.ratchet_public,
            ratchet_private: chain.ratchet_private,
            chain_key: chain.chain_key.next_chain_key(),
        },
    );
    if !identity_store.is_trusted_identity(remote_address, &their_identity, Direction::Sending) {
        return Err(SignalProtocolError::UntrustedIdentity(remote_address.clone()));
    }
    let _replaced = identity_store.save_identity(remote_address, &their_identity);
    let updated = SessionRecord { current: Some(state), previous: record.previous };
    session_store.store_session(remote_address, &updated);
    proof {
        let success = spec_encrypt(
            old(session_store).sessions()[remote_address@],
            ptext@,
        )->Ok_0;
        assert(updated@ =~= success.new_record);
        assert(envelope@ =~= success.message);
    }
    Ok(envelope)
}

/// The condition [`message_decrypt_signal`] ensures, over the stores'
/// contents before and after: a successful decryption is persisted before the
/// trust gate runs, so even a denied identity leaves the advanced session on
/// disk.
pub open spec fn spec_decrypt_signal_post(
    a: AddressValue,
    m: MessageValue,
    sessions0: Map<AddressValue, RecordValue>,
    identities0: Map<AddressValue, IdentityKey>,
    trust: spec_fn(IdentityKey) -> bool,
    sessions1: Map<AddressValue, RecordValue>,
    identities1: Map<AddressValue, IdentityKey>,
    r: Result<Seq<u8>, ErrorValue>,
) -> bool {
    if !sessions0.contains_key(a) {
        &&& r == Err::<Seq<u8>, ErrorValue>(ErrorValue::SessionNotFound)
        &&& sessions1 == sessions0
        &&& identities1 == identities0
    } else {
        let decrypted = spec_decrypt_with_record(sessions0[a], m);
        match decrypted.1 {
            Err(e) => {
                &&& r == Err::<Seq<u8>, ErrorValue>(e)
                &&& sessions1 == sessions0
                &&& identities1 == identities0
            },
            Ok(p) => {
                &&& sessions1 == sessions0.insert(a, decrypted.0)
                &&& match decrypted.0.current {
                    None => r == Err::<Seq<u8>, ErrorValue>(ErrorValue::InvalidSessionStructure)
                        && identities1 == identities0,
                    Some(s2) => match s2.remote_identity {
                        None => r == Err::<Seq<u8>, ErrorValue>(
                            ErrorValue::InvalidSessionStructure,
                        ) && identities1 == identities0,
                        Some(their_identity) => if !trust(their_identity) {
                            r == Err::<Seq<u8>, ErrorValue>(ErrorValue::UntrustedIdentity(a))
                                && identities1 == identities0
                        } else {
                            r == Ok::<Seq<u8>, ErrorValue>(p) && identities1 == identities0.insert(
                                a,
                                their_identity,
                            )
                        },
                    },
                }
            },
        }
    }
}

/// Decrypt an established-session envelope: load the record, decrypt against
/// it, persist the mutated record, then run the receiving-direction trust
/// gate and record the identity. The store order (persist before trust) is
/// deliberate and preserved.
pub fn message_decrypt_signal<S: SessionStore, I: IdentityKeyStore, R: rand::Rng + rand::CryptoRng>(
    ciphertext: &SignalMessage,
    remote_address: &ProtocolAddress,
    session_store: &mut S,
    identity_store: &mut I,
    _csprng: &mut R,
) -> (r: Result<Vec<u8>, SignalProtocolError>)
    ensures
        spec_decrypt_signal_post(
            remote_address@,
            ciphertext@,
            old(session_store).sessions(),
            old(identity_store).identities(),
            (|k: IdentityKey| old(identity_store).trusts(remote_address@, k, Direction::Receiving)),
            final(session_store).sessions(),
            final(identity_store).identities(),
            crate::errors::result_value(r),
        ),
        final(identity_store).local_identity() == old(identity_store).local_identity(),
        final(identity_store).local_registration_id() == old(identity_store).local_registration_id(),
{
    let mut record = match session_store.load_session(remote_address) {
        Some(record) => record,
        None => {
            return Err(SignalProtocolError::SessionNotFound);
        },
    };
    let ptext = match decrypt_message_with_record(&mut record, ciphertext) {
        Ok(ptext) => ptext,
        Err(e) => {
            return Err(e);
        },
    };
    session_store.store_session(remote_address, &record);
    let their_identity = match &record.current {
        Some(state) => match state.remote_identity {
            Some(identity) => identity,
            None => {
                return Err(SignalProtocolError::InvalidSessionStructure);
            },
        },
        None => {
            return Err(SignalProtocolError::InvalidSessionStructure);
        },
    };
    if !identity_store.is_trusted_identity(remote_address, &their_identity, Direction::Receiving) {
        return Err(SignalProtocolError::UntrustedIdentity(remote_address.clone()));
    }
    let _replaced = identity_store.save_identity(remote_address, &their_identity);
    Ok(ptext)
}

/// The condition [`message_decrypt_prekey`] ensures: the bootstrap outcome
/// decides everything, and the consumed one-time prekey is removed last, only
/// after a successful decryption was persisted.
pub open spec fn spec_decrypt_prekey_post(
    a: AddressValue,
    m: PreKeyMessageValue,
    trusted: bool,
    local: IdentityKeyPair,
    registration_id: u32,
    signed_key: Option<PrivateKey>,
    one_time: Option<PrivateKey>,
    sessions0: Map<AddressValue, RecordValue>,
    identities0: Map<AddressValue, IdentityKey>,
    pre_keys0: Map<u32, PrivateKey>,
    sessions1: Map<AddressValue, RecordValue>,
    identities1: Map<AddressValue, IdentityKey>,
    pre_keys1: Map<u32, PrivateKey>,
    r: Result<Seq<u8>, ErrorValue>,
) -> bool {
    let record0 = if sessions0.contains_key(a) {
        sessions0[a]
    } else {
        RecordValue { current: None, previous: Seq::empty() }
    };
    match spec_process_prekey(record0, m, trusted, local, registration_id, signed_key, one_time) {
        PreKeyOutcome::Untrusted => {
            &&& r == Err::<Seq<u8>, ErrorValue>(ErrorValue::UntrustedIdentity(a))
            &&& sessions1 == sessions0
            &&& identities1 == identities0
            &&& pre_keys1 == pre_keys0
        },
        PreKeyOutcome::MissingSignedPreKey => {
            &&& r == Err::<Seq<u8>, ErrorValue>(ErrorValue::InvalidMessage(
                "unknown signed prekey id"@,
            ))
            &&& sessions1 == sessions0
            &&& identities1 == identities0
            &&& pre_keys1 == pre_keys0
        },
        PreKeyOutcome::MissingOneTimePreKey => {
            &&& r == Err::<Seq<u8>, ErrorValue>(ErrorValue::InvalidMessage(
                "unknown one-time prekey id"@,
            ))
            &&& sessions1 == sessions0
            &&& identities1 == identities0
            &&& pre_keys1 == pre_keys0
        },
        PreKeyOutcome::AlreadyProcessed => {
            let decrypted = spec_decrypt_with_record(record0, m.message);
            &&& identities1 == identities0
            &&& match decrypted.1 {
                Err(e) => {
                    &&& r == Err::<Seq<u8>, ErrorValue>(e)
                    &&& sessions1 == sessions0
                    &&& pre_keys1 == pre_keys0
                },
                Ok(p) => {
                    &&& r == Ok::<Seq<u8>, ErrorValue>(p)
                    &&& sessions1 == sessions0.insert(a, decrypted.0)
                    &&& pre_keys1 == pre_keys0
                },
            }
        },
        PreKeyOutcome::Created(state, pre_key_id) => {
            let decrypted = spec_decrypt_with_record(spec_promoted(record0, state), m.message);
            &&& identities1 == identities0.insert(a, m.identity_key)
            &&& match decrypted.1 {
                Err(e) => {
                    &&& r == Err::<Seq<u8>, ErrorValue>(e)
                    &&& sessions1 == sessions0
                    &&& pre_keys1 == pre_keys0
                },
                Ok(p) => {
                    &&& r == Ok::<Seq<u8>, ErrorValue>(p)
                    &&& sessions1 == sessions0.insert(a, decrypted.0)
                    &&& pre_keys1 == (match pre_key_id {
                        Some(id) => pre_keys0.remove(id),
                        None => pre_keys0,
                    })
                },
            }
        },
    }
}

/// Decrypt a prekey-bootstrap envelope: load (or create) the record, let the
/// key agreement install a session state, decrypt the inner message against
/// the record, persist it, and only then consume the one-time prekey.
pub fn message_decrypt_prekey<
    S: SessionStore,
    I: IdentityKeyStore,
    P: PreKeyStore,
    SP: SignedPreKeyStore,
    R: rand::Rng + rand::CryptoRng,
>(
    ciphertext: &PreKeySignalMessage,
    remote_address: &ProtocolAddress,
    session_store: &mut S,
    identity_store: &mut I,
    pre_key_store: &mut P,
    signed_pre_key_store: &mut SP,
    _csprng: &mut R,
) -> (r: Result<Vec<u8>, SignalProtocolError>)
    ensures
        spec_decrypt_prekey_post(
            remote_address@,
            ciphertext@,
            old(identity_store).trusts(
                remote_address@,
                ciphertext@.identity_key,
                Direction::Receiving,
            ),
            old(identity_store).local_identity(),
            old(identity_store).local_registration_id(),
            (if old(signed_pre_key_store).signed_pre_keys().contains_key(
                ciphertext@.signed_pre_key_id,
            ) {
                Some(old(signed_pre_key_store).signed_pre_keys()[ciphertext@.signed_pre_key_id])
            } else {
                None
            }),
            (match ciphertext@.pre_key_id {
                Some(id) => if old(pre_key_store).pre_keys().contains_key(id) {
                    Some(old(pre_key_store).pre_keys()[id])
                } else {
                    None
                },
                None => None,
            }),
            old(session_store).sessions(),
            old(identity_store).identities(),
            old(pre_key_store).pre_keys(),
            final(session_store).sessions(),
            final(identity_store).identities(),
            final(pre_key_store).pre_keys(),
            crate::errors::result_value(r),
        ),
        final(identity_store).local_identity() == old(identity_store).local_identity(),
        final(identity_store).local_registration_id() == old(identity_store).local_registration_id(),
{
    let mut record = match session_store.load_session(remote_address) {
        Some(record) => record,
        None => SessionRecord::new_fresh(),
    };
    let pre_key_id = match process_prekey(
        ciphertext,
        remote_address,
        &mut record,
        identity_store,
        pre_key_store,
        signed_pre_key_store,
    ) {
        Ok(id) => id,
        Err(e) => {
            return Err(e);
        },
    };
    let ptext = match decrypt_message_with_record(&mut record, &ciphertext.message) {
        Ok(ptext) => ptext,
        Err(e) => {
            return Err(e);
        },
    };
    session_store.store_session(remote_address, &record);
    match pre_key_id {
        Some(id) => {
            pre_key_store.remove_pre_key(id);
        },
        None => {},
    }
    Ok(ptext)
}

/// Dispatch decryption on the envelope kind; kinds the session cipher does
/// not handle are rejected.
pub fn message_decrypt<
    S: SessionStore,
    I: IdentityKeyStore,
    P: PreKeyStore,
    SP: SignedPreKeyStore,
    R: rand::Rng + rand::CryptoRng,
>(
    ciphertext: &CiphertextMessage,
    remote_address: &ProtocolAddress,
    session_store: &mut S,
    identity_store: &mut I,
    pre_key_store: &mut P,
    signed_pre_key_store: &mut SP,
    csprng: &mut R,
) -> (r: Result<Vec<u8>, SignalProtocolError>)
    ensures
        (match ciphertext@ {
            CiphertextValue::SignalMessage(m) => {
                &&& spec_decrypt_signal_post(
                    remote_address@,
                    m,
                    old(session_store).sessions(),
                    old(identity_store).identities(),
                    (|k: IdentityKey| old(identity_store).trusts(
                        remote_address@,
                        k,
                        Direction::Receiving,
                    )),
                    final(session_store).sessions(),
                    final(identity_store).identities(),
                    crate::errors::result_value(r),
                )
                &&& final(pre_key_store).pre_keys() == old(pre_key_store).pre_keys()
            },
            CiphertextValue::PreKeySignalMessage(m) => spec_decrypt_prekey_post(
                remote_address@,
                m,
                old(identity_store).trusts(remote_address@, m.identity_key, Direction::Receiving),
                old(identity_store).local_identity(),
                old(identity_store).local_registration_id(),
                (if old(signed_pre_key_store).signed_pre_keys().contains_key(m.signed_pre_key_id) {
                    Some(old(signed_pre_key_store).signed_pre_keys()[m.signed_pre_key_id])
                } else {
                    None
                }),
                (match m.pre_key_id {
                    Some(id) => if old(pre_key_store).pre_keys().contains_key(id) {
                        Some(old(pre_key_store).pre_keys()[id])
                    } else {
                        None
                    },
                    None => None,
                }),
                old(session_store).sessions(),
                old(identity_store).identities(),
                old(pre_key_store).pre_keys(),
                final(session_store).sessions(),
                final(identity_store).identities(),
                final(pre_key_store).pre_keys(),
                crate::errors::result_value(r),
            ),
            _ => {
                &&& (r matches Err(e) && e@ == ErrorValue::InvalidArgument(
                    "SessionCipher::decrypt cannot decrypt this message type"@,
                ))
                &&& *final(session_store) == *old(session_store)
                &&& *final(identity_store) == *old(identity_store)
                &&& *final(pre_key_store) == *old(pre_key_store)
            },
        }),
{
    match ciphertext {
        CiphertextMessage::SignalMessage(m) => message_decrypt_signal(
            m,
            remote_address,
            session_store,
            identity_store,
            csprng,
        ),
        CiphertextMessage::PreKeySignalMessage(m) => message_decrypt_prekey(
            m,
            remote_address,
            session_store,
            identity_store,
            pre_key_store,
            signed_pre_key_store,
            csprng,
        ),
        _ => Err(SignalProtocolError::InvalidArgument(
            "SessionCipher::decrypt cannot decrypt this message type",
        )),
    }
}

/// The peer's registration id, read from the current session state.
pub fn remote_registration_id<S: SessionStore>(
    remote_address: &ProtocolAddress,
    session_store: &S,
) -> (r: Result<u32, SignalProtocolError>)
    ensures
        !session_store.sessions().contains_key(remote_address@) ==> (r matches Err(e) && e@
            == ErrorValue::SessionNotFound),
        session_store.sessions().contains_key(remote_address@) ==> (match session_store.sessions()[remote_address@].current {
            Some(s) => r == Ok::<u32, SignalProtocolError>(s.remote_registration_id),
            None => (r matches Err(e) && e@ == ErrorValue::InvalidSessionStructure),
        }),
{
    let record = match session_store.load_session(remote_address) {
        Some(record) => record,
        None => {
            return Err(SignalProtocolError::SessionNotFound);
        },
    };
    match &record.current {
        Some(state) => Ok(state.remote_registration_id),
        None => Err(SignalProtocolError::InvalidSessionStructure),
    }
}

/// The session's protocol version, read from the current session state.
pub fn session_version<S: SessionStore>(
    remote_address: &ProtocolAddress,
    session_store: &S,
) -> (r: Result<u32, SignalProtocolError>)
    ensures
        !session_store.sessions().contains_key(remote_address@) ==> (r matches Err(e) && e@
            == ErrorValue::SessionNotFound),
        session_store.sessions().contains_key(remote_address@) ==> (match session_store.sessions()[remote_address@].current {
            Some(s) => r == Ok::<u32, SignalProtocolError>(s.session_version),
            None => (r matches Err(e) && e@ == ErrorValue::InvalidSessionStructure),
        }),
{
    let record = match session_store.load_session(remote_address) {
        Some(record) => record,
        None => {
            return Err(SignalProtocolError::SessionNotFound);
        },
    };
    match &record.current {
        Some(state) => Ok(state.session_version),
        None => Err(SignalProtocolError::InvalidSessionStructure),
    }
}

} // verus!
