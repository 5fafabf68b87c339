//! The prekey bootstrap: key agreement that turns a peer's first (prekey)
//! envelope into a fresh session state in the record.
use vstd::prelude::*;
use crate::address::AddressValue;
use crate::address::ProtocolAddress;
use crate::curve::agree;
use crate::curve::spec_agree;
use crate::curve::spec_public_of;
use crate::curve::IdentityKeyPair;
use crate::curve::PrivateKey;
use crate::errors::ErrorValue;
use crate::errors::SignalProtocolError;
use crate::protocol::PreKeyMessageValue;
use crate::protocol::PreKeySignalMessage;
use crate::ratchet::mix;
use crate::ratchet::spec_mix;
use crate::ratchet::RootKey;
use crate::state::spec_has_session;
use crate::state::RecordValue;
use crate::state::SenderChain;
use crate::state::SessionRecord;
use crate::state::SessionState;
use crate::state::StateValue;
use crate::storage::Direction;
use crate::storage::IdentityKeyStore;
use crate::storage::PreKeyStore;
use crate::storage::SignedPreKeyStore;

verus! {

/// Outcome of processing a prekey envelope's key-agreement fields.
#[verifier::ext_equal]
pub ghost enum PreKeyOutcome {
    /// The identity store denied trust; nothing was touched.
    Untrusted,
    /// A state for this base key and version already exists; the record is
    /// left as it is and no one-time prekey is consumed.
    AlreadyProcessed,
    MissingSignedPreKey,
    MissingOneTimePreKey,
    /// A fresh state was created and promoted; the second field is the
    /// one-time prekey id to consume.
    Created(StateValue, Option<u32>),
}

/// The session state the responder derives from a prekey envelope, given its
/// own identity pair, registration id, signed prekey and optional one-time
/// prekey.
pub open spec fn spec_bootstrap_state(
    m: PreKeyMessageValue,
    local: IdentityKeyPair,
    registration_id: u32,
    signed_key: PrivateKey,
    one_time: Option<PrivateKey>,
) -> StateValue {
    let secret = spec_mix(
        spec_mix(
            spec_mix(
                spec_agree(m.identity_key.public_key, signed_key),
                spec_agree(m.base_key, local.private_key),
            ),
            spec_agree(m.base_key, signed_key),
        ),
        match one_time {
            Some(ot) => spec_agree(m.base_key, ot),
            None => 0,
        },
    );
    let root = RootKey { key: spec_mix(secret, 8) };
    let stepped_once = root.spec_create_chain(spec_agree(m.base_key, signed_key));
    let stepped_twice = stepped_once.0.spec_create_chain(spec_agree(m.base_key, signed_key));
    StateValue {
        session_version: m.message_version as u32,
        local_identity: local.identity_key,
        remote_identity: Some(m.identity_key),
        root_key: root,
        previous_counter: 0,
        sender_chain: Some(
            SenderChain {
                ratchet_public: spec_public_of(signed_key),
                ratchet_private: signed_key,
                chain_key: stepped_twice.1,
            },
        ),
        receiver_chains: Seq::empty(),
        pending_pre_key: None,
        initiator_base_key: m.base_key,
        local_registration_id: registration_id,
        remote_registration_id: m.registration_id,
    }
}

/// Model of [`process_prekey`]: `trusted` is the identity store's decision on
/// the envelope's identity key, `signed_key` and `one_time` are the store
/// lookups for the envelope's prekey ids.
pub open spec fn spec_process_prekey(
    r: RecordValue,
    m: PreKeyMessageValue,
    trusted: bool,
    local: IdentityKeyPair,
    registration_id: u32,
    signed_key: Option<PrivateKey>,
    one_time: Option<PrivateKey>,
) -> PreKeyOutcome {
    if !trusted {
        PreKeyOutcome::Untrusted
    } else if spec_has_session(r, m.message_version as u32, m.base_key) {
        PreKeyOutcome::AlreadyProcessed
    } else {
        match signed_key {
            None => PreKeyOutcome::MissingSignedPreKey,
            Some(spk) => if m.pre_key_id is Some && one_time is None {
                PreKeyOutcome::MissingOneTimePreKey
            } else {
                PreKeyOutcome::Created(
                    spec_bootstrap_state(m, local, registration_id, spk, one_time),
                    m.pre_key_id,
                )
            },
        }
    }
}

/// The record after a created state is promoted.
pub open spec fn spec_promoted(r: RecordValue, s: StateValue) -> RecordValue {
    RecordValue {
        current: Some(s),
        previous: (match r.current {
            Some(c) => seq![c],
            None => Seq::empty(),
        }) + r.previous,
    }
}

/// Consume a prekey envelope's key-agreement fields: check trust, skip work
/// if the session already exists, otherwise derive a fresh state from the
/// stores' prekeys, promote it into the record, record the identity, and
/// return the one-time prekey id to consume.
pub fn process_prekey<I: IdentityKeyStore, P: PreKeyStore, SP: SignedPreKeyStore>(
    ciphertext: &PreKeySignalMessage,
    remote_address: &ProtocolAddress,
    record: &mut SessionRecord,
    identity_store: &mut I,
    pre_key_store: &mut P,
    signed_pre_key_store: &mut SP,
) -> (r: Result<Option<u32>, SignalProtocolError>)
    ensures
        ({
            let outcome = spec_process_prekey(
                old(record)@,
                ciphertext@,
                old(identity_store).trusts(
                    remote_address@,
                    ciphertext@.identity_key,
                    Direction::Receiving,
                ),
                old(identity_store).local_identity(),
                old(identity_store).local_registration_id(),
                (if old(signed_pre_key_store).signed_pre_keys().contains_key(
                    ciphertext@.signed_pre_key_id,
                ) {
                    Some(old(signed_pre_key_store).signed_pre_keys()[ciphertext@.signed_pre_key_id])
                } else {
                    None
                }),
                (match ciphertext@.pre_key_id {
                    Some(id) => if old(pre_key_store).pre_keys().contains_key(id) {
                        Some(old(pre_key_store).pre_keys()[id])
                    } else {
                        None
                    },
                    None => None,
                }),
            );
            match outcome {
                PreKeyOutcome::Untrusted => r matches Err(e) && e@
                    == ErrorValue::UntrustedIdentity(remote_address@) && final(record)@ == old(record)@ && *final(identity_store) == *old(identity_store),
                PreKeyOutcome::AlreadyProcessed => r == Ok::<Option<u32>, SignalProtocolError>(None) && final(record)@ == old(record)@ && *final(identity_store) == *old(identity_store),
                PreKeyOutcome::MissingSignedPreKey => r matches Err(e) && e@
                    == ErrorValue::InvalidMessage("unknown signed prekey id"@) && final(record)@
                    == old(record)@ && *final(identity_store) == *old(identity_store),
                PreKeyOutcome::MissingOneTimePreKey => r matches Err(e) && e@
                    == ErrorValue::InvalidMessage("unknown one-time prekey id"@) && final(record)@
                    == old(record)@ && *final(identity_store) == *old(identity_store),
                PreKeyOutcome::Created(state, id) => r == Ok::<Option<u32>, SignalProtocolError>(id) && final(record)@ == spec_promoted(old(record)@, state) && final(identity_store).identities() == old(identity_store).identities().insert(
                    remote_address@,
                    ciphertext@.identity_key,
                ) && final(identity_store).local_identity() == old(identity_store).local_identity()
                    && final(identity_store).local_registration_id() == old(identity_store).local_registration_id(),
            }
        }),
        *final(pre_key_store) == *old(pre_key_store),
{
    if !identity_store.is_trusted_identity(
        remote_address,
        &ciphertext.identity_key,
        Direction::Receiving,
    ) {
        return Err(SignalProtocolError::UntrustedIdentity(remote_address.clone()));
    }
    if record.has_session_state(ciphertext.message_version as u32, &ciphertext.base_key) {
        return Ok(None);
    }
    let signed_key = match signed_pre_key_store.get_signed_pre_key(ciphertext.signed_pre_key_id) {
        Some(key) => key,
        None => {
            return Err(SignalProtocolError::InvalidMessage("unknown signed prekey id"));
        },
    };
    let one_time = match ciphertext.pre_key_id {
        Some(id) => match pre_key_store.get_pre_key(id) {
            Some(key) => Some(key),
            None => {
                return Err(SignalProtocolError::InvalidMessage("unknown one-time prekey id"));
            },
        },
        None => None,
    };
    let local = identity_store.get_identity_key_pair();
    let registration_id = identity_store.get_local_registration_id();
    let mut secret = agree(&ciphertext.identity_key.public_key, &signed_key);
    secret = mix(secret, agree(&ciphertext.base_key, &local.private_key));
    secret = mix(secret, agree(&ciphertext.base_key, &signed_key));
    secret = mix(
        secret,
        match &one_time {
            Some(ot) => agree(&ciphertext.base_key, ot),
            None => 0,
        },
    );
    let root = RootKey { key: mix(secret, 8) };
    let stepped_once = root.create_chain(&ciphertext.base_key, &signed_key);
    let stepped_twice = stepped_once.0.create_chain(&ciphertext.base_key, &signed_key);
    let state = SessionState {
        session_version: ciphertext.message_version as u32,
        local_identity: local.identity_key,
        remote_identity: Some(ciphertext.identity_key),
        root_key: root,
        previous_counter: 0,
        sender_chain: Some(
            SenderChain {
                ratchet_public: signed_key.public_key(),
                ratchet_private: signed_key,
                chain_key: stepped_twice.1,
            },
        ),
        receiver_chains: Vec::new(),
        pending_pre_key: None,
        initiator_base_key: ciphertext.base_key,
        local_registration_id: registration_id,
        remote_registration_id: ciphertext.registration_id,
    };
    proof {
        assert(state@ =~= spec_bootstrap_state(
            ciphertext@,
            local,
            registration_id,
            signed_key,
            one_time,
        ));
    }
    record.promote_state(state);
    let _replaced = identity_store.save_identity(remote_address, &ciphertext.identity_key);
    Ok(ciphertext.pre_key_id)
}

} // verus!
