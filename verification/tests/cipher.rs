use rand::SeedableRng;
use session_cipher::address::ProtocolAddress;
use session_cipher::curve::{IdentityKey, IdentityKeyPair, PrivateKey, PublicKey};
use session_cipher::errors::SignalProtocolError;
use session_cipher::protocol::{CiphertextMessage, SignalMessage};
use session_cipher::ratchet::{ChainKey, RootKey, KDF_STEP};
use session_cipher::session_cipher::{
    message_decrypt, message_decrypt_signal, remote_registration_id, session_version,
    message_encrypt,
};
use session_cipher::state::{
    ReceiverChain, SenderChain, SessionRecord, SessionState, UnacknowledgedPreKey,
};
use session_cipher::storage::{
    Direction, IdentityKeyStore, PreKeyStore, SessionStore, SignedPreKeyStore,
};

struct InMemSessionStore {
    sessions: Vec<(ProtocolAddress, SessionRecord)>,
    writes: usize,
}

impl InMemSessionStore {
    fn new() -> Self {
        InMemSessionStore { sessions: Vec::new(), writes: 0 }
    }
}

impl SessionStore for InMemSessionStore {
    fn load_session(&self, address: &ProtocolAddress) -> Option<SessionRecord> {
        self.sessions.iter().find(|(a, _)| a == address).map(|(_, r)| r.clone())
    }

    fn store_session(&mut self, address: &ProtocolAddress, record: &SessionRecord) {
        self.writes += 1;
        for entry in self.sessions.iter_mut() {
            if &entry.0 == address {
                entry.1 = record.clone();
                return;
            }
        }
        self.sessions.push((address.clone(), record.clone()));
    }
}

/// Trust-on-first-use identity store: an identity is trusted unless a
/// different one is already recorded for the address.
struct InMemIdentityStore {
    local: IdentityKeyPair,
    registration_id: u32,
    known: Vec<(ProtocolAddress, IdentityKey)>,
}

impl InMemIdentityStore {
    fn new(local: IdentityKeyPair, registration_id: u32) -> Self {
        InMemIdentityStore { local, registration_id, known: Vec::new() }
    }
}

impl IdentityKeyStore for InMemIdentityStore {
    fn get_identity_key_pair(&self) -> IdentityKeyPair {
        self.local
    }

    fn get_local_registration_id(&self) -> u32 {
        self.registration_id
    }

    fn is_trusted_identity(
        &self,
        address: &ProtocolAddress,
        identity: &IdentityKey,
        _direction: Direction,
    ) -> bool {
        match self.known.iter().find(|(a, _)| a == address) {
            Some((_, k)) => k == identity,
            None => true,
        }
    }

    fn save_identity(&mut self, address: &ProtocolAddress, identity: &IdentityKey) -> bool {
        for entry in self.known.iter_mut() {
            if &entry.0 == address {
                let replaced = entry.1 != *identity;
                entry.1 = *identity;
                return replaced;
            }
        }
        self.known.push((address.clone(), *identity));
        false
    }
}

struct InMemPreKeyStore {
    pre_keys: Vec<(u32, PrivateKey)>,
    removed: Vec<u32>,
}

impl InMemPreKeyStore {
    fn new() -> Self {
        InMemPreKeyStore { pre_keys: Vec::new(), removed: Vec::new() }
    }
}

impl PreKeyStore for InMemPreKeyStore {
    fn get_pre_key(&self, id: u32) -> Option<PrivateKey> {
        self.pre_keys.iter().find(|(i, _)| *i == id).map(|(_, k)| *k)
    }

    fn remove_pre_key(&mut self, id: u32) {
        self.removed.push(id);
        self.pre_keys.retain(|(i, _)| *i != id);
    }
}

struct InMemSignedPreKeyStore {
    signed_pre_keys: Vec<(u32, PrivateKey)>,
}

impl SignedPreKeyStore for InMemSignedPreKeyStore {
    fn get_signed_pre_key(&self, id: u32) -> Option<PrivateKey> {
        self.signed_pre_keys.iter().find(|(i, _)| *i == id).map(|(_, k)| *k)
    }
}

fn rng() -> rand::rngs::StdRng {
    rand::rngs::StdRng::seed_from_u64(7)
}

fn identity(seed: u64) -> IdentityKeyPair {
    let private_key = PrivateKey { value: seed };
    IdentityKeyPair { identity_key: IdentityKey { public_key: private_key.public_key() }, private_key }
}

fn base_state(local: IdentityKeyPair, remote: IdentityKey) -> SessionState {
    SessionState {
        session_version: 3,
        local_identity: local.identity_key,
        remote_identity: Some(remote),
        root_key: RootKey { key: 0 },
        previous_counter: 0,
        sender_chain: None,
        receiver_chains: Vec::new(),
        pending_pre_key: None,
        initiator_base_key: PrivateKey { value: 1 }.public_key(),
        local_registration_id: 0,
        remote_registration_id: 0,
    }
}

/// A pair of sessions ready for Alice-to-Bob traffic: Bob holds the shared
/// root key, Alice's sender chain is what Bob's DH ratchet will derive for
/// her ratchet key.
fn paired_states() -> (SessionState, SessionState) {
    let alice_identity = identity(101);
    let bob_identity = identity(103);
    let alice_ratchet = PrivateKey { value: 11 };
    let bob_ratchet = PrivateKey { value: 13 };
    let shared_root = RootKey { key: 999 };
    let derived = shared_root.create_chain(&alice_ratchet.public_key(), &bob_ratchet);

    let mut alice = base_state(alice_identity, bob_identity.identity_key);
    alice.root_key = RootKey { key: 777 };
    alice.sender_chain = Some(SenderChain {
        ratchet_public: alice_ratchet.public_key(),
        ratchet_private: alice_ratchet,
        chain_key: derived.1,
    });
    alice.local_registration_id = 41;
    alice.remote_registration_id = 42;

    let mut bob = base_state(bob_identity, alice_identity.identity_key);
    bob.root_key = shared_root;
    bob.sender_chain = Some(SenderChain {
        ratchet_public: bob_ratchet.public_key(),
        ratchet_private: bob_ratchet,
        chain_key: ChainKey { key: 555, index: 0 },
    });
    bob.local_registration_id = 42;
    bob.remote_registration_id = 41;

    (alice, bob)
}

fn record_of(state: SessionState) -> SessionRecord {
    SessionRecord { current: Some(state), previous: Vec::new() }
}

fn addr(name: &str) -> ProtocolAddress {
    ProtocolAddress::new(String::from(name), 1)
}

fn encrypt_stores(state: SessionState, remote: &ProtocolAddress) -> (InMemSessionStore, InMemIdentityStore) {
    let local = identity(state.local_identity.public_key.value);
    let mut sessions = InMemSessionStore::new();
    sessions.store_session(remote, &record_of(state));
    sessions.writes = 0;
    let identities = InMemIdentityStore::new(local, 41);
    (sessions, identities)
}

fn unwrap_signal(envelope: CiphertextMessage) -> SignalMessage {
    match envelope {
        CiphertextMessage::SignalMessage(m) => m,
        _ => panic!("expected a bare signal message"),
    }
}

#[test]
fn round_trip_hello() {
    let (alice, bob) = paired_states();
    let bob_addr = addr("bob");
    let alice_addr = addr("alice");
    let (mut a_sessions, mut a_identities) = encrypt_stores(alice, &bob_addr);

    let envelope = message_encrypt(b"hello", &bob_addr, &mut a_sessions, &mut a_identities)
        .expect("encrypt");
    let msg = unwrap_signal(envelope);
    assert_eq!(msg.counter, 0);
    assert_eq!(msg.previous_counter, 0);

    let mut b_sessions = InMemSessionStore::new();
    b_sessions.store_session(&alice_addr, &record_of(bob));
    let mut b_identities = InMemIdentityStore::new(identity(103), 42);
    let ptext = message_decrypt_signal(&msg, &alice_addr, &mut b_sessions, &mut b_identities, &mut rng())
        .expect("decrypt");
    assert_eq!(ptext, b"hello".to_vec());

    let stored = b_sessions.load_session(&alice_addr).expect("record");
    let current = stored.current.expect("current state");
    assert_eq!(current.receiver_chains.len(), 1);
    assert_eq!(current.receiver_chains[0].chain_key.index, 1);
}

#[test]
fn out_of_order_delivery_and_duplicate() {
    let (alice, bob) = paired_states();
    let bob_addr = addr("bob");
    let alice_addr = addr("alice");
    let (mut a_sessions, mut a_identities) = encrypt_stores(alice, &bob_addr);

    let m0 = unwrap_signal(message_encrypt(b"m0", &bob_addr, &mut a_sessions, &mut a_identities).unwrap());
    let m1 = unwrap_signal(message_encrypt(b"m1", &bob_addr, &mut a_sessions, &mut a_identities).unwrap());
    let m2 = unwrap_signal(message_encrypt(b"m2", &bob_addr, &mut a_sessions, &mut a_identities).unwrap());

    let mut b_sessions = InMemSessionStore::new();
    b_sessions.store_session(&alice_addr, &record_of(bob));
    let mut b_identities = InMemIdentityStore::new(identity(103), 42);
    let mut r = rng();

    let p2 = message_decrypt_signal(&m2, &alice_addr, &mut b_sessions, &mut b_identities, &mut r).unwrap();
    assert_eq!(p2, b"m2".to_vec());
    let stored = b_sessions.load_session(&alice_addr).unwrap();
    let current = stored.current.unwrap();
    assert_eq!(current.receiver_chains[0].chain_key.index, 3);
    let cached: Vec<u32> = current.receiver_chains[0].skipped.iter().map(|k| k.counter).collect();
    assert!(cached.contains(&0) && cached.contains(&1));

    let p0 = message_decrypt_signal(&m0, &alice_addr, &mut b_sessions, &mut b_identities, &mut r).unwrap();
    assert_eq!(p0, b"m0".to_vec());
    let p1 = message_decrypt_signal(&m1, &alice_addr, &mut b_sessions, &mut b_identities, &mut r).unwrap();
    assert_eq!(p1, b"m1".to_vec());

    let again = message_decrypt_signal(&m1, &alice_addr, &mut b_sessions, &mut b_identities, &mut r);
    assert!(matches!(again, Err(SignalProtocolError::DuplicatedMessage(3, 1))));
}

#[test]
fn too_far_future_rejected() {
    let (mut alice, bob) = paired_states();
    let chain = alice.sender_chain.unwrap();
    let mut ck = chain.chain_key;
    for _ in 0..2500 {
        ck = ck.next_chain_key();
    }
    alice.sender_chain = Some(SenderChain { chain_key: ck, ..chain });
    let bob_addr = addr("bob");
    let alice_addr = addr("alice");
    let (mut a_sessions, mut a_identities) = encrypt_stores(alice, &bob_addr);
    let msg = unwrap_signal(message_encrypt(b"late", &bob_addr, &mut a_sessions, &mut a_identities).unwrap());
    assert_eq!(msg.counter, 2500);

    let mut b_sessions = InMemSessionStore::new();
    b_sessions.store_session(&alice_addr, &record_of(bob));
    b_sessions.writes = 0;
    let mut b_identities = InMemIdentityStore::new(identity(103), 42);
    let result = message_decrypt_signal(&msg, &alice_addr, &mut b_sessions, &mut b_identities, &mut rng());
    assert!(matches!(result, Err(SignalProtocolError::InvalidMessage(_))));
    assert_eq!(b_sessions.writes, 0, "a failed decryption must not persist");
    let stored = b_sessions.load_session(&alice_addr).unwrap();
    assert_eq!(stored.current.unwrap().receiver_chains.len(), 0);
}

#[test]
fn fallback_to_archived_state_promotes_it() {
    let (alice, bob) = paired_states();
    let bob_addr = addr("bob");
    let alice_addr = addr("alice");
    let (mut a_sessions, mut a_identities) = encrypt_stores(alice, &bob_addr);
    let msg = unwrap_signal(message_encrypt(b"delayed", &bob_addr, &mut a_sessions, &mut a_identities).unwrap());

    // Bob's session rotated: an unrelated state is current, the matching one
    // is archived.
    let mut fresh = base_state(identity(103), identity(101).identity_key);
    let fresh_ratchet = PrivateKey { value: 17 };
    fresh.sender_chain = Some(SenderChain {
        ratchet_public: fresh_ratchet.public_key(),
        ratchet_private: fresh_ratchet,
        chain_key: ChainKey { key: 1234, index: 0 },
    });
    fresh.local_registration_id = 7;
    let record = SessionRecord { current: Some(fresh), previous: vec![bob] };
    let mut b_sessions = InMemSessionStore::new();
    b_sessions.store_session(&alice_addr, &record);
    let mut b_identities = InMemIdentityStore::new(identity(103), 42);

    let ptext = message_decrypt_signal(&msg, &alice_addr, &mut b_sessions, &mut b_identities, &mut rng())
        .expect("archived state must decrypt");
    assert_eq!(ptext, b"delayed".to_vec());

    let stored = b_sessions.load_session(&alice_addr).unwrap();
    let current = stored.current.unwrap();
    assert_eq!(current.local_registration_id, 42, "the archived state is current now");
    assert_eq!(current.receiver_chains.len(), 1);
    assert_eq!(stored.previous.len(), 1);
    assert_eq!(stored.previous[0].local_registration_id, 7, "the old current state heads the archive");
}

#[test]
fn prekey_bootstrap_consumes_one_time_prekey_once() {
    // Alice is the responder; Bob opens the conversation with a prekey
    // envelope built over her published prekeys.
    let alice_identity = identity(201);
    let bob_identity = identity(203);
    let spk = PrivateKey { value: 19 };
    let otpk = PrivateKey { value: 23 };
    let ekb = PrivateKey { value: 29 };

    let s1 = session_cipher::curve::agree(&spk.public_key(), &bob_identity.private_key);
    let s2 = session_cipher::curve::agree(&alice_identity.identity_key.public_key, &ekb);
    let s3 = session_cipher::curve::agree(&spk.public_key(), &ekb);
    let s4 = session_cipher::curve::agree(&otpk.public_key(), &ekb);
    let secret = session_cipher::ratchet::mix(
        session_cipher::ratchet::mix(session_cipher::ratchet::mix(s1, s2), s3),
        s4,
    );
    let root = RootKey { key: session_cipher::ratchet::mix(secret, 8) };
    let stepped_once = root.create_chain(&spk.public_key(), &ekb);

    let mut bob = base_state(bob_identity, alice_identity.identity_key);
    bob.root_key = stepped_once.0;
    bob.sender_chain = Some(SenderChain {
        ratchet_public: ekb.public_key(),
        ratchet_private: ekb,
        chain_key: stepped_once.1,
    });
    bob.pending_pre_key = Some(UnacknowledgedPreKey {
        pre_key_id: Some(42),
        signed_pre_key_id: 7,
        base_key: ekb.public_key(),
    });
    bob.initiator_base_key = ekb.public_key();
    bob.local_registration_id = 88;

    let alice_addr = addr("alice");
    let bob_addr = addr("bob");
    let mut b_sessions = InMemSessionStore::new();
    b_sessions.store_session(&alice_addr, &record_of(bob));
    let mut b_identities = InMemIdentityStore::new(bob_identity, 88);
    let envelope = message_encrypt(b"first contact", &alice_addr, &mut b_sessions, &mut b_identities)
        .expect("encrypt");
    let prekey_msg = match &envelope {
        CiphertextMessage::PreKeySignalMessage(m) => m,
        _ => panic!("expected a prekey envelope"),
    };
    assert_eq!(prekey_msg.pre_key_id, Some(42));
    assert_eq!(prekey_msg.registration_id, 88);

    // Alice has no record for Bob yet.
    let mut a_sessions = InMemSessionStore::new();
    let mut a_identities = InMemIdentityStore::new(alice_identity, 77);
    let mut a_pre_keys = InMemPreKeyStore::new();
    a_pre_keys.pre_keys.push((42, otpk));
    let mut a_signed = InMemSignedPreKeyStore { signed_pre_keys: vec![(7, spk)] };

    let ptext = message_decrypt(
        &envelope,
        &bob_addr,
        &mut a_sessions,
        &mut a_identities,
        &mut a_pre_keys,
        &mut a_signed,
        &mut rng(),
    )
    .expect("prekey decrypt");
    assert_eq!(ptext, b"first contact".to_vec());
    assert_eq!(a_pre_keys.removed, vec![42], "exactly one removal of the consumed prekey");
    assert!(a_pre_keys.get_pre_key(42).is_none());
    assert!(a_sessions.load_session(&bob_addr).is_some());
}

#[test]
fn untrusted_identity_on_decrypt_still_persists_advance() {
    let (alice, bob) = paired_states();
    let bob_addr = addr("bob");
    let alice_addr = addr("alice");
    let (mut a_sessions, mut a_identities) = encrypt_stores(alice, &bob_addr);
    let msg = unwrap_signal(message_encrypt(b"psst", &bob_addr, &mut a_sessions, &mut a_identities).unwrap());

    let mut b_sessions = InMemSessionStore::new();
    b_sessions.store_session(&alice_addr, &record_of(bob));
    let mut b_identities = InMemIdentityStore::new(identity(103), 42);
    // A different identity is already on file for Alice: trust is denied.
    b_identities.known.push((alice_addr.clone(), identity(999).identity_key));

    let result = message_decrypt_signal(&msg, &alice_addr, &mut b_sessions, &mut b_identities, &mut rng());
    assert!(matches!(result, Err(SignalProtocolError::UntrustedIdentity(_))));

    // Per the preserved store ordering the advanced session is on disk, so a
    // redelivery is classified as a duplicate.
    let again = message_decrypt_signal(&msg, &alice_addr, &mut b_sessions, &mut b_identities, &mut rng());
    assert!(matches!(again, Err(SignalProtocolError::DuplicatedMessage(_, 0))));
}

#[test]
fn untrusted_identity_on_encrypt_persists_nothing() {
    let (alice, _) = paired_states();
    let bob_addr = addr("bob");
    let (mut a_sessions, mut a_identities) = encrypt_stores(alice, &bob_addr);
    a_identities.known.push((bob_addr.clone(), identity(999).identity_key));

    let result = message_encrypt(b"hello", &bob_addr, &mut a_sessions, &mut a_identities);
    assert!(matches!(result, Err(SignalProtocolError::UntrustedIdentity(_))));
    assert_eq!(a_sessions.writes, 0, "no session write after a denied trust check");

    // With trust restored the same chain position is still in force.
    a_identities.known.clear();
    let msg = unwrap_signal(message_encrypt(b"hello", &bob_addr, &mut a_sessions, &mut a_identities).unwrap());
    assert_eq!(msg.counter, 0);
}

#[test]
fn missing_session_is_reported() {
    let sessions = InMemSessionStore::new();
    let mut sessions = sessions;
    let mut identities = InMemIdentityStore::new(identity(1), 5);
    let e = message_encrypt(b"x", &addr("nobody"), &mut sessions, &mut identities);
    assert!(matches!(e, Err(SignalProtocolError::SessionNotFound)));
    let (alice, _) = paired_states();
    let msg = {
        let bob_addr = addr("bob");
        let (mut s, mut i) = encrypt_stores(alice, &bob_addr);
        unwrap_signal(message_encrypt(b"x", &bob_addr, &mut s, &mut i).unwrap())
    };
    let d = message_decrypt_signal(&msg, &addr("nobody"), &mut sessions, &mut identities, &mut rng());
    assert!(matches!(d, Err(SignalProtocolError::SessionNotFound)));
    assert!(matches!(
        remote_registration_id(&addr("nobody"), &sessions),
        Err(SignalProtocolError::SessionNotFound)
    ));
}

#[test]
fn version_mismatch_and_bad_mac_are_rejected() {
    let (alice, bob) = paired_states();
    let bob_addr = addr("bob");
    let alice_addr = addr("alice");
    let (mut a_sessions, mut a_identities) = encrypt_stores(alice, &bob_addr);
    let msg = unwrap_signal(message_encrypt(b"x", &bob_addr, &mut a_sessions, &mut a_identities).unwrap());

    // Tamper with the version.
    let mut wrong_version = SignalMessage { ..clone_msg(&msg) };
    wrong_version.message_version = 9;
    let mut b_sessions = InMemSessionStore::new();
    b_sessions.store_session(&alice_addr, &record_of(bob));
    let mut b_identities = InMemIdentityStore::new(identity(103), 42);
    let r = message_decrypt_signal(&wrong_version, &alice_addr, &mut b_sessions, &mut b_identities, &mut rng());
    assert!(matches!(r, Err(SignalProtocolError::InvalidMessage(_))));

    // Tamper with the body: the MAC no longer validates, so no state
    // decrypts the envelope.
    let mut tampered = clone_msg(&msg);
    tampered.body[0] ^= 0x55;
    let r = message_decrypt_signal(&tampered, &alice_addr, &mut b_sessions, &mut b_identities, &mut rng());
    assert!(matches!(r, Err(SignalProtocolError::InvalidMessage(_))));

    // The untampered envelope still decrypts: nothing was consumed.
    let p = message_decrypt_signal(&msg, &alice_addr, &mut b_sessions, &mut b_identities, &mut rng()).unwrap();
    assert_eq!(p, b"x".to_vec());
}

fn clone_msg(m: &SignalMessage) -> SignalMessage {
    SignalMessage {
        message_version: m.message_version,
        sender_ratchet_key: m.sender_ratchet_key,
        counter: m.counter,
        previous_counter: m.previous_counter,
        body: m.body.clone(),
        mac: m.mac,
    }
}

#[test]
fn unsupported_envelope_kind_is_invalid_argument() {
    let mut sessions = InMemSessionStore::new();
    let mut identities = InMemIdentityStore::new(identity(1), 5);
    let mut pre_keys = InMemPreKeyStore::new();
    let mut signed = InMemSignedPreKeyStore { signed_pre_keys: Vec::new() };
    let r = message_decrypt(
        &CiphertextMessage::SenderKeyMessage(vec![1, 2, 3]),
        &addr("x"),
        &mut sessions,
        &mut identities,
        &mut pre_keys,
        &mut signed,
        &mut rng(),
    );
    assert!(matches!(r, Err(SignalProtocolError::InvalidArgument(_))));
}

#[test]
fn accessors_read_current_state() {
    let (alice, _) = paired_states();
    let bob_addr = addr("bob");
    let mut sessions = InMemSessionStore::new();
    sessions.store_session(&bob_addr, &record_of(alice));
    assert_eq!(remote_registration_id(&bob_addr, &sessions).unwrap(), 42);
    assert_eq!(session_version(&bob_addr, &sessions).unwrap(), 3);
    let empty = SessionRecord::new_fresh();
    sessions.store_session(&bob_addr, &empty);
    assert!(matches!(
        session_version(&bob_addr, &sessions),
        Err(SignalProtocolError::InvalidSessionStructure)
    ));
}

#[test]
fn mix_and_agreement_formulas() {
    assert_eq!(session_cipher::ratchet::mix(1, 2), 1u64.wrapping_mul(KDF_STEP).wrapping_add(2));
    let a = PrivateKey { value: 31 };
    let b = PrivateKey { value: 37 };
    assert_eq!(
        session_cipher::curve::agree(&a.public_key(), &b),
        session_cipher::curve::agree(&b.public_key(), &a),
    );
    let ck = ChainKey { key: 5, index: 0 };
    assert_eq!(ck.next_chain_key().index, 1);
    assert_eq!(ck.message_keys().counter, 0);
}

#[test]
fn keystream_cipher_is_an_involution() {
    let data = b"some plaintext bytes".to_vec();
    let c = session_cipher::crypto::apply_keystream(&data, 11, 22);
    assert_ne!(c, data);
    let p = session_cipher::crypto::apply_keystream(&c, 11, 22);
    assert_eq!(p, data);
}

#[test]
fn hex_and_dec_render_exactly() {
    assert_eq!(session_cipher::logfmt::hex_u64(0x0123_4567_89ab_cdef), "0123456789abcdef");
    assert_eq!(session_cipher::logfmt::hex_u64(0xff), "00000000000000ff");
    assert_eq!(session_cipher::logfmt::dec_u64(0), "0");
    assert_eq!(session_cipher::logfmt::dec_u64(12345), "12345");
}

#[test]
fn errors_render_exactly() {
    assert_eq!(
        session_cipher::logfmt::describe_error(&SignalProtocolError::DuplicatedMessage(3, 1)),
        "duplicated message: chain index 3, counter 1"
    );
    assert_eq!(
        session_cipher::logfmt::describe_error(&SignalProtocolError::InvalidCiphertext),
        "invalid ciphertext"
    );
}

#[test]
fn failure_log_lists_states_and_chains() {
    let mut state = base_state(identity(1), identity(2).identity_key);
    state.receiver_chains.push(ReceiverChain {
        ratchet_key: PublicKey { value: 0xff },
        chain_key: ChainKey { key: 9, index: 5 },
        skipped: Vec::new(),
    });
    let record = record_of(state);
    let msg = SignalMessage {
        message_version: 3,
        sender_ratchet_key: PublicKey { value: 2 },
        counter: 7,
        previous_counter: 0,
        body: Vec::new(),
        mac: 0,
    };
    let errs = vec![SignalProtocolError::InvalidCiphertext];
    let log = session_cipher::logfmt::create_decryption_failure_log(&addr("alice"), &errs, &record, &msg);
    assert_eq!(
        log,
        "message from alice:1 failed to decrypt; sender ratchet key 0000000000000002 counter 7\n\
         candidate session 0 failed with 'invalid ciphertext', had 1 receiver chains\n\
         receiver chain with sender ratchet key 00000000000000ff chain key index 5\n"
    );
}
