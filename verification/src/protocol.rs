//! Wire envelopes: the ratchet message and its prekey-bootstrap wrapper.
use vstd::prelude::*;
use crate::crypto::compute_mac;
use crate::crypto::spec_mac;
use crate::curve::IdentityKey;
use crate::curve::PublicKey;
use crate::ratchet::spec_mix;

verus! {

/// An authenticated ratchet message.
#[derive(Debug)]
pub struct SignalMessage {
    pub message_version: u8,
    pub sender_ratchet_key: PublicKey,
    pub counter: u32,
    pub previous_counter: u32,
    pub body: Vec<u8>,
    pub mac: u64,
}

#[verifier::ext_equal]
pub ghost struct MessageValue {
    pub message_version: u8,
    pub sender_ratchet_key: PublicKey,
    pub counter: u32,
    pub previous_counter: u32,
    pub body: Seq<u8>,
    pub mac: u64,
}

impl View for SignalMessage {
    type V = MessageValue;

    open spec fn view(&self) -> MessageValue {
        MessageValue {
            message_version: self.message_version,
            sender_ratchet_key: self.sender_ratchet_key,
            counter: self.counter,
            previous_counter: self.previous_counter,
            body: self.body@,
            mac: self.mac,
        }
    }
}

/// The header word folded into the MAC: all envelope fields but the body.
pub open spec fn spec_header(
    message_version: u8,
    sender_ratchet_key: PublicKey,
    counter: u32,
    previous_counter: u32,
) -> u64 {
    spec_mix(
        spec_mix(spec_mix(message_version as u64, sender_ratchet_key.value), counter as u64),
        previous_counter as u64,
    )
}

/// The MAC an envelope with value `m` must carry, under `mac_key` and the
/// sender's and receiver's identities.
pub open spec fn spec_envelope_mac(
    sender_identity: IdentityKey,
    receiver_identity: IdentityKey,
    mac_key: u64,
    m: MessageValue,
) -> u64 {
    spec_mac(
        sender_identity,
        receiver_identity,
        mac_key,
        spec_header(m.message_version, m.sender_ratchet_key, m.counter, m.previous_counter),
        m.body,
    )
}

impl SignalMessage {
    /// Assemble an envelope, computing its MAC.
    pub fn new(
        message_version: u8,
        mac_key: u64,
        sender_ratchet_key: PublicKey,
        counter: u32,
        previous_counter: u32,
        ciphertext: Vec<u8>,
        sender_identity: &IdentityKey,
        receiver_identity: &IdentityKey,
    ) -> (r: SignalMessage)
        ensures
            r@ == (MessageValue {
                message_version,
                sender_ratchet_key,
                counter,
                previous_counter,
                body: ciphertext@,
                mac: spec_envelope_mac(*sender_identity, *receiver_identity, mac_key, r@),
            }),
    {
        let mut header: u64 = crate::ratchet::mix(message_version as u64, sender_ratchet_key.value);
        header = crate::ratchet::mix(header, counter as u64);
        header = crate::ratchet::mix(header, previous_counter as u64);
        let mac = compute_mac(
            sender_identity,
            receiver_identity,
            mac_key,
            header,
            ciphertext.as_slice(),
        );
        SignalMessage {
            message_version,
            sender_ratchet_key,
            counter,
            previous_counter,
            body: ciphertext,
            mac,
        }
    }

    /// Recompute the MAC and compare it with the carried one.
    pub fn verify_mac(
        &self,
        their_identity: &IdentityKey,
        our_identity: &IdentityKey,
        mac_key: u64,
    ) -> (r: bool)
        ensures
            r == (self@.mac == spec_envelope_mac(*their_identity, *our_identity, mac_key, self@)),
    {
        let mut header: u64 = crate::ratchet::mix(
            self.message_version as u64,
            self.sender_ratchet_key.value,
        );
        header = crate::ratchet::mix(header, self.counter as u64);
        header = crate::ratchet::mix(header, self.previous_counter as u64);
        let expected = compute_mac(
            their_identity,
            our_identity,
            mac_key,
            header,
            self.body.as_slice(),
        );
        self.mac == expected
    }
}

/// The first envelope of a conversation: carries the key-agreement fields and
/// wraps an inner ratchet message.
#[derive(Debug)]
pub struct PreKeySignalMessage {
    pub message_version: u8,
    pub registration_id: u32,
    pub pre_key_id: Option<u32>,
    pub signed_pre_key_id: u32,
    pub base_key: PublicKey,
    pub identity_key: IdentityKey,
    pub message: SignalMessage,
}

#[verifier::ext_equal]
pub ghost struct PreKeyMessageValue {
    pub message_version: u8,
    pub registration_id: u32,
    pub pre_key_id: Option<u32>,
    pub signed_pre_key_id: u32,
    pub base_key: PublicKey,
    pub identity_key: IdentityKey,
    pub message: MessageValue,
}

impl View for PreKeySignalMessage {
    type V = PreKeyMessageValue;

    open spec fn view(&self) -> PreKeyMessageValue {
        PreKeyMessageValue {
            message_version: self.message_version,
            registration_id: self.registration_id,
            pre_key_id: self.pre_key_id,
            signed_pre_key_id: self.signed_pre_key_id,
            base_key: self.base_key,
            identity_key: self.identity_key,
            message: self.message@,
        }
    }
}

/// Every envelope kind the outer protocol may hand to `message_decrypt`; the
/// session cipher handles the first two and rejects the rest.
#[derive(Debug)]
pub enum CiphertextMessage {
    SignalMessage(SignalMessage),
    PreKeySignalMessage(PreKeySignalMessage),
    SenderKeyMessage(Vec<u8>),
    SenderKeyDistributionMessage(Vec<u8>),
}

#[verifier::ext_equal]
pub ghost enum CiphertextValue {
    SignalMessage(MessageValue),
    PreKeySignalMessage(PreKeyMessageValue),
    SenderKeyMessage(Seq<u8>),
    SenderKeyDistributionMessage(Seq<u8>),
}

impl View for CiphertextMessage {
    type V = CiphertextValue;

    open spec fn view(&self) -> CiphertextValue {
        match self {
            CiphertextMessage::SignalMessage(m) => CiphertextValue::SignalMessage(m.view()),
            CiphertextMessage::PreKeySignalMessage(m) => CiphertextValue::PreKeySignalMessage(
                m.view(),
            ),
            CiphertextMessage::SenderKeyMessage(b) => CiphertextValue::SenderKeyMessage(b.view()),
            CiphertextMessage::SenderKeyDistributionMessage(b) =>
                CiphertextValue::SenderKeyDistributionMessage(b.view()),
        }
    }
}

} // verus!
