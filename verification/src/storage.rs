//! Store interfaces the session cipher persists through.
//!
//! These are the traits a deployment implements over its database; the
//! contracts state each call's effect on the store's abstract content, and
//! the cipher's own contracts are proved from them.
use vstd::prelude::*;
use crate::address::AddressValue;
use crate::address::ProtocolAddress;
use crate::curve::IdentityKey;
use crate::curve::IdentityKeyPair;
use crate::curve::PrivateKey;
use crate::state::RecordValue;
use crate::state::SessionRecord;

verus! {

/// Whether a trust decision concerns an outbound or an inbound message.
#[derive(Clone, Copy, PartialEq, Eq, Structural, Debug)]
pub enum Direction {
    Sending,
    Receiving,
}

/// Persistence of session records, keyed by address.
pub trait SessionStore {
    /// The records on disk. Left `arbitrary` by default: each implementation
    /// gives it meaning, and every caller treats it abstractly.
    open spec fn sessions(&self) -> Map<AddressValue, RecordValue> {
        arbitrary()
    }

    fn load_session(&self, address: &ProtocolAddress) -> (r: Option<SessionRecord>)
        ensures
            match r {
                Some(record) => self.sessions().contains_key(address@) && record@
                    == self.sessions()[address@],
                None => !self.sessions().contains_key(address@),
            },
    ;

    fn store_session(&mut self, address: &ProtocolAddress, record: &SessionRecord)
        ensures
            final(self).sessions() == old(self).sessions().insert(address@, record@),
    ;
}

/// Persistence of identity keys and the local identity, plus the trust
/// policy.
pub trait IdentityKeyStore {
    /// The remote identities on disk.
    open spec fn identities(&self) -> Map<AddressValue, IdentityKey> {
        arbitrary()
    }

    /// The local long-term identity.
    open spec fn local_identity(&self) -> IdentityKeyPair {
        arbitrary()
    }

    /// The local registration id.
    open spec fn local_registration_id(&self) -> u32 {
        arbitrary()
    }

    /// The store's trust decision for an identity seen in a direction.
    open spec fn trusts(&self, address: AddressValue, identity: IdentityKey, direction: Direction) -> bool {
        arbitrary()
    }

    fn get_identity_key_pair(&self) -> (r: IdentityKeyPair)
        ensures
            r == self.local_identity(),
    ;

    fn get_local_registration_id(&self) -> (r: u32)
        ensures
            r == self.local_registration_id(),
    ;

    fn is_trusted_identity(
        &self,
        address: &ProtocolAddress,
        identity: &IdentityKey,
        direction: Direction,
    ) -> (r: bool)
        ensures
            r == self.trusts(address@, *identity, direction),
    ;

    /// Record an identity; the result says whether it replaced a different
    /// one.
    fn save_identity(&mut self, address: &ProtocolAddress, identity: &IdentityKey) -> (r: bool)
        ensures
            final(self).identities() == old(self).identities().insert(address@, *identity),
            r == (old(self).identities().contains_key(address@)
                && old(self).identities()[address@] != *identity),
            final(self).local_identity() == old(self).local_identity(),
            final(self).local_registration_id() == old(self).local_registration_id(),
    ;
}

/// Persistence of one-time prekeys, keyed by id.
pub trait PreKeyStore {
    /// The one-time prekeys on disk.
    open spec fn pre_keys(&self) -> Map<u32, PrivateKey> {
        arbitrary()
    }

    fn get_pre_key(&self, id: u32) -> (r: Option<PrivateKey>)
        ensures
            match r {
                Some(key) => self.pre_keys().contains_key(id) && key == self.pre_keys()[id],
                None => !self.pre_keys().contains_key(id),
            },
    ;

    fn remove_pre_key(&mut self, id: u32)
        ensures
            final(self).pre_keys() == old(self).pre_keys().remove(id),
    ;
}

/// Persistence of signed prekeys, keyed by id; read only by the prekey
/// bootstrap.
pub trait SignedPreKeyStore {
    /// The signed prekeys on disk.
    open spec fn signed_pre_keys(&self) -> Map<u32, PrivateKey> {
        arbitrary()
    }

    fn get_signed_pre_key(&self, id: u32) -> (r: Option<PrivateKey>)
        ensures
            match r {
                Some(key) => self.signed_pre_keys().contains_key(id) && key
                    == self.signed_pre_keys()[id],
                None => !self.signed_pre_keys().contains_key(id),
            },
    ;
}

} // verus!
