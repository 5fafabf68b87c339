//! Session records and session states: the mutable ratchet state of one
//! pairwise conversation.
use vstd::prelude::*;
use crate::curve::IdentityKey;
use crate::curve::PrivateKey;
use crate::curve::PublicKey;
use crate::ratchet::ChainKey;
use crate::ratchet::MessageKeys;
use crate::ratchet::RootKey;
use crate::MAX_MESSAGE_KEYS;
use crate::MAX_RECEIVER_CHAINS;

verus! {

/// The sender half of the ratchet: the local ratchet key pair and the chain
/// that outbound message keys are drawn from.
#[derive(Clone, Copy, PartialEq, Eq, Structural, Debug)]
pub struct SenderChain {
    pub ratchet_public: PublicKey,
    pub ratchet_private: PrivateKey,
    pub chain_key: ChainKey,
}

/// Prekey-handshake fields the peer has not yet acknowledged; while present,
/// outbound messages are wrapped as prekey envelopes.
#[derive(Clone, Copy, Debug)]
pub struct UnacknowledgedPreKey {
    pub pre_key_id: Option<u32>,
    pub signed_pre_key_id: u32,
    pub base_key: PublicKey,
}

/// One inbound chain: the peer ratchet key it is keyed by, its current chain
/// key, and the cache of skipped message keys (newest first).
#[derive(Debug)]
pub struct ReceiverChain {
    pub ratchet_key: PublicKey,
    pub chain_key: ChainKey,
    pub skipped: Vec<MessageKeys>,
}

#[verifier::ext_equal]
pub ghost struct ReceiverChainValue {
    pub ratchet_key: PublicKey,
    pub chain_key: ChainKey,
    pub skipped: Seq<MessageKeys>,
}

impl View for ReceiverChain {
    type V = ReceiverChainValue;

    open spec fn view(&self) -> ReceiverChainValue {
        ReceiverChainValue {
            ratchet_key: self.ratchet_key,
            chain_key: self.chain_key,
            skipped: self.skipped@,
        }
    }
}

/// Copy the elements of a vector of plain values.
fn clone_copy_vec<T: Copy>(v: &Vec<T>) -> (r: Vec<T>)
    ensures
        r@ == v@,
{
    let mut out: Vec<T> = Vec::new();
    let mut i: usize = 0;
    while i < v.len()
        invariant
            i <= v.len(),
            out@ =~= v@.take(i as int),
        decreases v.len() - i,
    {
        out.push(v[i]);
        i = i + 1;
    }
    proof {
        assert(out@ =~= v@);
    }
    out
}

impl Clone for ReceiverChain {
    fn clone(&self) -> (r: Self)
        ensures
            r@ == self@,
    {
        ReceiverChain {
            ratchet_key: self.ratchet_key,
            chain_key: self.chain_key,
            skipped: clone_copy_vec(&self.skipped),
        }
    }
}

/// The full Double Ratchet state for one direction-pair.
#[derive(Debug)]
pub struct SessionState {
    pub session_version: u32,
    pub local_identity: IdentityKey,
    pub remote_identity: Option<IdentityKey>,
    pub root_key: RootKey,
    pub previous_counter: u32,
    pub sender_chain: Option<SenderChain>,
    pub receiver_chains: Vec<ReceiverChain>,
    pub pending_pre_key: Option<UnacknowledgedPreKey>,
    /// The base key the session's initiator introduced itself with; lets a
    /// redelivered prekey envelope be recognized as already processed.
    pub initiator_base_key: PublicKey,
    pub local_registration_id: u32,
    pub remote_registration_id: u32,
}

#[verifier::ext_equal]
pub ghost struct StateValue {
    pub session_version: u32,
    pub local_identity: IdentityKey,
    pub remote_identity: Option<IdentityKey>,
    pub root_key: RootKey,
    pub previous_counter: u32,
    pub sender_chain: Option<SenderChain>,
    pub receiver_chains: Seq<ReceiverChainValue>,
    pub pending_pre_key: Option<UnacknowledgedPreKey>,
    pub initiator_base_key: PublicKey,
    pub local_registration_id: u32,
    pub remote_registration_id: u32,
}

impl View for SessionState {
    type V = StateValue;

    open spec fn view(&self) -> StateValue {
        StateValue {
            session_version: self.session_version,
            local_identity: self.local_identity,
            remote_identity: self.remote_identity,
            root_key: self.root_key,
            previous_counter: self.previous_counter,
            sender_chain: self.sender_chain,
            receiver_chains: self.receiver_chains@.map_values(|c: ReceiverChain| c@),
            pending_pre_key: self.pending_pre_key,
            initiator_base_key: self.initiator_base_key,
            local_registration_id: self.local_registration_id,
            remote_registration_id: self.remote_registration_id,
        }
    }
}

impl Clone for SessionState {
    fn clone(&self) -> (r: Self)
        ensures
            r@ == self@,
    {
        let mut chains: Vec<ReceiverChain> = Vec::new();
        let mut i: usize = 0;
        while i < self.receiver_chains.len()
            invariant
                i <= self.receiver_chains.len(),
                chains@.len() == i,
                forall|j: int| 0 <= j < i ==> chains@[j]@ == self.receiver_chains@[j]@,
            decreases self.receiver_chains.len() - i,
        {
            chains.push(self.receiver_chains[i].clone());
            i = i + 1;
        }
        let r = SessionState {
            session_version: self.session_version,
            local_identity: self.local_identity,
            remote_identity: self.remote_identity,
            root_key: self.root_key,
            previous_counter: self.previous_counter,
            sender_chain: self.sender_chain,
            receiver_chains: chains,
            pending_pre_key: self.pending_pre_key,
            initiator_base_key: self.initiator_base_key,
            local_registration_id: self.local_registration_id,
            remote_registration_id: self.remote_registration_id,
        };
        proof {
            assert(r@.receiver_chains =~= self@.receiver_chains);
            assert(r@ =~= self@);
        }
        r
    }
}

/// Position of the first receiver chain keyed by `k`.
pub open spec fn chain_pos(chains: Seq<ReceiverChainValue>, k: PublicKey) -> Option<int>
    decreases chains.len(),
{
    if chains.len() == 0 {
        None
    } else if chains[0].ratchet_key == k {
        Some(0int)
    } else {
        match chain_pos(chains.drop_first(), k) {
            Some(i) => Some(i + 1),
            None => None,
        }
    }
}

pub proof fn lemma_chain_pos(chains: Seq<ReceiverChainValue>, k: PublicKey)
    ensures
        match chain_pos(chains, k) {
            Some(i) => 0 <= i < chains.len() && chains[i].ratchet_key == k && forall|j: int|
                0 <= j < i ==> chains[j].ratchet_key != k,
            None => forall|j: int| 0 <= j < chains.len() ==> chains[j].ratchet_key != k,
        },
    decreases chains.len(),
{
    if chains.len() > 0 && chains[0].ratchet_key != k {
        let tail = chains.drop_first();
        lemma_chain_pos(tail, k);
        assert forall|j: int| 0 < j < chains.len() implies chains[j] == tail[j - 1] by {}
    }
}

/// Position of the first skipped message key for `counter`.
pub open spec fn skipped_pos(skipped: Seq<MessageKeys>, counter: u32) -> Option<int>
    decreases skipped.len(),
{
    if skipped.len() == 0 {
        None
    } else if skipped[0].counter == counter {
        Some(0int)
    } else {
        match skipped_pos(skipped.drop_first(), counter) {
            Some(i) => Some(i + 1),
            None => None,
        }
    }
}

pub proof fn lemma_skipped_pos(skipped: Seq<MessageKeys>, counter: u32)
    ensures
        match skipped_pos(skipped, counter) {
            Some(i) => 0 <= i < skipped.len() && skipped[i].counter == counter && forall|j: int|
                0 <= j < i ==> skipped[j].counter != counter,
            None => forall|j: int| 0 <= j < skipped.len() ==> skipped[j].counter != counter,
        },
    decreases skipped.len(),
{
    if skipped.len() > 0 && skipped[0].counter != counter {
        let tail = skipped.drop_first();
        lemma_skipped_pos(tail, counter);
        assert forall|j: int| 0 < j < skipped.len() implies skipped[j] == tail[j - 1] by {}
    }
}

/// A skipped-key cache with `m` pushed at the front, the oldest entry evicted
/// beyond the bound.
pub open spec fn spec_push_skipped(skipped: Seq<MessageKeys>, m: MessageKeys) -> Seq<MessageKeys> {
    let grown = seq![m] + skipped;
    if grown.len() > MAX_MESSAGE_KEYS {
        grown.take(MAX_MESSAGE_KEYS as int)
    } else {
        grown
    }
}

/// A chain list with a chain for `k` at the front, the oldest chain evicted
/// beyond the bound.
pub open spec fn spec_add_chain(
    chains: Seq<ReceiverChainValue>,
    k: PublicKey,
    ck: ChainKey,
) -> Seq<ReceiverChainValue> {
    let grown = seq![ReceiverChainValue { ratchet_key: k, chain_key: ck, skipped: Seq::empty() }]
        + chains;
    if grown.len() > MAX_RECEIVER_CHAINS {
        grown.take(MAX_RECEIVER_CHAINS as int)
    } else {
        grown
    }
}

impl StateValue {
    /// This state with its receiver chains replaced.
    pub open spec fn with_chains(self, chains: Seq<ReceiverChainValue>) -> StateValue {
        StateValue { receiver_chains: chains, ..self }
    }

    pub open spec fn chain_pos_of(self, k: PublicKey) -> Option<int> {
        chain_pos(self.receiver_chains, k)
    }
}

impl SessionState {
    /// Whether outbound and ratchet operations are possible at all.
    pub fn has_sender_chain(&self) -> (r: bool)
        ensures
            r == self@.sender_chain is Some,
    {
        self.sender_chain.is_some()
    }

    /// Index of the receiver chain keyed by `k`, if one exists.
    pub fn find_receiver_chain(&self, k: &PublicKey) -> (r: Option<usize>)
        ensures
            match r {
                Some(i) => i < self.receiver_chains@.len() && self@.chain_pos_of(*k) == Some(
                    i as int,
                ),
                None => self@.chain_pos_of(*k) is None,
            },
    {
        let mut i: usize = 0;
        while i < self.receiver_chains.len()
            invariant
                i <= self.receiver_chains.len(),
                forall|j: int| 0 <= j < i ==> self@.receiver_chains[j].ratchet_key != *k,
            decreases self.receiver_chains.len() - i,
        {
            if self.receiver_chains[i].ratchet_key == *k {
                proof {
                    let chains = self@.receiver_chains;
                    lemma_chain_pos(chains, *k);
                    assert(chains[i as int] == self.receiver_chains@[i as int]@);
                    assert(chains[i as int].ratchet_key == *k);
                    if chain_pos(chains, *k) is None {
                        assert(chains[i as int].ratchet_key != *k);
                        assert(false);
                    } else {
                        let p = chain_pos(chains, *k)->Some_0;
                        if p < i as int {
                            assert(chains[p].ratchet_key != *k);
                            assert(false);
                        }
                        if (i as int) < p {
                            assert(chains[i as int].ratchet_key != *k);
                            assert(false);
                        }
                    }
                }
                return Some(i);
            }
            i = i + 1;
        }
        proof {
            lemma_chain_pos(self@.receiver_chains, *k);
        }
        None
    }

    /// Install a new receiver chain for `k` at the front, evicting the oldest
    /// chain beyond the bound.
    pub fn add_receiver_chain(&mut self, k: PublicKey, ck: ChainKey)
        ensures
            final(self)@ == old(self)@.with_chains(
                spec_add_chain(old(self)@.receiver_chains, k, ck),
            ),
    {
        let chain = ReceiverChain { ratchet_key: k, chain_key: ck, skipped: Vec::new() };
        self.receiver_chains.insert(0, chain);
        if self.receiver_chains.len() > MAX_RECEIVER_CHAINS {
            self.receiver_chains.truncate(MAX_RECEIVER_CHAINS);
        }
        proof {
            assert(self@.receiver_chains =~= spec_add_chain(old(self)@.receiver_chains, k, ck));
            assert(self@ =~= old(self)@.with_chains(
                spec_add_chain(old(self)@.receiver_chains, k, ck),
            ));
        }
    }

    /// Replace the chain key of the receiver chain at `i`.
    pub fn set_chain_key(&mut self, i: usize, ck: ChainKey)
        requires
            i < old(self).receiver_chains@.len(),
        ensures
            final(self)@ == old(self)@.with_chains(
                old(self)@.receiver_chains.update(
                    i as int,
                    ReceiverChainValue { chain_key: ck, ..old(self)@.receiver_chains[i as int] },
                ),
            ),
    {
        let mut chain = self.receiver_chains.remove(i);
        chain.chain_key = ck;
        self.receiver_chains.insert(i, chain);
        proof {
            assert(self@.receiver_chains =~= old(self)@.receiver_chains.update(
                i as int,
                ReceiverChainValue { chain_key: ck, ..old(self)@.receiver_chains[i as int] },
            ));
            assert(self@ =~= old(self)@.with_chains(self@.receiver_chains));
        }
    }

    /// Store a skipped message key on the chain at `i` (newest first, oldest
    /// evicted beyond the bound).
    pub fn push_skipped(&mut self, i: usize, m: MessageKeys)
        requires
            i < old(self).receiver_chains@.len(),
        ensures
            final(self)@ == old(self)@.with_chains(
                old(self)@.receiver_chains.update(
                    i as int,
                    ReceiverChainValue {
                        skipped: spec_push_skipped(
                            old(self)@.receiver_chains[i as int].skipped,
                            m,
                        ),
                        ..old(self)@.receiver_chains[i as int]
                    },
                ),
            ),
    {
        let mut chain = self.receiver_chains.remove(i);
        chain.skipped.insert(0, m);
        if chain.skipped.len() > MAX_MESSAGE_KEYS {
            chain.skipped.truncate(MAX_MESSAGE_KEYS);
        }
        proof {
            assert(chain@.skipped =~= spec_push_skipped(
                old(self)@.receiver_chains[i as int].skipped,
                m,
            ));
        }
        self.receiver_chains.insert(i, chain);
        proof {
            assert(self@.receiver_chains =~= old(self)@.receiver_chains.update(
                i as int,
                ReceiverChainValue {
                    skipped: spec_push_skipped(old(self)@.receiver_chains[i as int].skipped, m),
                    ..old(self)@.receiver_chains[i as int]
                },
            ));
            assert(self@ =~= old(self)@.with_chains(self@.receiver_chains));
        }
    }

    /// Remove and return the skipped message key for `counter` on the chain
    /// at `i`, if it is cached.
    pub fn take_skipped(&mut self, i: usize, counter: u32) -> (r: Option<MessageKeys>)
        requires
            i < old(self).receiver_chains@.len(),
        ensures
            match skipped_pos(old(self)@.receiver_chains[i as int].skipped, counter) {
                Some(j) => r == Some(old(self)@.receiver_chains[i as int].skipped[j])
                    && final(self)@ == old(self)@.with_chains(
                    old(self)@.receiver_chains.update(
                        i as int,
                        ReceiverChainValue {
                            skipped: old(self)@.receiver_chains[i as int].skipped.remove(j),
                            ..old(self)@.receiver_chains[i as int]
                        },
                    ),
                ),
                None => r is None && final(self)@ == old(self)@,
            },
    {
        proof {
            lemma_skipped_pos(old(self)@.receiver_chains[i as int].skipped, counter);
        }
        let mut chain = self.receiver_chains.remove(i);
        let ghost skipped0 = chain@.skipped;
        let mut j: usize = 0;
        while j < chain.skipped.len() && chain.skipped[j].counter != counter
            invariant
                j <= chain.skipped.len(),
                chain@.skipped == skipped0,
                forall|t: int| 0 <= t < j ==> skipped0[t].counter != counter,
            decreases chain.skipped.len() - j,
        {
            j = j + 1;
        }
        let r = if j < chain.skipped.len() {
            Some(chain.skipped.remove(j))
        } else {
            None
        };
        self.receiver_chains.insert(i, chain);
        proof {
            match skipped_pos(skipped0, counter) {
                Some(p) => {
                    assert(self@.receiver_chains =~= old(self)@.receiver_chains.update(
                        i as int,
                        ReceiverChainValue {
                            skipped: skipped0.remove(p),
                            ..old(self)@.receiver_chains[i as int]
                        },
                    ));
                    assert(self@ =~= old(self)@.with_chains(self@.receiver_chains));
                },
                None => {
                    assert(self@.receiver_chains =~= old(self)@.receiver_chains);
                    assert(self@ =~= old(self)@);
                },
            }
        }
        r
    }
}

/// A container of one current state plus archived fallback states, most
/// recent first.
#[derive(Debug)]
pub struct SessionRecord {
    pub current: Option<SessionState>,
    pub previous: Vec<SessionState>,
}

#[verifier::ext_equal]
pub ghost struct RecordValue {
    pub current: Option<StateValue>,
    pub previous: Seq<StateValue>,
}

impl View for SessionRecord {
    type V = RecordValue;

    open spec fn view(&self) -> RecordValue {
        RecordValue {
            current: match self.current {
                Some(s) => Some(s@),
                None => None,
            },
            previous: self.previous@.map_values(|s: SessionState| s@),
        }
    }
}

impl Clone for SessionRecord {
    fn clone(&self) -> (r: Self)
        ensures
            r@ == self@,
    {
        let current = match &self.current {
            Some(s) => Some(s.clone()),
            None => None,
        };
        let mut previous: Vec<SessionState> = Vec::new();
        let mut i: usize = 0;
        while i < self.previous.len()
            invariant
                i <= self.previous.len(),
                previous@.len() == i,
                forall|j: int| 0 <= j < i ==> previous@[j]@ == self.previous@[j]@,
            decreases self.previous.len() - i,
        {
            previous.push(self.previous[i].clone());
            i = i + 1;
        }
        let r = SessionRecord { current, previous };
        proof {
            assert(r@.previous =~= self@.previous);
            assert(r@ =~= self@);
        }
        r
    }
}

impl RecordValue {
    /// The record after an archived state at `i` is promoted to current: the
    /// formerly current state moves to the archive head.
    pub open spec fn promote(self, i: int, s: StateValue) -> RecordValue {
        RecordValue {
            current: Some(s),
            previous: (match self.current {
                Some(c) => seq![c],
                None => Seq::empty(),
            }) + self.previous.remove(i),
        }
    }
}

/// Whether a state belongs to the session a given initiator base key opened,
/// at a given version.
pub open spec fn state_matches_session(s: StateValue, version: u32, base_key: PublicKey) -> bool {
    s.session_version == version && s.initiator_base_key == base_key
}

/// Whether any state of the record belongs to that session.
pub open spec fn spec_has_session(r: RecordValue, version: u32, base_key: PublicKey) -> bool {
    (match r.current {
        Some(c) => state_matches_session(c, version, base_key),
        None => false,
    }) || exists|i: int| 0 <= i < r.previous.len() && state_matches_session(
        #[trigger] r.previous[i],
        version,
        base_key,
    )
}

impl SessionRecord {
    /// Whether some state of this record (current or archived) was opened by
    /// `base_key` at `version`.
    pub fn has_session_state(&self, version: u32, base_key: &PublicKey) -> (r: bool)
        ensures
            r == spec_has_session(self@, version, *base_key),
    {
        match &self.current {
            Some(c) => {
                if c.session_version == version && c.initiator_base_key == *base_key {
                    return true;
                }
            },
            None => {},
        }
        let mut i: usize = 0;
        while i < self.previous.len()
            invariant
                i <= self.previous@.len(),
                forall|j: int| 0 <= j < i ==> !state_matches_session(
                    #[trigger] self@.previous[j],
                    version,
                    *base_key,
                ),
            decreases self.previous@.len() - i,
        {
            if self.previous[i].session_version == version && self.previous[i].initiator_base_key
                == *base_key {
                proof {
                    assert(state_matches_session(self@.previous[i as int], version, *base_key));
                }
                return true;
            }
            i = i + 1;
        }
        false
    }

    /// Install `s` as the current state, moving the formerly current state to
    /// the archive head.
    pub fn promote_state(&mut self, s: SessionState)
        ensures
            final(self)@ == (RecordValue {
                current: Some(s@),
                previous: (match old(self)@.current {
                    Some(c) => seq![c],
                    None => Seq::empty(),
                }) + old(self)@.previous,
            }),
    {
        let displaced = self.current.take();
        match displaced {
            Some(c) => {
                self.previous.insert(0, c);
            },
            None => {},
        }
        self.current = Some(s);
        proof {
            assert(self@.previous =~= (match old(self)@.current {
                Some(c) => seq![c],
                None => Seq::<StateValue>::empty(),
            }) + old(self)@.previous);
            assert(self@ =~= RecordValue {
                current: Some(s@),
                previous: self@.previous,
            });
        }
    }

    /// An empty record, holding no session state yet.
    pub fn new_fresh() -> (r: SessionRecord)
        ensures
            r@ == (RecordValue { current: None, previous: Seq::empty() }),
    {
        let r = SessionRecord { current: None, previous: Vec::new() };
        proof {
            assert(r@ =~= RecordValue { current: None, previous: Seq::empty() });
        }
        r
    }

    /// Replace the current state, leaving the archive untouched.
    pub fn set_session_state(&mut self, s: SessionState)
        ensures
            final(self)@ == (RecordValue { current: Some(s@), ..old(self)@ }),
    {
        self.current = Some(s);
        proof {
            assert(self@ =~= RecordValue { current: Some(s@), ..old(self)@ });
        }
    }

    /// Promote the archived state at `idx`, installing `updated` (its mutated
    /// copy) as current and moving the formerly current state to the archive
    /// head.
    pub fn promote_old_session(&mut self, idx: usize, updated: SessionState)
        requires
            idx < old(self).previous@.len(),
        ensures
            final(self)@ == old(self)@.promote(idx as int, updated@),
    {
        let _removed = self.previous.remove(idx);
        let displaced = self.current.take();
        match displaced {
            Some(c) => {
                self.previous.insert(0, c);
            },
            None => {},
        }
        self.current = Some(updated);
        proof {
            assert(self@.previous =~= old(self)@.promote(idx as int, updated@).previous);
            assert(self@ =~= old(self)@.promote(idx as int, updated@));
        }
    }
}

} // verus!
