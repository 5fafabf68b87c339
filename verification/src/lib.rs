//! Session cipher core of a Double Ratchet messaging protocol.
//!
//! Given an established pairwise session, [`session_cipher::message_encrypt`]
//! turns outbound plaintext into an authenticated envelope and
//! [`session_cipher::message_decrypt`] turns inbound envelopes back into
//! plaintext while advancing the ratchet state, tolerating reordered,
//! duplicated and dropped messages.
//!
//! The symmetric primitives in [`crypto`] and the key agreement in [`curve`]
//! are small deterministic stand-ins with fully stated contracts; the
//! ratcheting, skipped-key bookkeeping, session fallback and store ordering
//! around them are the verified subject of this crate.
use vstd::prelude::*;

pub mod address;
pub mod crypto;
pub mod curve;
pub mod errors;
pub mod laws;
pub mod logfmt;
pub mod protocol;
pub mod ratchet;
pub mod session;
pub mod session_cipher;
pub mod state;
pub mod storage;

verus! {

/// Upper bound on how many chain-key advancements one incoming message may
/// force; a counter further ahead than this is rejected.
pub const MAX_FORWARD_JUMPS: u32 = 2000;

/// Upper bound on skipped message keys retained per receiver chain; the
/// oldest entries are evicted beyond it.
pub const MAX_MESSAGE_KEYS: usize = 2000;

/// Upper bound on receiver chains retained per session state; the oldest
/// chains are evicted beyond it.
pub const MAX_RECEIVER_CHAINS: usize = 5;

} // verus!
