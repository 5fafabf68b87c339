//! The error kinds of the session cipher.
use vstd::prelude::*;
use crate::address::AddressValue;
use crate::address::ProtocolAddress;

verus! {

#[derive(Debug)]
pub enum SignalProtocolError {
    /// No session record exists for an address where one is required.
    SessionNotFound,
    /// A session state lacks a required field.
    InvalidSessionStructure,
    /// The envelope's message version disagrees with the session's.
    UnrecognizedMessageVersion(u32),
    /// MAC verification failed.
    InvalidCiphertext,
    /// Catchall: no sender chain, a counter too far ahead, or no candidate
    /// state could decrypt.
    InvalidMessage(&'static str),
    /// The message key for this counter was already consumed; the fields are
    /// the chain's current index and the envelope's counter.
    DuplicatedMessage(u64, u32),
    /// The identity store denied trust for this address.
    UntrustedIdentity(ProtocolAddress),
    /// `message_decrypt` was called on an unsupported envelope kind.
    InvalidArgument(&'static str),
}

/// Abstract value of an error.
#[verifier::ext_equal]
pub ghost enum ErrorValue {
    SessionNotFound,
    InvalidSessionStructure,
    UnrecognizedMessageVersion(u32),
    InvalidCiphertext,
    InvalidMessage(Seq<char>),
    DuplicatedMessage(u64, u32),
    UntrustedIdentity(AddressValue),
    InvalidArgument(Seq<char>),
}

impl View for SignalProtocolError {
    type V = ErrorValue;

    open spec fn view(&self) -> ErrorValue {
        match self {
            SignalProtocolError::SessionNotFound => ErrorValue::SessionNotFound,
            SignalProtocolError::InvalidSessionStructure => ErrorValue::InvalidSessionStructure,
            SignalProtocolError::UnrecognizedMessageVersion(v) => ErrorValue::UnrecognizedMessageVersion(*v),
            SignalProtocolError::InvalidCiphertext => ErrorValue::InvalidCiphertext,
            SignalProtocolError::InvalidMessage(m) => ErrorValue::InvalidMessage(m.view()),
            SignalProtocolError::DuplicatedMessage(i, c) => ErrorValue::DuplicatedMessage(*i, *c),
            SignalProtocolError::UntrustedIdentity(a) => ErrorValue::UntrustedIdentity(a.view()),
            SignalProtocolError::InvalidArgument(m) => ErrorValue::InvalidArgument(m.view()),
        }
    }
}

/// The abstract value of a `Result` whose sides both have views.
pub open spec fn result_value<T: View, E: View>(r: Result<T, E>) -> Result<T::V, E::V> {
    match r {
        Ok(t) => Ok(t.view()),
        Err(e) => Err(e.view()),
    }
}

} // verus!
