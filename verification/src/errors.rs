use vstd::prelude::*;

verus! {

/// Error taxonomy of the relay core.
///
/// `Invalid` marks malformed or out-of-domain input data: the offending event
/// is skipped, never retried. `Conflict` reports a second attestation offered
/// for an event that already has one, or a forbidden status transition.
/// `Unavailable` is a transient store or network condition, retried with
/// backoff. `Corrupt` marks an unreadable store; `ConfigStale` a submission
/// rejected for a configuration hash mismatch. `Fatal` covers inconsistent key
/// material and other conditions the process must not proceed past.
#[derive(Clone, Copy, Debug, PartialEq, Eq, Structural)]
pub enum RelayError {
    Invalid,
    Conflict,
    Unavailable,
    Corrupt,
    ConfigStale,
    Fatal,
}

/// Rejection reasons of the attestation decoder.
#[derive(Clone, Copy, Debug, PartialEq, Eq, Structural)]
pub enum CodecError {
    /// The input ends before the record does.
    Truncated,
    /// The leading version byte is not a version this codec knows.
    UnknownVersion,
    /// An `Option` field carries a tag byte other than 0 or 1.
    BadOptionTag,
    /// Bytes remain after the record; a canonical encoding has none.
    TrailingBytes,
}

} // verus!
