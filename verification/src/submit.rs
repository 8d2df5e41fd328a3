//! Delivery of a signed attestation to the destination chain: what to send,
//! whether to send it, and how to react to the destination's answer.
//!
//! The transaction building and RPC mechanics live outside the core; this
//! module prepares the bytes and hash to deliver, refuses to re-submit an
//! attestation already marked `Submitted`, maps the destination's answer to
//! a status transition, and bounds the retry schedule.

use vstd::prelude::*;

use crate::attestations::{encode, encoded, sha256_of, TonToSolAttestationV1};
use crate::bytes::hex_of;
use crate::config::Cfg;
use crate::errors::RelayError;
use crate::ingest::ton_to_sol_domain;
use crate::repo::{att_index, store_update_status, store_wf, EventStore, RelayStatus};
use crate::utils::hex_encode32;

verus! {

/// How many delivery attempts the retry schedule allows.
pub const MAX_SUBMIT_ATTEMPTS: u32 = 5;

/// What the destination chain answered.
pub enum SubmitOutcome {
    /// The destination accepted the attestation; the reference names its
    /// transaction.
    Accepted(String),
    /// The destination definitively rejected the attestation (stale
    /// configuration, expired deadline, replayed nonce): terminal, never
    /// retried.
    Rejected(String),
    /// The destination could not be reached: transient, retried with
    /// backoff.
    Unavailable,
}

/// What the caller should do next after one delivery attempt.
#[derive(Clone, Copy, Debug, PartialEq, Eq, Structural)]
pub enum SubmitAction {
    /// Delivered; record it and stop.
    Done,
    /// Wait this many seconds, then try again.
    Retry(u64),
    /// Stop: either definitively rejected or out of attempts.
    GiveUp,
}

/// The payload one submission carries: the canonical bytes, their
/// domain-separated hash, and the hash as hex for logging and lookups.
pub struct PreparedSubmit {
    pub bytes: Vec<u8>,
    pub hash: [u8; 32],
    pub hash_hex: String,
}

/// Prepares a TON-to-Solana attestation for delivery to the bridge program
/// named by the configuration: its canonical bytes and their
/// domain-separated hash. Delivery itself is the destination adapter's work.
pub fn submit_ton_attestation(cfg: &Cfg, att: &TonToSolAttestationV1) -> (r: PreparedSubmit)
    ensures
        r.bytes@ == encoded(att@),
        r.hash@ == sha256_of(ton_to_sol_domain() + encoded(att@)),
        r.hash_hex@ == hex_of(r.hash@),
{
    let bytes = encode(att);
    let hash = crate::attestations::domain_hash("TON→SOL_BRIDGE_V1", bytes.as_slice());
    let hash_hex = hex_encode32(&hash);
    PreparedSubmit { bytes, hash, hash_hex }
}

/// Whether the attestation for an event key should be handed to the
/// destination at all: only one that is signed or marked retryable — never
/// one already `Submitted`, and never one that does not exist.
pub fn should_submit(store: &EventStore, src_tx: &str) -> (r: bool)
    ensures
        r == ({
            let i = att_index(store@.atts, src_tx@);
            i >= 0 && (store@.atts[i].status == RelayStatus::Signed || store@.atts[i].status
                == RelayStatus::SubmitFailed)
        }),
{
    match store.status_of(src_tx) {
        Some(RelayStatus::Signed) => true,
        Some(RelayStatus::SubmitFailed) => true,
        _ => false,
    }
}

/// The status a destination answer maps to: `Submitted` is terminal success;
/// both a definitive rejection and an unreachable destination leave the
/// record `SubmitFailed` (the rejection is surfaced to the caller through
/// the answer itself, and the retry schedule never retries it).
pub open spec fn status_of_outcome(o: SubmitOutcome) -> RelayStatus {
    match o {
        SubmitOutcome::Accepted(_) => RelayStatus::Submitted,
        SubmitOutcome::Rejected(_) => RelayStatus::SubmitFailed,
        SubmitOutcome::Unavailable => RelayStatus::SubmitFailed,
    }
}

/// Records the destination's answer for an event key: the relay record's
/// status becomes what `status_of_outcome` maps the answer to. Fails with
/// `Invalid` when no record exists, and with `Conflict` when the record is
/// already `Submitted` (terminal).
pub fn record_submit_outcome(store: &mut EventStore, src_tx: &str, outcome: &SubmitOutcome) -> (r:
    Result<(), RelayError>)
    requires
        store_wf(old(store)@),
    ensures
        store_wf(final(store)@),
        match store_update_status(old(store)@, src_tx@, status_of_outcome(*outcome)) {
            Ok(s2) => r == Ok::<(), RelayError>(()) && final(store)@ == s2,
            Err(e) => r == Err::<(), RelayError>(e) && final(store)@ == old(store)@,
        },
{
    let st = match outcome {
        SubmitOutcome::Accepted(_) => RelayStatus::Submitted,
        SubmitOutcome::Rejected(_) => RelayStatus::SubmitFailed,
        SubmitOutcome::Unavailable => RelayStatus::SubmitFailed,
    };
    store.update_status(src_tx, st)
}

/// The action one delivery answer calls for, on the attempt just made
/// (0-based): acceptance ends the work; a definitive rejection is never
/// retried; an unreachable destination is retried with exponential backoff
/// until the attempt bound is spent.
pub fn submit_decision(outcome: &SubmitOutcome, attempt: u32) -> (r: SubmitAction)
    ensures
        match *outcome {
            SubmitOutcome::Accepted(_) => r == SubmitAction::Done,
            SubmitOutcome::Rejected(_) => r == SubmitAction::GiveUp,
            SubmitOutcome::Unavailable => if attempt < MAX_SUBMIT_ATTEMPTS - 1 {
                r == SubmitAction::Retry(1u64 << ((attempt + 1) as u64))
            } else {
                r == SubmitAction::GiveUp
            },
        },
{
    match outcome {
        SubmitOutcome::Accepted(_) => SubmitAction::Done,
        SubmitOutcome::Rejected(_) => SubmitAction::GiveUp,
        SubmitOutcome::Unavailable => {
            if attempt < MAX_SUBMIT_ATTEMPTS - 1 {
                SubmitAction::Retry(1u64 << ((attempt + 1) as u64))
            } else {
                SubmitAction::GiveUp
            }
        },
    }
}

} // verus!
