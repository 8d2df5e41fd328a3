//! The source-chain burn observation, and the pure normalization step that
//! turns the fields an indexer reports into one.
//!
//! Polling the indexer itself is I/O and lives outside the core; it hands
//! this module the raw text fields of the most recent burn.

use vstd::prelude::*;

use crate::bytes::{parse_u64_opt, parse_u64_spec};
use crate::errors::RelayError;
use crate::utils::{b64_decode, base64_decode_of};

verus! {

use vstd::string::StringSliceAdditionalSpecFns;

/// An observed value-destroying action on the source chain. The transaction
/// hash string is the sole deduplication key.
pub struct TonBurn {
    pub tx_hash_b64: String,
    pub lt: u64,
    pub utime: u64,
    pub jetton_master_raw: String,
    pub owner_raw: String,
    pub jetton_wallet_raw: String,
    pub amount_raw: String,
    pub custom_payload: Option<Vec<u8>>,
}

/// The mathematical view of a burn observation.
#[verifier::ext_equal]
pub ghost struct TonBurnView {
    pub tx_hash_b64: Seq<char>,
    pub lt: u64,
    pub utime: u64,
    pub jetton_master_raw: Seq<char>,
    pub owner_raw: Seq<char>,
    pub jetton_wallet_raw: Seq<char>,
    pub amount_raw: Seq<char>,
    pub custom_payload: Option<Seq<u8>>,
}

impl View for TonBurn {
    type V = TonBurnView;

    open spec fn view(&self) -> TonBurnView {
        TonBurnView {
            tx_hash_b64: self.tx_hash_b64@,
            lt: self.lt,
            utime: self.utime,
            jetton_master_raw: self.jetton_master_raw@,
            owner_raw: self.owner_raw@,
            jetton_wallet_raw: self.jetton_wallet_raw@,
            amount_raw: self.amount_raw@,
            custom_payload: match self.custom_payload {
                Some(ref v) => Some(v@),
                None => None,
            },
        }
    }
}

/// Builds a burn observation from the raw fields an indexer reports. The
/// logical time arrives as text: an observation whose logical time does not
/// parse is malformed — it is invalid and skipped, never attested under a
/// made-up sequence number. The optional payload arrives base64-encoded and
/// is dropped when it does not decode.
pub fn burn_from_parts(
    tx_hash_b64: String,
    transaction_lt: &str,
    transaction_now: u64,
    jetton_master: String,
    owner: String,
    jetton_wallet: String,
    amount: String,
    custom_payload_b64: Option<&str>,
) -> (r: Result<TonBurn, RelayError>)
    ensures
        match r {
            Ok(b) => {
                &&& parse_u64_spec(transaction_lt@) is Some
                &&& b@.lt == parse_u64_spec(transaction_lt@)->Some_0
                &&& b@.tx_hash_b64 == tx_hash_b64@
                &&& b@.utime == transaction_now
                &&& b@.jetton_master_raw == jetton_master@
                &&& b@.owner_raw == owner@
                &&& b@.jetton_wallet_raw == jetton_wallet@
                &&& b@.amount_raw == amount@
                &&& b@.custom_payload == match custom_payload_b64 {
                    None => None::<Seq<u8>>,
                    Some(s) => base64_decode_of(s@),
                }
            },
            Err(e) => e == RelayError::Invalid && parse_u64_spec(transaction_lt@) is None,
        },
{
    let lt = match parse_u64_opt(transaction_lt) {
        Some(v) => v,
        None => {
            return Err(RelayError::Invalid);
        },
    };
    let custom_payload = match custom_payload_b64 {
        None => None,
        Some(s) => b64_decode(s),
    };
    Ok(
        TonBurn {
            tx_hash_b64,
            lt,
            utime: transaction_now,
            jetton_master_raw: jetton_master,
            owner_raw: owner,
            jetton_wallet_raw: jetton_wallet,
            amount_raw: amount,
            custom_payload,
        },
    )
}

} // verus!
