//! One polling cycle's work after an event arrives: deduplicate against the
//! store, build the canonical attestation, hash and sign it, persist the
//! relay record as signed, advance the cursor, and publish a notification.
//!
//! Polling itself, and delivering the signed attestation to the destination
//! chain, are I/O and live outside the core; this module hands the caller a
//! fully signed artifact to deliver.

use vstd::prelude::*;

use crate::attestations::{
    domain_hash, encode, encoded, sha256_of, AttView, TonToSolAttestationV1,
};
use crate::bus::{bus_wf, queue_after_publish, AttestationNotice, Bus, NoticeView};
use crate::bytes::{dec_chars, hex_of, parse_u128_opt, parse_u128_spec, u64_to_dec};
use crate::errors::RelayError;
use crate::repo::{
    has_burn, store_insert_burn, store_save_att, store_set_cursor, store_wf, EventStore,
    InsertOutcome, RelayStatus,
};
use crate::signer::{ed25519_sig_of, ed25519_verifies, sign, Keypair};
use crate::ton_watcher::{TonBurn, TonBurnView};
use crate::utils::{b64_decode, base64_decode_of};

verus! {

use vstd::string::StringSliceAdditionalSpecFns;

/// The UTF-8 bytes of the domain label under which TON-to-Solana burn
/// attestations are hashed. The label's exact bytes are what deployed
/// verifiers reproduce, so it is kept as issued — arrow code point and all —
/// even though a plain-ASCII label would be the tidier choice.
pub open spec fn ton_to_sol_domain() -> Seq<u8> {
    ("TON→SOL_BRIDGE_V1").spec_bytes()
}

/// The record kind tag under which these attestations are stored.
pub open spec fn ton_to_sol_kind() -> Seq<char> {
    ("TON_TO_SOL")@
}

/// The stream key under which the watcher's cursor is kept.
pub open spec fn ton_cursor_key() -> Seq<char> {
    ("ton_last_lt")@
}

/// The placeholder jetton minter reference (workchain and account hash):
/// all zero until a concrete minter is configured.
pub fn ton_minter_wc_hash36_demo() -> (r: [u8; 36])
    ensures
        r@.len() == 36,
        forall|i: int| 0 <= i < 36 ==> r@[i] == 0u8,
{
    [0u8; 36]
}

/// What base58 decodes a string to, if anything.
pub uninterp spec fn base58_decode_of(s: Seq<char>) -> Option<Seq<u8>>;

/// Relies on `bs58::decode(..).into_vec()` (Bitcoin alphabet): decoding is a
/// pure function of the input text and either fails or yields its bytes.
#[verifier::external_body]
fn bs58_decode(s: &str) -> (r: Option<Vec<u8>>)
    ensures
        match r {
            Some(v) => base58_decode_of(s@) == Some(v@),
            None => base58_decode_of(s@) is None,
        },
{
    match bs58::decode(s).into_vec() {
        Ok(v) => Some(v),
        Err(_) => None,
    }
}

/// Decodes a base58 Solana public key, which must hold exactly 32 bytes.
pub fn dst_solana_pubkey_from_base58(s: &str) -> (r: Result<[u8; 32], RelayError>)
    ensures
        match r {
            Ok(a) => base58_decode_of(s@) == Some(a@),
            Err(e) => e == RelayError::Invalid && match base58_decode_of(s@) {
                None => true,
                Some(v) => v.len() != 32,
            },
        },
{
    let v = match bs58_decode(s) {
        Some(v) => v,
        None => {
            return Err(RelayError::Invalid);
        },
    };
    if v.len() != 32 {
        return Err(RelayError::Invalid);
    }
    let mut a: [u8; 32] = [0u8; 32];
    let mut i: usize = 0;
    while i < 32
        invariant
            i <= 32,
            v@.len() == 32,
            forall|k: int| 0 <= k < i ==> a@[k] == v@[k],
        decreases 32 - i,
    {
        a[i] = v[i];
        i = i + 1;
    }
    proof {
        assert(a@ =~= v@);
    }
    Ok(a)
}

/// The 32 provenance bytes an event identifier binds into its attestation:
/// identifiers that are base64 of exactly 32 bytes (TON transaction hashes)
/// pass through; any other unique identifier is bound via its SHA-256
/// digest, so the mapping is total and deterministic.
pub open spec fn tx_hash32_spec(id: Seq<char>) -> Seq<u8> {
    match base64_decode_of(id) {
        Some(v) => if v.len() == 32 {
            v
        } else {
            sha256_of(vstd::utf8::encode_utf8(id))
        },
        None => sha256_of(vstd::utf8::encode_utf8(id)),
    }
}

/// Computes the 32 provenance bytes for an event identifier.
pub fn tx_hash32_of_id(id: &str) -> (r: [u8; 32])
    ensures
        r@ == tx_hash32_spec(id@),
{
    match b64_decode(id) {
        Some(v) => {
            if v.len() == 32 {
                let mut a: [u8; 32] = [0u8; 32];
                let mut i: usize = 0;
                while i < 32
                    invariant
                        i <= 32,
                        v@.len() == 32,
                        forall|k: int| 0 <= k < i ==> a@[k] == v@[k],
                    decreases 32 - i,
                {
                    a[i] = v[i];
                    i = i + 1;
                }
                proof {
                    assert(a@ =~= v@);
                }
                return a;
            }
        },
        None => {},
    }
    sha256_of_str(id)
}

/// SHA-256 of a string's UTF-8 bytes.
fn sha256_of_str(id: &str) -> (r: [u8; 32])
    ensures
        r@ == sha256_of(vstd::utf8::encode_utf8(id@)),
{
    let b = id.as_bytes();
    let pre: Vec<u8> = Vec::new();
    proof {
        assert(pre@ + id.spec_bytes() =~= id.spec_bytes());
    }
    crate::attestations::sha256_concat(pre.as_slice(), b)
}

/// The attestation a well-formed burn observation determines, under the
/// given static configuration: version 1, nonce derived from the event's
/// logical time, the amount parsed from its decimal text, and the
/// provenance fields from the event. Meaningful when the amount parses: an
/// observation whose amount text is malformed or beyond `u128` is invalid
/// and never attested.
pub open spec fn built_att(
    b: TonBurnView,
    cfg_hash: Seq<u8>,
    minter: Seq<u8>,
    dst: Seq<u8>,
    decimals: u8,
) -> AttView {
    AttView {
        ver: 1,
        src_chain: 0,
        kind: 1,
        cfg_hash,
        nonce: b.lt,
        jetton_minter_ton: minter,
        amount_raw: parse_u128_spec(b.amount_raw)->Some_0,
        decimals_ton: decimals,
        dst_solana_pubkey: dst,
        min_sol_out: None,
        deadline_ts: None,
        tx_hash_ton: tx_hash32_spec(b.tx_hash_b64),
        lt_ton: b.lt,
        timestamp_ton: b.utime,
    }
}

/// Builds the attestation record for a burn observation whose amount text
/// is a well-formed decimal that fits `u128`.
pub fn build_attestation(
    burn: &TonBurn,
    cfg_hash: &[u8; 32],
    jetton_minter: &[u8; 36],
    dst_solana_pubkey: &[u8; 32],
    decimals: u8,
) -> (r: TonToSolAttestationV1)
    requires
        parse_u128_spec(burn@.amount_raw) is Some,
    ensures
        r@ == built_att(burn@, cfg_hash@, jetton_minter@, dst_solana_pubkey@, decimals),
{
    let amount_raw = match parse_u128_opt(burn.amount_raw.as_str()) {
        Some(v) => v,
        None => 0u128,  // unreachable: the precondition makes the parse succeed
    };
    let tx_hash_ton = tx_hash32_of_id(burn.tx_hash_b64.as_str());
    let r = TonToSolAttestationV1 {
        ver: 1,
        src_chain: 0,
        kind: 1,
        cfg_hash: *cfg_hash,
        nonce: burn.lt,
        jetton_minter_ton: *jetton_minter,
        amount_raw,
        decimals_ton: decimals,
        dst_solana_pubkey: *dst_solana_pubkey,
        min_sol_out: None,
        deadline_ts: None,
        tx_hash_ton,
        lt_ton: burn.lt,
        timestamp_ton: burn.utime,
    };
    proof {
        assert(r@ =~= built_att(burn@, cfg_hash@, jetton_minter@, dst_solana_pubkey@, decimals));
    }
    r
}

/// A fully signed attestation, ready for delivery to the destination chain.
#[derive(Debug)]
pub struct SignedAttestation {
    pub att: TonToSolAttestationV1,
    pub bytes: Vec<u8>,
    pub hash: [u8; 32],
    pub hash_hex: String,
    pub signature: [u8; 64],
}

/// What one polling cycle yielded for an observed event.
#[derive(Debug)]
pub enum IngestOutcome {
    /// The event was seen before; nothing changed.
    Duplicate,
    /// The event was new: its attestation was signed and persisted.
    Ingested(SignedAttestation),
}

/// The notification one ingested burn publishes.
pub open spec fn ingest_notice(b: TonBurnView, hash_hex: Seq<char>) -> NoticeView {
    NoticeView {
        kind: ton_to_sol_kind(),
        hash_hex,
        src_tx: b.tx_hash_b64,
        lt: b.lt,
        utime: b.utime,
        amount_raw: b.amount_raw,
    }
}

/// Ingests one observed burn. An event whose amount text is malformed or
/// beyond `u128` is out of domain: the cycle returns `Invalid` and skips it —
/// nothing stored, no cursor write, no notification — since re-processing
/// would reproduce the same malformed input. Otherwise the event is
/// deduplicated by its transaction identifier; a re-observed event is a
/// `Duplicate` and changes nothing. For a new event the attestation is
/// built, hashed, signed and persisted (status `Signed`), the cursor
/// advances to the event's logical time, and one notification is published.
/// The remaining failure is a `Conflict`: an attestation already stored
/// under this key although the event itself was new.
pub fn ingest_burn(
    store: &mut EventStore,
    bus: &mut Bus,
    kp: &Keypair,
    cfg_hash: &[u8; 32],
    jetton_minter: &[u8; 36],
    dst_solana_pubkey: &[u8; 32],
    decimals: u8,
    burn: &TonBurn,
) -> (r: Result<IngestOutcome, RelayError>)
    requires
        kp.wf(),
        store_wf(old(store)@),
        old(store)@.burns.len() < 0x7fff_ffff_ffff_ffff,
        old(store)@.atts.len() < 0x7fff_ffff_ffff_ffff,
        bus_wf(old(bus)@),
    ensures
        store_wf(final(store)@),
        bus_wf(final(bus)@),
        final(bus)@.capacity == old(bus)@.capacity,
        final(bus)@.queues.len() == old(bus)@.queues.len(),
        ({
            let key = burn@.tx_hash_b64;
            let s1 = store_insert_burn(old(store)@, burn@);
            let att = built_att(burn@, cfg_hash@, jetton_minter@, dst_solana_pubkey@, decimals);
            let bytes = encoded(att);
            let hash = sha256_of(ton_to_sol_domain() + bytes);
            let hhex = hex_of(hash);
            if parse_u128_spec(burn@.amount_raw) is None {
                &&& r == Err::<IngestOutcome, RelayError>(RelayError::Invalid)
                &&& final(store)@ == old(store)@
                &&& final(bus)@ == old(bus)@
            } else if has_burn(old(store)@, key) {
                &&& (match r {
                    Ok(IngestOutcome::Duplicate) => true,
                    _ => false,
                })
                &&& final(store)@ == old(store)@
                &&& final(bus)@ == old(bus)@
            } else {
                match store_save_att(s1, ton_to_sol_kind(), bytes, hhex, Some(key),
                    RelayStatus::Signed) {
                    Err(e) => {
                        &&& r == Err::<IngestOutcome, RelayError>(e)
                        &&& final(store)@ == s1
                        &&& final(bus)@ == old(bus)@
                    },
                    Ok(s2) => {
                        &&& final(store)@ == store_set_cursor(
                            s2,
                            ton_cursor_key(),
                            dec_chars(burn@.lt as nat),
                        )
                        &&& (forall|i: int|
                            0 <= i < old(bus)@.queues.len() ==> (#[trigger] final(bus)@.queues[i])
                                == queue_after_publish(
                                old(bus)@.queues[i],
                                ingest_notice(burn@, hhex),
                                old(bus)@.capacity,
                            ))
                        &&& match r {
                            Ok(IngestOutcome::Ingested(sa)) => {
                                &&& sa.att@ == att
                                &&& sa.bytes@ == bytes
                                &&& sa.hash@ == hash
                                &&& sa.hash_hex@ == hhex
                                &&& sa.signature@ == ed25519_sig_of(kp@.secret, hash)
                                &&& ed25519_verifies(kp@.public, hash, sa.signature@)
                            },
                            _ => false,
                        }
                    },
                }
            }
        }),
{
    if parse_u128_opt(burn.amount_raw.as_str()).is_none() {
        return Err(RelayError::Invalid);
    }
    match store.insert_event_if_new(burn) {
        InsertOutcome::AlreadyPresent => {
            return Ok(IngestOutcome::Duplicate);
        },
        InsertOutcome::Inserted => {},
    }
    let att = build_attestation(burn, cfg_hash, jetton_minter, dst_solana_pubkey, decimals);
    let bytes = encode(&att);
    let hash = domain_hash("TON→SOL_BRIDGE_V1", bytes.as_slice());
    let hash_hex = crate::utils::hex_encode32(&hash);
    let signature = sign(&hash, kp);
    match store.save_attestation(
        Some(burn.tx_hash_b64.as_str()),
        "TON_TO_SOL",
        bytes.as_slice(),
        hash_hex.as_str(),
        RelayStatus::Signed,
    ) {
        Ok(_) => {},
        Err(e) => {
            return Err(e);
        },
    }
    let lt_text = u64_to_dec(burn.lt);
    store.set_cursor("ton_last_lt", lt_text.as_str());
    let notice = AttestationNotice {
        kind: "TON_TO_SOL".to_owned(),
        hash_hex: hash_hex.clone(),
        src_tx: burn.tx_hash_b64.clone(),
        lt: burn.lt,
        utime: burn.utime,
        amount_raw: burn.amount_raw.clone(),
    };
    proof {
        assert(notice@ =~= ingest_notice(burn@, hash_hex@));
    }
    bus.publish(&notice);
    Ok(IngestOutcome::Ingested(SignedAttestation { att, bytes, hash, hash_hex, signature }))
}

} // verus!
