//! End-to-end ingestion scenarios: one burn observation in, one signed
//! attestation, one relay record, one cursor write, one notification out.

use base64::Engine as _;
use bridge_relayer::bus::Bus;
use bridge_relayer::errors::RelayError;
use bridge_relayer::ingest::{ingest_burn, ton_minter_wc_hash36_demo, IngestOutcome};
use bridge_relayer::repo::{EventStore, InsertOutcome, RelayStatus};
use bridge_relayer::signer::{load_keypair_base64, verify_signature, Keypair};
use bridge_relayer::submit::{record_submit_outcome, should_submit, SubmitOutcome};
use bridge_relayer::ton_watcher::TonBurn;
use sha2::{Digest, Sha256};

fn test_keypair() -> Keypair {
    let seed = [0x42u8; 32];
    let b64 = base64::engine::general_purpose::STANDARD.encode(seed);
    match load_keypair_base64(&b64) {
        Ok(kp) => kp,
        Err(e) => panic!("key rejected: {e:?}"),
    }
}

fn burn(tx: &str, amount: &str, lt: u64) -> TonBurn {
    TonBurn {
        tx_hash_b64: tx.to_owned(),
        lt,
        utime: 1_700_000_000,
        jetton_master_raw: "0:master".to_owned(),
        owner_raw: "0:owner".to_owned(),
        jetton_wallet_raw: "0:wallet".to_owned(),
        amount_raw: amount.to_owned(),
        custom_payload: None,
    }
}

#[test]
fn end_to_end_single_burn() {
    let mut store = EventStore::new();
    let mut bus = Bus::new(16);
    let sub = bus.subscribe();
    let kp = test_keypair();
    let cfg_hash = [7u8; 32];
    let minter = ton_minter_wc_hash36_demo();
    let dst_key = [5u8; 32];

    let e = burn("tx_1", "123000000", 77);
    let out = ingest_burn(&mut store, &mut bus, &kp, &cfg_hash, &minter, &dst_key, 9, &e).unwrap();
    let sa = match out {
        IngestOutcome::Ingested(sa) => sa,
        IngestOutcome::Duplicate => panic!("first observation must not be a duplicate"),
    };

    // exactly one attestation, version 1, nonce derived from the event
    assert_eq!(sa.att.ver, 1);
    assert_eq!(sa.att.nonce, 77);
    assert_eq!(sa.att.amount_raw, 123_000_000u128);
    assert_eq!(sa.att.decimals_ton, 9);
    assert_eq!(sa.att.dst_solana_pubkey, dst_key);
    assert_eq!(sa.hash.len(), 32);
    assert_eq!(sa.signature.len(), 64);
    assert!(verify_signature(&kp.public_bytes(), &sa.hash, &sa.signature));
    assert_eq!(sa.hash_hex, hex::encode(sa.hash));

    // one relay record, stored as Signed, then marked after submission
    let records = store.list_attestations(-1);
    assert_eq!(records.len(), 1);
    assert_eq!(records[0].kind, "TON_TO_SOL");
    assert_eq!(records[0].src_tx_hash_b64.as_deref(), Some("tx_1"));
    assert_eq!(records[0].payload_hash_hex, sa.hash_hex);

    // the cursor advanced to the event's logical time
    assert_eq!(store.get_cursor("ton_last_lt").as_deref(), Some("77"));

    // delivery: either accepted or failed, one terminal record either way
    assert!(should_submit(&store, "tx_1"));
    record_submit_outcome(&mut store, "tx_1", &SubmitOutcome::Accepted("sig0".to_owned()))
        .unwrap();
    assert!(!should_submit(&store, "tx_1"));

    // exactly one bus message referencing the transaction
    let msgs = bus.drain(sub);
    assert_eq!(msgs.len(), 1);
    assert_eq!(msgs[0].kind, "TON_TO_SOL");
    assert_eq!(msgs[0].src_tx, "tx_1");
    assert_eq!(msgs[0].hash_hex, sa.hash_hex);
    assert_eq!(msgs[0].lt, 77);
    assert_eq!(msgs[0].amount_raw, "123000000");
}

#[test]
fn reobserved_event_changes_nothing() {
    let mut store = EventStore::new();
    let mut bus = Bus::new(16);
    let sub = bus.subscribe();
    let kp = test_keypair();
    let cfg_hash = [7u8; 32];
    let minter = ton_minter_wc_hash36_demo();
    let dst_key = [5u8; 32];

    let e = burn("tx_1", "123000000", 77);
    let first = ingest_burn(&mut store, &mut bus, &kp, &cfg_hash, &minter, &dst_key, 9, &e);
    assert!(matches!(first, Ok(IngestOutcome::Ingested(_))));
    let second = ingest_burn(&mut store, &mut bus, &kp, &cfg_hash, &minter, &dst_key, 9, &e);
    assert!(matches!(second, Ok(IngestOutcome::Duplicate)));

    assert_eq!(store.list_burns(-1).len(), 1);
    assert_eq!(store.list_attestations(-1).len(), 1);
    // only the first observation published
    assert_eq!(bus.drain(sub).len(), 1);
}

#[test]
fn crash_between_save_and_cursor_is_replay_safe() {
    let mut store = EventStore::new();
    let kp = test_keypair();
    let cfg_hash = [7u8; 32];
    let minter = ton_minter_wc_hash36_demo();
    let dst_key = [5u8; 32];
    let e = burn("tx_crash", "1000", 55);

    // the cycle up to save_attestation, then a crash before set_cursor
    assert_eq!(store.insert_event_if_new(&e), InsertOutcome::Inserted);
    let att = bridge_relayer::ingest::build_attestation(&e, &cfg_hash, &minter, &dst_key, 9);
    let bytes = bridge_relayer::attestations::encode(&att);
    let hash = bridge_relayer::attestations::domain_hash("TON→SOL_BRIDGE_V1", &bytes);
    let hhex = hex::encode(hash);
    store
        .save_attestation(Some("tx_crash"), "TON_TO_SOL", &bytes, &hhex, RelayStatus::Signed)
        .unwrap();
    assert_eq!(store.get_cursor("ton_last_lt"), None); // cursor never written

    // restart: re-polling the same event must dedup, not duplicate
    let mut bus = Bus::new(16);
    let sub = bus.subscribe();
    let replay = ingest_burn(&mut store, &mut bus, &kp, &cfg_hash, &minter, &dst_key, 9, &e);
    assert!(matches!(replay, Ok(IngestOutcome::Duplicate)));
    assert_eq!(store.list_burns(-1).len(), 1);
    assert_eq!(store.list_attestations(-1).len(), 1);
    assert_eq!(bus.drain(sub).len(), 0); // no second notification, no second submission
}

#[test]
fn conflict_when_attestation_already_stored_for_new_event() {
    let mut store = EventStore::new();
    let mut bus = Bus::new(16);
    let kp = test_keypair();
    let cfg_hash = [7u8; 32];
    let minter = ton_minter_wc_hash36_demo();
    let dst_key = [5u8; 32];

    // an attestation sits under the key although the event was never stored
    store
        .save_attestation(Some("tx_odd"), "TON_TO_SOL", &[1], "aa", RelayStatus::Signed)
        .unwrap();
    let e = burn("tx_odd", "10", 1);
    let r = ingest_burn(&mut store, &mut bus, &kp, &cfg_hash, &minter, &dst_key, 9, &e);
    assert_eq!(r.unwrap_err(), RelayError::Conflict);
}

#[test]
fn malformed_amount_is_invalid_and_skipped() {
    let mut store = EventStore::new();
    let mut bus = Bus::new(16);
    let sub = bus.subscribe();
    let kp = test_keypair();
    let cfg_hash = [7u8; 32];
    let minter = ton_minter_wc_hash36_demo();
    let dst_key = [5u8; 32];

    // unparseable amount text: out of domain, skipped, nothing persisted
    let bad = burn("tx_bad", "12a", 5);
    let r = ingest_burn(&mut store, &mut bus, &kp, &cfg_hash, &minter, &dst_key, 9, &bad);
    assert_eq!(r.unwrap_err(), RelayError::Invalid);

    // an amount beyond u128 is equally out of domain
    let huge = burn("tx_huge", "340282366920938463463374607431768211456", 6);
    let r2 = ingest_burn(&mut store, &mut bus, &kp, &cfg_hash, &minter, &dst_key, 9, &huge);
    assert_eq!(r2.unwrap_err(), RelayError::Invalid);

    assert_eq!(store.list_burns(-1).len(), 0);
    assert_eq!(store.list_attestations(-1).len(), 0);
    assert_eq!(store.get_cursor("ton_last_lt"), None);
    assert_eq!(bus.drain(sub).len(), 0);
}

#[test]
fn burn_from_parts_normalizes_or_rejects() {
    let payload = base64::engine::general_purpose::STANDARD.encode([1u8, 2, 3]);
    let ok = bridge_relayer::ton_watcher::burn_from_parts(
        "tx_n".to_owned(),
        "123456",
        1_700_000_001,
        "m".to_owned(),
        "o".to_owned(),
        "w".to_owned(),
        "10".to_owned(),
        Some(&payload),
    )
    .unwrap();
    assert_eq!(ok.lt, 123_456);
    assert_eq!(ok.utime, 1_700_000_001);
    assert_eq!(ok.custom_payload.as_deref(), Some(&[1u8, 2, 3][..]));

    // an undecodable payload is dropped, not fatal
    let no_payload = bridge_relayer::ton_watcher::burn_from_parts(
        "tx_n2".to_owned(),
        "1",
        0,
        "m".to_owned(),
        "o".to_owned(),
        "w".to_owned(),
        "10".to_owned(),
        Some("!!not base64!!"),
    )
    .unwrap();
    assert_eq!(no_payload.custom_payload, None);

    // a malformed logical time makes the observation invalid
    let bad_lt = bridge_relayer::ton_watcher::burn_from_parts(
        "tx_n3".to_owned(),
        "not-a-number",
        0,
        "m".to_owned(),
        "o".to_owned(),
        "w".to_owned(),
        "10".to_owned(),
        None,
    );
    assert!(matches!(bad_lt, Err(RelayError::Invalid)));
}

#[test]
fn tx_hash_passthrough_for_base64_of_32_bytes() {
    let raw = [0xABu8; 32];
    let id = base64::engine::general_purpose::STANDARD.encode(raw);
    let got = bridge_relayer::ingest::tx_hash32_of_id(&id);
    assert_eq!(got, raw);

    // a non-base64 identifier binds via its SHA-256 digest
    let want: [u8; 32] = Sha256::digest("tx_1".as_bytes()).into();
    assert_eq!(bridge_relayer::ingest::tx_hash32_of_id("tx_1"), want);
}

#[test]
fn dst_pubkey_base58_decoding() {
    let raw = [0x11u8; 32];
    let b58 = bs58::encode(raw).into_string();
    assert_eq!(
        bridge_relayer::ingest::dst_solana_pubkey_from_base58(&b58).unwrap(),
        raw
    );
    assert_eq!(
        bridge_relayer::ingest::dst_solana_pubkey_from_base58("0OIl").unwrap_err(),
        RelayError::Invalid
    );
    let short = bs58::encode([1u8; 8]).into_string();
    assert_eq!(
        bridge_relayer::ingest::dst_solana_pubkey_from_base58(&short).unwrap_err(),
        RelayError::Invalid
    );
}
