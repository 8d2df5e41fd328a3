//! Idempotence, conflict and cursor behaviour of the event store.

use bridge_relayer::errors::RelayError;
use bridge_relayer::repo::{EventStore, InsertOutcome, RelayStatus};
use bridge_relayer::ton_watcher::TonBurn;

fn burn(tx: &str, lt: u64) -> TonBurn {
    TonBurn {
        tx_hash_b64: tx.to_owned(),
        lt,
        utime: 1_700_000_000,
        jetton_master_raw: "0:master".to_owned(),
        owner_raw: "0:owner".to_owned(),
        jetton_wallet_raw: "0:wallet".to_owned(),
        amount_raw: "123000000".to_owned(),
        custom_payload: None,
    }
}

#[test]
fn insert_event_if_new_is_idempotent() {
    let mut store = EventStore::new();
    let e = burn("tx_1", 7);
    assert_eq!(store.insert_event_if_new(&e), InsertOutcome::Inserted);
    assert_eq!(store.insert_event_if_new(&e), InsertOutcome::AlreadyPresent);
    assert_eq!(store.insert_event_if_new(&e), InsertOutcome::AlreadyPresent);
    let rows = store.list_burns(-1);
    assert_eq!(rows.len(), 1);
    assert_eq!(rows[0].tx_hash_b64, "tx_1");
    assert_eq!(rows[0].lt, 7);
}

#[test]
fn insert_burn_returns_rows_affected() {
    let mut store = EventStore::new();
    assert_eq!(
        store.insert_burn("tx_a", 1, 2, "m", "o", "w", "10", Some(&[1, 2, 3])),
        1
    );
    assert_eq!(
        store.insert_burn("tx_a", 1, 2, "m", "o", "w", "10", Some(&[1, 2, 3])),
        0
    );
    assert_eq!(store.insert_burn("tx_b", 3, 4, "m", "o", "w", "20", None), 1);
    assert_eq!(store.list_burns(-1).len(), 2);
}

#[test]
fn at_most_one_attestation_per_event() {
    let mut store = EventStore::new();
    let id = store
        .save_attestation(Some("tx_1"), "TON_TO_SOL", &[1, 2], "aa", RelayStatus::Signed)
        .unwrap();
    assert_eq!(id, 1);
    let again =
        store.save_attestation(Some("tx_1"), "TON_TO_SOL", &[3, 4], "bb", RelayStatus::Signed);
    assert_eq!(again.unwrap_err(), RelayError::Conflict);
    assert_eq!(store.list_attestations(-1).len(), 1);
}

#[test]
fn update_status_transitions_and_terminal_submitted() {
    let mut store = EventStore::new();
    store
        .save_attestation(Some("tx_1"), "TON_TO_SOL", &[1], "aa", RelayStatus::Signed)
        .unwrap();
    // unknown key
    assert_eq!(
        store.update_status("nope", RelayStatus::Submitted).unwrap_err(),
        RelayError::Invalid
    );
    // Signed -> SubmitFailed -> Submitted is allowed
    store.update_status("tx_1", RelayStatus::SubmitFailed).unwrap();
    store.update_status("tx_1", RelayStatus::Submitted).unwrap();
    // Submitted is terminal
    assert_eq!(
        store.update_status("tx_1", RelayStatus::SubmitFailed).unwrap_err(),
        RelayError::Conflict
    );
}

#[test]
fn cursor_upsert_and_lookup() {
    let mut store = EventStore::new();
    assert_eq!(store.get_cursor("ton_last_lt"), None);
    store.set_cursor("ton_last_lt", "7");
    assert_eq!(store.get_cursor("ton_last_lt").as_deref(), Some("7"));
    store.set_cursor("ton_last_lt", "9");
    assert_eq!(store.get_cursor("ton_last_lt").as_deref(), Some("9"));
    store.set_cursor("other", "1");
    assert_eq!(store.get_cursor("ton_last_lt").as_deref(), Some("9"));
    assert_eq!(store.get_cursor("other").as_deref(), Some("1"));
}

#[test]
fn listing_is_most_recent_first_and_bounded() {
    let mut store = EventStore::new();
    for (i, tx) in ["t1", "t2", "t3"].iter().enumerate() {
        store.insert_burn(tx, i as i64, 0, "m", "o", "w", "1", None);
    }
    let all = store.list_burns(-1);
    assert_eq!(all.len(), 3);
    assert_eq!(all[0].tx_hash_b64, "t3");
    assert_eq!(all[1].tx_hash_b64, "t2");
    assert_eq!(all[2].tx_hash_b64, "t1");
    assert_eq!(all[0].id, 3);
    let two = store.list_burns(2);
    assert_eq!(two.len(), 2);
    assert_eq!(two[0].tx_hash_b64, "t3");
    let none = store.list_burns(0);
    assert_eq!(none.len(), 0);
}
