//! Round-trip, rejection and domain-separation behaviour of the attestation
//! codec.

use bridge_relayer::attestations::{decode, domain_hash, encode, TonToSolAttestationV1};
use bridge_relayer::errors::CodecError;
use sha2::{Digest, Sha256};

fn sample(min_sol_out: Option<u64>, deadline_ts: Option<u64>) -> TonToSolAttestationV1 {
    TonToSolAttestationV1 {
        ver: 1,
        src_chain: 0,
        kind: 1,
        cfg_hash: [7u8; 32],
        nonce: 42,
        jetton_minter_ton: [3u8; 36],
        amount_raw: 123_000_000u128,
        decimals_ton: 9,
        dst_solana_pubkey: [5u8; 32],
        min_sol_out,
        deadline_ts,
        tx_hash_ton: [9u8; 32],
        lt_ton: 42,
        timestamp_ton: 1_700_000_000,
    }
}

fn assert_att_eq(a: &TonToSolAttestationV1, b: &TonToSolAttestationV1) {
    assert_eq!(a.ver, b.ver);
    assert_eq!(a.src_chain, b.src_chain);
    assert_eq!(a.kind, b.kind);
    assert_eq!(a.cfg_hash, b.cfg_hash);
    assert_eq!(a.nonce, b.nonce);
    assert_eq!(a.jetton_minter_ton, b.jetton_minter_ton);
    assert_eq!(a.amount_raw, b.amount_raw);
    assert_eq!(a.decimals_ton, b.decimals_ton);
    assert_eq!(a.dst_solana_pubkey, b.dst_solana_pubkey);
    assert_eq!(a.min_sol_out, b.min_sol_out);
    assert_eq!(a.deadline_ts, b.deadline_ts);
    assert_eq!(a.tx_hash_ton, b.tx_hash_ton);
    assert_eq!(a.lt_ton, b.lt_ton);
    assert_eq!(a.timestamp_ton, b.timestamp_ton);
}

#[test]
fn encode_decode_round_trip_none_options() {
    let a = sample(None, None);
    let bytes = encode(&a);
    // fixed prefix (128) + two 1-byte None tags + 48 trailing
    assert_eq!(bytes.len(), 128 + 1 + 1 + 48);
    let d = decode(&bytes).unwrap();
    assert_att_eq(&a, &d);
    assert_eq!(encode(&d), bytes);
}

#[test]
fn encode_decode_round_trip_some_options() {
    let a = sample(Some(1_000), Some(1_800_000_000));
    let bytes = encode(&a);
    assert_eq!(bytes.len(), 128 + 9 + 9 + 48);
    let d = decode(&bytes).unwrap();
    assert_att_eq(&a, &d);
    assert_eq!(encode(&d), bytes);
}

#[test]
fn encode_is_deterministic() {
    let a = sample(Some(1), None);
    let b = sample(Some(1), None);
    assert_eq!(encode(&a), encode(&b));
}

#[test]
fn encoding_is_little_endian_with_fixed_layout() {
    let a = sample(None, None);
    let bytes = encode(&a);
    assert_eq!(bytes[0], 1); // ver
    assert_eq!(bytes[1], 0); // src_chain
    assert_eq!(bytes[2], 1); // kind
    assert_eq!(&bytes[3..35], &[7u8; 32][..]); // cfg_hash
    assert_eq!(&bytes[35..43], &[42, 0, 0, 0, 0, 0, 0, 0][..]); // nonce LE
    assert_eq!(&bytes[43..79], &[3u8; 36][..]); // jetton minter
    let mut amount_le = [0u8; 16];
    amount_le[..16].copy_from_slice(&123_000_000u128.to_le_bytes());
    assert_eq!(&bytes[79..95], &amount_le[..]); // amount LE
    assert_eq!(bytes[95], 9); // decimals
    assert_eq!(&bytes[96..128], &[5u8; 32][..]); // destination key
    assert_eq!(bytes[128], 0); // min_sol_out: None
    assert_eq!(bytes[129], 0); // deadline_ts: None
}

#[test]
fn decode_rejects_truncated_input() {
    let a = sample(None, None);
    let bytes = encode(&a);
    for cut in [0usize, 1, 64, 127, bytes.len() - 1] {
        let r = decode(&bytes[..cut]);
        assert_eq!(r.unwrap_err(), CodecError::Truncated, "cut at {cut}");
    }
}

#[test]
fn decode_rejects_unknown_version() {
    let a = sample(None, None);
    let mut bytes = encode(&a);
    bytes[0] = 2;
    assert_eq!(decode(&bytes).unwrap_err(), CodecError::UnknownVersion);
}

#[test]
fn decode_rejects_bad_option_tag() {
    let a = sample(None, None);
    let mut bytes = encode(&a);
    bytes[128] = 7;
    assert_eq!(decode(&bytes).unwrap_err(), CodecError::BadOptionTag);
}

#[test]
fn decode_rejects_trailing_bytes() {
    let a = sample(None, None);
    let mut bytes = encode(&a);
    bytes.push(0);
    assert_eq!(decode(&bytes).unwrap_err(), CodecError::TrailingBytes);
}

#[test]
fn domain_hash_matches_sha256_of_label_and_message() {
    // the hash must be SHA-256 over label bytes, then message bytes
    let msg = [1u8, 2, 3, 4];
    let got = domain_hash("TON→SOL_BRIDGE_V1", &msg);
    let mut h = Sha256::new();
    h.update("TON→SOL_BRIDGE_V1".as_bytes());
    h.update(msg);
    let want: [u8; 32] = h.finalize().into();
    assert_eq!(got, want);
}

#[test]
fn domain_hash_is_pure_and_label_sensitive() {
    let msg = b"identical message bytes";
    let h1 = domain_hash("TON→SOL_BRIDGE_V1", msg);
    let h2 = domain_hash("TON→SOL_BRIDGE_V1", msg);
    assert_eq!(h1, h2);
    let h3 = domain_hash("SOL→TON_BRIDGE_V1", msg);
    assert_ne!(h1, h3);
}

#[test]
fn different_kind_gives_different_encoding_and_hash() {
    let a = sample(None, None);
    let mut b = sample(None, None);
    b.kind = 2;
    let ea = encode(&a);
    let eb = encode(&b);
    assert_ne!(ea, eb);
    let ha = domain_hash("TON→SOL_BRIDGE_V1", &ea);
    let hb = domain_hash("TON→SOL_BRIDGE_V1", &eb);
    assert_ne!(ha, hb);
}
