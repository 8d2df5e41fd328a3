//! Text helpers (decimal, hex, base64), the bus, the submitter's decisions,
//! and configuration validation.

use base64::Engine as _;
use bridge_relayer::bus::{AttestationNotice, Bus};
use bridge_relayer::bytes::{parse_u128_opt, parse_u64_opt, u64_to_dec};
use bridge_relayer::config::Cfg;
use bridge_relayer::errors::RelayError;
use bridge_relayer::submit::{submit_decision, SubmitAction, SubmitOutcome, MAX_SUBMIT_ATTEMPTS};
use bridge_relayer::utils::{b64_to_32, hex32, now_ts};

#[test]
fn parse_decimal_exactly_as_std() {
    assert_eq!(parse_u128_opt("123000000"), Some(123_000_000));
    assert_eq!(parse_u128_opt("+7"), Some(7));
    assert_eq!(parse_u128_opt("0"), Some(0));
    assert_eq!(parse_u128_opt(""), None);
    assert_eq!(parse_u128_opt("+"), None);
    assert_eq!(parse_u128_opt("-5"), None);
    assert_eq!(parse_u128_opt("12a"), None);
    assert_eq!(parse_u128_opt(" 12"), None);
    assert_eq!(
        parse_u128_opt("340282366920938463463374607431768211455"),
        Some(u128::MAX)
    );
    assert_eq!(parse_u128_opt("340282366920938463463374607431768211456"), None);

    assert_eq!(parse_u64_opt("18446744073709551615"), Some(u64::MAX));
    assert_eq!(parse_u64_opt("18446744073709551616"), None);
    assert_eq!(parse_u64_opt("42"), Some(42));
}

#[test]
fn u64_to_decimal_text() {
    assert_eq!(u64_to_dec(0), "0");
    assert_eq!(u64_to_dec(7), "7");
    assert_eq!(u64_to_dec(1234567890), "1234567890");
    assert_eq!(u64_to_dec(u64::MAX), "18446744073709551615");
}

#[test]
fn hex32_parses_64_hex_digits() {
    let s = "00112233445566778899aabbccddeeff00112233445566778899AABBCCDDEEFF";
    let a = hex32(s).unwrap();
    assert_eq!(a[0], 0x00);
    assert_eq!(a[1], 0x11);
    assert_eq!(a[31], 0xFF);
    // surrounding whitespace is ignored
    let padded = format!("  {s}\n");
    assert_eq!(hex32(&padded).unwrap(), a);
    // wrong length or non-hex input is invalid
    assert_eq!(hex32("abcd").unwrap_err(), RelayError::Invalid);
    let bad = "zz112233445566778899aabbccddeeff00112233445566778899aabbccddeeff";
    assert_eq!(hex32(bad).unwrap_err(), RelayError::Invalid);
}

#[test]
fn b64_to_32_accepts_exactly_32_bytes() {
    let raw = [9u8; 32];
    let b64 = base64::engine::general_purpose::STANDARD.encode(raw);
    assert_eq!(b64_to_32(&b64).unwrap(), raw);
    let b64_short = base64::engine::general_purpose::STANDARD.encode([9u8; 16]);
    assert_eq!(b64_to_32(&b64_short).unwrap_err(), RelayError::Invalid);
    assert_eq!(b64_to_32("!!!").unwrap_err(), RelayError::Invalid);
}

#[test]
fn now_ts_is_wall_clock_seconds() {
    let t = now_ts();
    // after 2020, before 2100
    assert!(t > 1_577_836_800, "clock too early: {t}");
    assert!(t < 4_102_444_800, "clock too late: {t}");
}

fn notice(tag: &str) -> AttestationNotice {
    AttestationNotice {
        kind: "TON_TO_SOL".to_owned(),
        hash_hex: tag.to_owned(),
        src_tx: "tx".to_owned(),
        lt: 1,
        utime: 2,
        amount_raw: "3".to_owned(),
    }
}

#[test]
fn bus_delivers_to_every_subscriber() {
    let mut bus = Bus::new(4);
    let a = bus.subscribe();
    let b = bus.subscribe();
    bus.publish(&notice("h1"));
    bus.publish(&notice("h2"));
    let got_a = bus.drain(a);
    let got_b = bus.drain(b);
    assert_eq!(got_a.len(), 2);
    assert_eq!(got_b.len(), 2);
    assert_eq!(got_a[0].hash_hex, "h1");
    assert_eq!(got_a[1].hash_hex, "h2");
    // drained queues are empty; publication continues
    assert_eq!(bus.drain(a).len(), 0);
}

#[test]
fn bus_drops_oldest_for_lagging_subscriber() {
    let mut bus = Bus::new(2);
    let slow = bus.subscribe();
    bus.publish(&notice("h1"));
    bus.publish(&notice("h2"));
    bus.publish(&notice("h3")); // h1 falls out
    let got = bus.drain(slow);
    assert_eq!(got.len(), 2);
    assert_eq!(got[0].hash_hex, "h2");
    assert_eq!(got[1].hash_hex, "h3");
}

#[test]
fn bus_late_subscriber_sees_only_later_messages() {
    let mut bus = Bus::new(4);
    let early = bus.subscribe();
    bus.publish(&notice("h1"));
    let late = bus.subscribe();
    bus.publish(&notice("h2"));
    assert_eq!(bus.drain(early).len(), 2);
    let got = bus.drain(late);
    assert_eq!(got.len(), 1);
    assert_eq!(got[0].hash_hex, "h2");
}

#[test]
fn submit_decisions() {
    let accepted = SubmitOutcome::Accepted("sig".to_owned());
    let rejected = SubmitOutcome::Rejected("stale config".to_owned());
    assert_eq!(submit_decision(&accepted, 0), SubmitAction::Done);
    // a definitive rejection is never retried
    assert_eq!(submit_decision(&rejected, 0), SubmitAction::GiveUp);
    // an unreachable destination backs off exponentially, then gives up
    assert_eq!(submit_decision(&SubmitOutcome::Unavailable, 0), SubmitAction::Retry(2));
    assert_eq!(submit_decision(&SubmitOutcome::Unavailable, 1), SubmitAction::Retry(4));
    assert_eq!(submit_decision(&SubmitOutcome::Unavailable, 2), SubmitAction::Retry(8));
    assert_eq!(
        submit_decision(&SubmitOutcome::Unavailable, MAX_SUBMIT_ATTEMPTS - 1),
        SubmitAction::GiveUp
    );
}

#[test]
fn cfg_validation() {
    let raw64 = {
        let mut v = [0u8; 64];
        v[32..].copy_from_slice(&[0xCDu8; 32]);
        v
    };
    let sk_b64 = base64::engine::general_purpose::STANDARD.encode(raw64);
    let cfg = match Cfg::new(
        "http://rpc".to_owned(),
        "ws://rpc".to_owned(),
        "BridgeProgram111".to_owned(),
        "https://api".to_owned(),
        None,
        "addr".to_owned(),
        sk_b64.clone(),
        "00".repeat(32),
    ) {
        Ok(c) => c,
        Err(e) => panic!("valid configuration rejected: {e:?}"),
    };
    assert_eq!(cfg.relayer_pubkey, [0xCDu8; 32]);
    assert_eq!(cfg.relayer_sk_base64, sk_b64);

    let sk_short = base64::engine::general_purpose::STANDARD.encode([1u8; 32]);
    let bad = Cfg::new(
        "h".to_owned(),
        "w".to_owned(),
        "p".to_owned(),
        "a".to_owned(),
        None,
        "x".to_owned(),
        sk_short,
        "00".to_owned(),
    );
    assert!(matches!(bad, Err(RelayError::Fatal)));
}
