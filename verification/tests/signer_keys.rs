//! Key loading and signature behaviour of the signer.

use base64::Engine as _;
use bridge_relayer::errors::RelayError;
use bridge_relayer::signer::{load_keypair_base64, relayer_pubkey_hex, sign, verify_signature};
use ed25519_dalek::Keypair;
use rand::rngs::OsRng;

#[test]
fn load_from_64_and_32() {
    // generate a keypair then test both encodings
    let kp = Keypair::generate(&mut OsRng);
    let mut raw64 = [0u8; 64];
    raw64[..32].copy_from_slice(kp.secret.as_bytes());
    raw64[32..].copy_from_slice(kp.public.as_bytes());

    let b64_64 = base64::engine::general_purpose::STANDARD.encode(raw64);
    let b64_32 = base64::engine::general_purpose::STANDARD.encode(kp.secret.as_bytes());

    let kpa = match load_keypair_base64(&b64_64) {
        Ok(kp) => kp,
        Err(e) => panic!("64-byte encoding rejected: {e:?}"),
    };
    let kpb = match load_keypair_base64(&b64_32) {
        Ok(kp) => kp,
        Err(e) => panic!("32-byte encoding rejected: {e:?}"),
    };
    assert_eq!(kpa.public_bytes(), kp.public.to_bytes());
    assert_eq!(kpb.public_bytes(), kp.public.to_bytes());
}

#[test]
fn load_rejects_bad_base64_bad_length_and_mismatch() {
    assert!(matches!(load_keypair_base64("not base64 !!"), Err(RelayError::Fatal)));

    let b64_16 = base64::engine::general_purpose::STANDARD.encode([1u8; 16]);
    assert!(matches!(load_keypair_base64(&b64_16), Err(RelayError::Fatal)));

    // a 64-byte encoding whose public half does not match the secret
    let kp = Keypair::generate(&mut OsRng);
    let mut raw64 = [0u8; 64];
    raw64[..32].copy_from_slice(kp.secret.as_bytes());
    raw64[32..].copy_from_slice(&[0xAAu8; 32]);
    let b64_bad = base64::engine::general_purpose::STANDARD.encode(raw64);
    assert!(matches!(load_keypair_base64(&b64_bad), Err(RelayError::Fatal)));
}

#[test]
fn sign_verifies_and_flips_fail() {
    let dalek = Keypair::generate(&mut OsRng);
    let b64_32 = base64::engine::general_purpose::STANDARD.encode(dalek.secret.as_bytes());
    let kp = match load_keypair_base64(&b64_32) {
        Ok(kp) => kp,
        Err(e) => panic!("key rejected: {e:?}"),
    };
    let public = kp.public_bytes();

    let hash = [0x5Au8; 32];
    let sig = sign(&hash, &kp);
    assert_eq!(sig.len(), 64);
    assert!(verify_signature(&public, &hash, &sig));

    // flip one byte of the hash
    let mut bad_hash = hash;
    bad_hash[0] ^= 1;
    assert!(!verify_signature(&public, &bad_hash, &sig));

    // flip one byte of the signature
    let mut bad_sig = sig;
    bad_sig[10] ^= 1;
    assert!(!verify_signature(&public, &hash, &bad_sig));

    // flip one byte of the public key
    let mut bad_pk = public;
    bad_pk[3] ^= 1;
    assert!(!verify_signature(&bad_pk, &hash, &sig));
}

#[test]
fn signing_is_deterministic_and_matches_dalek() {
    let dalek = Keypair::generate(&mut OsRng);
    let b64_32 = base64::engine::general_purpose::STANDARD.encode(dalek.secret.as_bytes());
    let kp = match load_keypair_base64(&b64_32) {
        Ok(kp) => kp,
        Err(e) => panic!("key rejected: {e:?}"),
    };

    let hash = [0x11u8; 32];
    let s1 = sign(&hash, &kp);
    let s2 = sign(&hash, &kp);
    assert_eq!(s1[..], s2[..]);

    let want = ed25519_dalek::Signer::sign(&dalek, &hash).to_bytes();
    assert_eq!(s1[..], want[..]);
}

#[test]
fn pubkey_hex_is_lowercase_hex_of_public_key() {
    let dalek = Keypair::generate(&mut OsRng);
    let b64_32 = base64::engine::general_purpose::STANDARD.encode(dalek.secret.as_bytes());
    let kp = match load_keypair_base64(&b64_32) {
        Ok(kp) => kp,
        Err(e) => panic!("key rejected: {e:?}"),
    };
    assert_eq!(relayer_pubkey_hex(&kp), hex::encode(dalek.public.to_bytes()));
}
