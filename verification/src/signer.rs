//! Relayer key material and detached Ed25519 signatures over attestation
//! hashes.
//!
//! The key pair is loaded once from a base64 encoding of either a 32-byte
//! secret seed or a 64-byte secret-then-public concatenation. When both
//! halves are present, the supplied public key must match the one derived
//! from the secret: a mismatch is a fatal configuration error.

use vstd::prelude::*;

use crate::bytes::hex_of;
use crate::errors::RelayError;
use crate::utils::{base64_decode_of, b64_decode, hex_encode32};

verus! {

use vstd::string::StringSliceAdditionalSpecFns;

/// The public key Ed25519 derives from a 32-byte secret seed.
pub uninterp spec fn ed25519_public_of(secret: Seq<u8>) -> Seq<u8>;

/// The detached signature Ed25519 produces for a 32-byte secret seed and a
/// message (Ed25519 signing is deterministic).
pub uninterp spec fn ed25519_sig_of(secret: Seq<u8>, msg: Seq<u8>) -> Seq<u8>;

/// Whether Ed25519 verification accepts `sig` for `msg` under `public`.
pub uninterp spec fn ed25519_verifies(public: Seq<u8>, msg: Seq<u8>, sig: Seq<u8>) -> bool;

/// Relies on `ed25519_dalek::PublicKey::from(&SecretKey)`: the public key is
/// a pure function of the 32 secret bytes, 32 bytes long.
#[verifier::external_body]
fn derive_public(secret: &[u8; 32]) -> (r: [u8; 32])
    ensures
        r@ == ed25519_public_of(secret@),
{
    // SecretKey::from_bytes accepts every 32-byte input
    let sk = ed25519_dalek::SecretKey::from_bytes(secret).unwrap();
    let pk = ed25519_dalek::PublicKey::from(&sk);
    pk.to_bytes()
}

/// Relies on `ed25519_dalek::ExpandedSecretKey::sign`: Ed25519 signing is a
/// pure function of the secret seed and the message, yields 64 bytes, and a
/// signature made with the matching public key verifies under it.
#[verifier::external_body]
fn sign_raw(secret: &[u8; 32], public: &[u8; 32], msg: &[u8; 32]) -> (r: [u8; 64])
    requires
        public@ == ed25519_public_of(secret@),
    ensures
        r@ == ed25519_sig_of(secret@, msg@),
        ed25519_verifies(public@, msg@, r@),
{
    // SecretKey::from_bytes accepts every 32-byte input, and a derived
    // public key always parses back as a valid curve point
    let sk = ed25519_dalek::SecretKey::from_bytes(secret).unwrap();
    let esk = ed25519_dalek::ExpandedSecretKey::from(&sk);
    let pk = ed25519_dalek::PublicKey::from_bytes(public).unwrap();
    let sig = esk.sign(msg, &pk);
    sig.to_bytes()
}

/// Relies on `ed25519_dalek::PublicKey::verify` (and the byte parsers of
/// `PublicKey` and `Signature`): verification is deterministic in the key,
/// message and signature bytes; bytes that parse to no valid key or
/// signature verify nothing.
#[verifier::external_body]
fn verify_raw(public: &[u8; 32], msg: &[u8; 32], sig: &[u8; 64]) -> (r: bool)
    ensures
        r == ed25519_verifies(public@, msg@, sig@),
{
    let pk = match ed25519_dalek::PublicKey::from_bytes(public) {
        Ok(pk) => pk,
        Err(_) => return false,
    };
    let s = match ed25519_dalek::Signature::from_bytes(sig) {
        Ok(s) => s,
        Err(_) => return false,
    };
    ed25519_dalek::Verifier::verify(&pk, msg, &s).is_ok()
}

/// The relayer's long-lived Ed25519 key pair.
pub struct Keypair {
    secret: [u8; 32],
    public: [u8; 32],
}

/// The mathematical view of a key pair.
pub ghost struct KeypairView {
    pub secret: Seq<u8>,
    pub public: Seq<u8>,
}

impl View for Keypair {
    type V = KeypairView;

    closed spec fn view(&self) -> KeypairView {
        KeypairView { secret: self.secret@, public: self.public@ }
    }
}

impl Keypair {
    /// Internal consistency: the public half is the one the secret derives.
    pub open spec fn wf(&self) -> bool {
        self@.public == ed25519_public_of(self@.secret)
    }

    /// The verification key, for publication.
    pub fn public_bytes(&self) -> (r: [u8; 32])
        ensures
            r@ == self@.public,
    {
        self.public
    }
}

/// Loads an Ed25519 key pair from base64-encoded key material:
/// - 64 bytes: secret seed then public key; the public key must equal the
///   one derived from the seed, else the configuration is rejected;
/// - 32 bytes: secret seed alone; the public key is derived.
///
/// Every other input — undecodable base64, any other length, an
/// inconsistent pair — is a fatal configuration error.
pub fn load_keypair_base64(sk_b64: &str) -> (r: Result<Keypair, RelayError>)
    ensures
        match r {
            Ok(kp) => {
                &&& kp.wf()
                &&& base64_decode_of(sk_b64@) is Some
                &&& ({
                    let raw = base64_decode_of(sk_b64@)->Some_0;
                    &&& (raw.len() == 64 || raw.len() == 32)
                    &&& kp@.secret == raw.take(32)
                    &&& (raw.len() == 64 ==> kp@.public == raw.skip(32))
                })
            },
            Err(e) => {
                &&& e == RelayError::Fatal
                &&& match base64_decode_of(sk_b64@) {
                    None => true,
                    Some(raw) => (raw.len() != 64 && raw.len() != 32) || (raw.len() == 64
                        && raw.skip(32) != ed25519_public_of(raw.take(32))),
                }
            },
        },
{
    let raw = match b64_decode(sk_b64) {
        Some(v) => v,
        None => {
            return Err(RelayError::Fatal);
        },
    };
    if raw.len() == 64 {
        let mut secret: [u8; 32] = [0u8; 32];
        let mut public: [u8; 32] = [0u8; 32];
        let mut i: usize = 0;
        while i < 32
            invariant
                i <= 32,
                raw@.len() == 64,
                forall|k: int| 0 <= k < i ==> secret@[k] == raw@[k],
                forall|k: int| 0 <= k < i ==> public@[k] == raw@[32 + k],
            decreases 32 - i,
        {
            secret[i] = raw[i];
            public[i] = raw[32 + i];
            i = i + 1;
        }
        proof {
            assert(secret@ =~= raw@.take(32));
            assert(public@ =~= raw@.skip(32));
        }
        let derived = derive_public(&secret);
        let mut ok = true;
        let mut j: usize = 0;
        while j < 32
            invariant
                j <= 32,
                ok == (forall|k: int| 0 <= k < j ==> public@[k] == derived@[k]),
            decreases 32 - j,
        {
            if public[j] != derived[j] {
                ok = false;
            }
            j = j + 1;
        }
        if !ok {
            proof {
                assert(public@ != derived@);
            }
            return Err(RelayError::Fatal);
        }
        proof {
            assert(public@ =~= derived@);
        }
        Ok(Keypair { secret, public })
    } else if raw.len() == 32 {
        let mut secret: [u8; 32] = [0u8; 32];
        let mut i: usize = 0;
        while i < 32
            invariant
                i <= 32,
                raw@.len() == 32,
                forall|k: int| 0 <= k < i ==> secret@[k] == raw@[k],
            decreases 32 - i,
        {
            secret[i] = raw[i];
            i = i + 1;
        }
        proof {
            assert(secret@ =~= raw@.take(32));
        }
        let public = derive_public(&secret);
        Ok(Keypair { secret, public })
    } else {
        Err(RelayError::Fatal)
    }
}

/// Signs a 32-byte domain hash with the relayer key: a detached 64-byte
/// Ed25519 signature, deterministic in key and hash, and valid under the
/// key pair's public half.
pub fn sign(hash32: &[u8; 32], kp: &Keypair) -> (r: [u8; 64])
    requires
        kp.wf(),
    ensures
        r@ == ed25519_sig_of(kp@.secret, hash32@),
        ed25519_verifies(kp@.public, hash32@, r@),
{
    sign_raw(&kp.secret, &kp.public, hash32)
}

/// Whether `sig` is a valid Ed25519 signature on `msg` under `public`.
pub fn verify_signature(public: &[u8; 32], msg: &[u8; 32], sig: &[u8; 64]) -> (r: bool)
    ensures
        r == ed25519_verifies(public@, msg@, sig@),
{
    verify_raw(public, msg, sig)
}

/// The relayer's public key as lowercase hex, for publication.
pub fn relayer_pubkey_hex(kp: &Keypair) -> (r: String)
    ensures
        r@ == hex_of(kp@.public),
{
    hex_encode32(&kp.public)
}

} // verus!
