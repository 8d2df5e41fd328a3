//! Small shared helpers: base64 and hex bridging, and the wall clock.

use vstd::prelude::*;

use crate::bytes::{
    hex_bytes_decode, hex_decode_range, hex_of, is_hex_bytes, trim_bounds, trim_bytes,
};
use crate::errors::RelayError;

verus! {

use vstd::string::StringSliceAdditionalSpecFns;

/// What base64 (standard alphabet, padded) decodes a string to, if anything.
pub uninterp spec fn base64_decode_of(s: Seq<char>) -> Option<Seq<u8>>;

/// Relies on `base64::engine::general_purpose::STANDARD.decode`: decoding is
/// a pure function of the input text and either fails or yields its bytes.
#[verifier::external_body]
pub fn b64_decode(s: &str) -> (r: Option<Vec<u8>>)
    ensures
        match r {
            Some(v) => base64_decode_of(s@) == Some(v@),
            None => base64_decode_of(s@) is None,
        },
{
    match base64::Engine::decode(&base64::engine::general_purpose::STANDARD, s) {
        Ok(v) => Some(v),
        Err(_) => None,
    }
}

/// Relies on `hex::encode`: two lowercase hex digits per byte, in order.
#[verifier::external_body]
pub fn hex_encode32(b: &[u8; 32]) -> (r: String)
    ensures
        r@ == hex_of(b@),
{
    hex::encode(b)
}

/// Decodes a base64 string that must hold exactly 32 bytes.
pub fn b64_to_32(b64: &str) -> (r: Result<[u8; 32], RelayError>)
    ensures
        match r {
            Ok(a) => base64_decode_of(b64@) == Some(a@),
            Err(e) => e == RelayError::Invalid && match base64_decode_of(b64@) {
                None => true,
                Some(v) => v.len() != 32,
            },
        },
{
    let v = match b64_decode(b64) {
        Some(v) => v,
        None => {
            return Err(RelayError::Invalid);
        },
    };
    if v.len() != 32 {
        return Err(RelayError::Invalid);
    }
    let mut a: [u8; 32] = [0u8; 32];
    let mut i: usize = 0;
    while i < 32
        invariant
            i <= 32,
            v@.len() == 32,
            forall|k: int| 0 <= k < i ==> a@[k] == v@[k],
        decreases 32 - i,
    {
        a[i] = v[i];
        i = i + 1;
    }
    proof {
        assert(a@ =~= v@);
    }
    Ok(a)
}

/// Parses a 64-digit hex string (surrounding ASCII whitespace ignored) into
/// 32 bytes; anything else is invalid.
pub fn hex32(hexstr: &str) -> (r: Result<[u8; 32], RelayError>)
    ensures
        ({
            let t = trim_bytes(hexstr.spec_bytes());
            match r {
                Ok(a) => is_hex_bytes(t) && t.len() == 64 && a@ == hex_bytes_decode(t),
                Err(e) => e == RelayError::Invalid && !(is_hex_bytes(t) && t.len() == 64),
            }
        }),
{
    let b = hexstr.as_bytes();
    let (start, end) = trim_bounds(b);
    if end - start != 64 {
        return Err(RelayError::Invalid);
    }
    let v = match hex_decode_range(b, start, end) {
        Some(v) => v,
        None => {
            return Err(RelayError::Invalid);
        },
    };
    proof {
        crate::bytes::lemma_hex_decode_len(trim_bytes(hexstr.spec_bytes()));
    }
    let mut a: [u8; 32] = [0u8; 32];
    let mut i: usize = 0;
    while i < 32
        invariant
            i <= 32,
            v@.len() == 32,
            forall|k: int| 0 <= k < i ==> a@[k] == v@[k],
        decreases 32 - i,
    {
        a[i] = v[i];
        i = i + 1;
    }
    proof {
        assert(a@ =~= v@);
    }
    Ok(a)
}

/// Relies on `std::time::SystemTime::now` and `duration_since`: some number
/// of seconds; nothing further can be promised of a clock.
#[verifier::external_body]
fn clock_now_secs() -> (r: u64) {
    match std::time::SystemTime::now().duration_since(std::time::UNIX_EPOCH) {
        Ok(d) => d.as_secs(),
        Err(_) => 0,
    }
}

/// Seconds since the Unix epoch, by the machine's clock.
pub fn now_ts() -> u64 {
    clock_now_secs()
}

} // verus!
