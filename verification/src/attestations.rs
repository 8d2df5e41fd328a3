//! The versioned attestation record, its canonical binary encoding, and the
//! domain-separated hash computed over that encoding.
//!
//! The encoding is deterministic: fields in a fixed order, little-endian
//! fixed-width integers, `Option` fields as a 0/1 tag byte followed by the
//! value. Identical logical content always yields identical bytes, so the
//! hash and signature over them are reproducible by any verifier.

use vstd::prelude::*;

use crate::bytes::{
    le_bytes, le_value, lemma_le_bytes_len, lemma_le_value_bound, lemma_le_value_le_bytes,
    lemma_pow256_le_max, push_le, read_le,
};
use crate::errors::CodecError;

verus! {

use vstd::string::StringSliceAdditionalSpecFns;

/// A TON-to-Solana burn attestation, version 1.
///
/// `cfg_hash` binds the record to the active relayer configuration; `nonce`
/// is the per-attestation uniqueness token; the `*_ton` fields carry the
/// source-chain provenance (transaction hash, logical time, wall-clock time).
#[derive(Debug)]
pub struct TonToSolAttestationV1 {
    pub ver: u8,
    pub src_chain: u8,
    pub kind: u8,
    pub cfg_hash: [u8; 32],
    pub nonce: u64,
    pub jetton_minter_ton: [u8; 36],
    pub amount_raw: u128,
    pub decimals_ton: u8,
    pub dst_solana_pubkey: [u8; 32],
    pub min_sol_out: Option<u64>,
    pub deadline_ts: Option<u64>,
    pub tx_hash_ton: [u8; 32],
    pub lt_ton: u64,
    pub timestamp_ton: u64,
}

/// The mathematical view of an attestation: fixed-size byte fields as plain
/// sequences.
#[verifier::ext_equal]
pub ghost struct AttView {
    pub ver: u8,
    pub src_chain: u8,
    pub kind: u8,
    pub cfg_hash: Seq<u8>,
    pub nonce: u64,
    pub jetton_minter_ton: Seq<u8>,
    pub amount_raw: u128,
    pub decimals_ton: u8,
    pub dst_solana_pubkey: Seq<u8>,
    pub min_sol_out: Option<u64>,
    pub deadline_ts: Option<u64>,
    pub tx_hash_ton: Seq<u8>,
    pub lt_ton: u64,
    pub timestamp_ton: u64,
}

impl View for TonToSolAttestationV1 {
    type V = AttView;

    open spec fn view(&self) -> AttView {
        AttView {
            ver: self.ver,
            src_chain: self.src_chain,
            kind: self.kind,
            cfg_hash: self.cfg_hash@,
            nonce: self.nonce,
            jetton_minter_ton: self.jetton_minter_ton@,
            amount_raw: self.amount_raw,
            decimals_ton: self.decimals_ton,
            dst_solana_pubkey: self.dst_solana_pubkey@,
            min_sol_out: self.min_sol_out,
            deadline_ts: self.deadline_ts,
            tx_hash_ton: self.tx_hash_ton@,
            lt_ton: self.lt_ton,
            timestamp_ton: self.timestamp_ton,
        }
    }
}

/// The byte-length side conditions every view of an exec attestation meets.
pub open spec fn att_wf(v: AttView) -> bool {
    &&& v.cfg_hash.len() == 32
    &&& v.jetton_minter_ton.len() == 36
    &&& v.dst_solana_pubkey.len() == 32
    &&& v.tx_hash_ton.len() == 32
}

/// The encoding of an `Option<u64>` field: a tag byte, then the value.
pub open spec fn opt_u64_bytes(o: Option<u64>) -> Seq<u8> {
    match o {
        None => seq![0u8],
        Some(v) => seq![1u8] + le_bytes(v as nat, 8),
    }
}

/// The canonical encoding of an attestation.
pub open spec fn encoded(v: AttView) -> Seq<u8> {
    seq![v.ver, v.src_chain, v.kind] + v.cfg_hash + le_bytes(v.nonce as nat, 8)
        + v.jetton_minter_ton + le_bytes(v.amount_raw as nat, 16) + seq![v.decimals_ton]
        + v.dst_solana_pubkey + opt_u64_bytes(v.min_sol_out) + opt_u64_bytes(v.deadline_ts)
        + v.tx_hash_ton + le_bytes(v.lt_ton as nat, 8) + le_bytes(v.timestamp_ton as nat, 8)
}

/// Appends the bytes of a fixed-size array to `out`.
fn push_array<const N: usize>(out: &mut Vec<u8>, a: &[u8; N])
    ensures
        final(out)@ == old(out)@ + a@,
{
    let ghost pre = old(out)@;
    let mut i: usize = 0;
    while i < N
        invariant
            i <= N,
            out@ =~= pre + a@.subrange(0, i as int),
        decreases N - i,
    {
        out.push(a[i]);
        i = i + 1;
        proof {
            assert(out@ =~= pre + a@.subrange(0, i as int));
        }
    }
    proof {
        assert(a@.subrange(0, N as int) =~= a@);
    }
}

/// Appends the tagged encoding of an `Option<u64>` field to `out`.
fn push_opt_u64(out: &mut Vec<u8>, o: Option<u64>)
    ensures
        final(out)@ == old(out)@ + opt_u64_bytes(o),
{
    match o {
        None => {
            out.push(0u8);
        },
        Some(v) => {
            out.push(1u8);
            push_le(out, v as u128, 8);
            proof {
                assert(out@ =~= old(out)@ + (seq![1u8] + le_bytes(v as nat, 8)));
            }
        },
    }
}

/// Serializes an attestation to its canonical bytes. Total and deterministic:
/// the result is exactly `encoded` of the record's view.
pub fn encode(a: &TonToSolAttestationV1) -> (r: Vec<u8>)
    ensures
        r@ == encoded(a@),
{
    let mut out: Vec<u8> = Vec::new();
    out.push(a.ver);
    out.push(a.src_chain);
    out.push(a.kind);
    push_array(&mut out, &a.cfg_hash);
    push_le(&mut out, a.nonce as u128, 8);
    push_array(&mut out, &a.jetton_minter_ton);
    push_le(&mut out, a.amount_raw, 16);
    out.push(a.decimals_ton);
    push_array(&mut out, &a.dst_solana_pubkey);
    push_opt_u64(&mut out, a.min_sol_out);
    push_opt_u64(&mut out, a.deadline_ts);
    push_array(&mut out, &a.tx_hash_ton);
    push_le(&mut out, a.lt_ton as u128, 8);
    push_le(&mut out, a.timestamp_ton as u128, 8);
    proof {
        assert(out@ =~= encoded(a@));
    }
    out
}

/// Parses the `Option<u64>` field whose tag byte sits at `off`; on success
/// also yields the offset just past the field.
pub open spec fn spec_opt_at(b: Seq<u8>, off: int) -> Result<(Option<u64>, int), CodecError> {
    if off >= b.len() {
        Err(CodecError::Truncated)
    } else if b[off] == 0 {
        Ok((None, off + 1))
    } else if b[off] == 1 {
        if off + 9 <= b.len() {
            Ok((Some(le_value(b.subrange(off + 1, off + 9)) as u64), off + 9))
        } else {
            Err(CodecError::Truncated)
        }
    } else {
        Err(CodecError::BadOptionTag)
    }
}

/// The deterministic parse of a canonical attestation encoding: rejects
/// truncated input, an unknown leading version, a bad `Option` tag, and
/// trailing bytes.
pub open spec fn decode_spec(b: Seq<u8>) -> Result<AttView, CodecError> {
    if b.len() < 1 {
        Err(CodecError::Truncated)
    } else if b[0] != 1 {
        Err(CodecError::UnknownVersion)
    } else if b.len() < 128 {
        Err(CodecError::Truncated)
    } else {
        match spec_opt_at(b, 128) {
            Err(e) => Err(e),
            Ok((min_sol_out, off1)) => match spec_opt_at(b, off1) {
                Err(e) => Err(e),
                Ok((deadline_ts, off2)) => if b.len() < off2 + 48 {
                    Err(CodecError::Truncated)
                } else if b.len() > off2 + 48 {
                    Err(CodecError::TrailingBytes)
                } else {
                    Ok(
                        AttView {
                            ver: b[0],
                            src_chain: b[1],
                            kind: b[2],
                            cfg_hash: b.subrange(3, 35),
                            nonce: le_value(b.subrange(35, 43)) as u64,
                            jetton_minter_ton: b.subrange(43, 79),
                            amount_raw: le_value(b.subrange(79, 95)) as u128,
                            decimals_ton: b[95],
                            dst_solana_pubkey: b.subrange(96, 128),
                            min_sol_out,
                            deadline_ts,
                            tx_hash_ton: b.subrange(off2, off2 + 32),
                            lt_ton: le_value(b.subrange(off2 + 32, off2 + 40)) as u64,
                            timestamp_ton: le_value(b.subrange(off2 + 40, off2 + 48)) as u64,
                        },
                    )
                },
            },
        }
    }
}

/// Copies `N` bytes starting at `off` into a fixed-size array.
fn read_array<const N: usize>(b: &[u8], off: usize) -> (r: [u8; N])
    requires
        off + N <= b@.len(),
    ensures
        r@ == b@.subrange(off as int, off + N),
{
    let n: usize = b.len();
    let mut r: [u8; N] = [0u8; N];
    let mut i: usize = 0;
    while i < N
        invariant
            i <= N,
            n == b@.len(),
            off + N <= n,
            r@.len() == N,
            forall|k: int| 0 <= k < i ==> r@[k] == b@[off + k],
        decreases N - i,
    {
        r[i] = b[off + i];
        i = i + 1;
    }
    proof {
        assert(r@ =~= b@.subrange(off as int, off + N));
    }
    r
}

/// Reads the `u64` at `off` (little-endian).
fn read_u64_at(b: &[u8], off: usize) -> (r: u64)
    requires
        off + 8 <= b@.len(),
    ensures
        r as nat == le_value(b@.subrange(off as int, off + 8)),
{
    proof {
        lemma_le_value_bound(b@.subrange(off as int, off + 8));
        lemma_pow256_le_max(8);
    }
    read_le(b, off, 8) as u64
}

/// Reads the `Option<u64>` field whose tag byte sits at `off`.
fn read_opt_u64(b: &[u8], off: usize) -> (r: Result<(Option<u64>, usize), CodecError>)
    ensures
        match r {
            Ok((o, off2)) => spec_opt_at(b@, off as int) == Ok::<(Option<u64>, int), CodecError>(
                (o, off2 as int),
            ) && off < off2 <= b@.len(),
            Err(e) => spec_opt_at(b@, off as int) == Err::<(Option<u64>, int), CodecError>(e),
        },
{
    let n: usize = b.len();
    if off >= n {
        return Err(CodecError::Truncated);
    }
    let tag = b[off];
    if tag == 0 {
        Ok((None, off + 1))
    } else if tag == 1 {
        if n - off >= 9 {
            let v = read_u64_at(b, off + 1);
            proof {
                lemma_le_value_bound(b@.subrange(off + 1, off + 9));
                lemma_pow256_le_max(8);
            }
            Ok((Some(v), off + 9))
        } else {
            Err(CodecError::Truncated)
        }
    } else {
        Err(CodecError::BadOptionTag)
    }
}

/// Parses a canonical attestation encoding. The result is exactly what
/// `decode_spec` says of the bytes: success if and only if the input is a
/// well-formed version-1 record with nothing trailing, and the matching
/// rejection reason otherwise.
pub fn decode(b: &[u8]) -> (r: Result<TonToSolAttestationV1, CodecError>)
    ensures
        match r {
            Ok(a) => decode_spec(b@) == Ok::<AttView, CodecError>(a@),
            Err(e) => decode_spec(b@) == Err::<AttView, CodecError>(e),
        },
{
    let n: usize = b.len();
    if n < 1 {
        return Err(CodecError::Truncated);
    }
    let ver = b[0];
    if ver != 1 {
        return Err(CodecError::UnknownVersion);
    }
    if n < 128 {
        return Err(CodecError::Truncated);
    }
    let src_chain = b[1];
    let kind = b[2];
    let cfg_hash: [u8; 32] = read_array(b, 3);
    let nonce = read_u64_at(b, 35);
    let jetton_minter_ton: [u8; 36] = read_array(b, 43);
    let amount_raw = read_le(b, 79, 16);
    let decimals_ton = b[95];
    let dst_solana_pubkey: [u8; 32] = read_array(b, 96);
    let (min_sol_out, off1) = match read_opt_u64(b, 128) {
        Ok(x) => x,
        Err(e) => {
            return Err(e);
        },
    };
    let (deadline_ts, off2) = match read_opt_u64(b, off1) {
        Ok(x) => x,
        Err(e) => {
            return Err(e);
        },
    };
    if n - off2 < 48 {
        return Err(CodecError::Truncated);
    }
    if n - off2 > 48 {
        return Err(CodecError::TrailingBytes);
    }
    let tx_hash_ton: [u8; 32] = read_array(b, off2);
    let lt_ton = read_u64_at(b, off2 + 32);
    let timestamp_ton = read_u64_at(b, off2 + 40);
    let a = TonToSolAttestationV1 {
        ver,
        src_chain,
        kind,
        cfg_hash,
        nonce,
        jetton_minter_ton,
        amount_raw,
        decimals_ton,
        dst_solana_pubkey,
        min_sol_out,
        deadline_ts,
        tx_hash_ton,
        lt_ton,
        timestamp_ton,
    };
    proof {
        lemma_le_value_bound(b@.subrange(79, 95));
        lemma_pow256_le_max(16);
        let spec_r = decode_spec(b@);
        assert(spec_r is Ok);
        assert(a@ =~= spec_r->Ok_0);
    }
    Ok(a)
}

/// Decoding a canonical encoding recovers exactly the record that produced
/// it.
#[verifier::rlimit(60)]
pub proof fn lemma_decode_encode(v: AttView)
    requires
        att_wf(v),
        v.ver == 1,
    ensures
        decode_spec(encoded(v)) == Ok::<AttView, CodecError>(v),
{
    let b = encoded(v);
    let o1 = opt_u64_bytes(v.min_sol_out);
    let o2 = opt_u64_bytes(v.deadline_ts);
    lemma_le_bytes_len(v.nonce as nat, 8);
    lemma_le_bytes_len(v.amount_raw as nat, 16);
    lemma_le_bytes_len(v.lt_ton as nat, 8);
    lemma_le_bytes_len(v.timestamp_ton as nat, 8);
    lemma_pow256_le_max(8);
    lemma_pow256_le_max(16);
    if let Some(x) = v.min_sol_out {
        lemma_le_bytes_len(x as nat, 8);
    }
    if let Some(x) = v.deadline_ts {
        lemma_le_bytes_len(x as nat, 8);
    }
    assert(o1.len() == (if v.min_sol_out is None { 1int } else { 9int }));
    assert(o2.len() == (if v.deadline_ts is None { 1int } else { 9int }));
    let off1 = 128 + o1.len() as int;
    let off2 = off1 + o2.len() as int;
    assert(b.len() == off2 + 48);
    assert(b[0] == v.ver);
    assert(b[1] == v.src_chain);
    assert(b[2] == v.kind);
    assert(b.subrange(3, 35) =~= v.cfg_hash);
    assert(b.subrange(35, 43) =~= le_bytes(v.nonce as nat, 8));
    lemma_le_value_le_bytes(v.nonce as nat, 8);
    assert(b.subrange(43, 79) =~= v.jetton_minter_ton);
    assert(b.subrange(79, 95) =~= le_bytes(v.amount_raw as nat, 16));
    lemma_le_value_le_bytes(v.amount_raw as nat, 16);
    assert(b[95] == v.decimals_ton);
    assert(b.subrange(96, 128) =~= v.dst_solana_pubkey);
    match v.min_sol_out {
        None => {
            assert(b[128] == 0);
            assert(spec_opt_at(b, 128) == Ok::<(Option<u64>, int), CodecError>((None, off1)));
        },
        Some(x) => {
            assert(b[128] == 1);
            assert(b.subrange(129, 137) =~= le_bytes(x as nat, 8));
            lemma_le_value_le_bytes(x as nat, 8);
            assert(spec_opt_at(b, 128) == Ok::<(Option<u64>, int), CodecError>((Some(x), off1)));
        },
    }
    match v.deadline_ts {
        None => {
            assert(b[off1] == 0);
            assert(spec_opt_at(b, off1) == Ok::<(Option<u64>, int), CodecError>((None, off2)));
        },
        Some(x) => {
            assert(b[off1] == 1);
            assert(b.subrange(off1 + 1, off1 + 9) =~= le_bytes(x as nat, 8));
            lemma_le_value_le_bytes(x as nat, 8);
            assert(spec_opt_at(b, off1) == Ok::<(Option<u64>, int), CodecError>((Some(x), off2)));
        },
    }
    assert(b.subrange(off2, off2 + 32) =~= v.tx_hash_ton);
    assert(b.subrange(off2 + 32, off2 + 40) =~= le_bytes(v.lt_ton as nat, 8));
    lemma_le_value_le_bytes(v.lt_ton as nat, 8);
    assert(b.subrange(off2 + 40, off2 + 48) =~= le_bytes(v.timestamp_ton as nat, 8));
    lemma_le_value_le_bytes(v.timestamp_ton as nat, 8);
    assert(decode_spec(b) is Ok);
    assert(decode_spec(b)->Ok_0 =~= v);
}

/// Round-trip stability: re-encoding the decode of a canonical encoding
/// reproduces the same bytes.
pub proof fn lemma_encode_round_trip(v: AttView)
    requires
        att_wf(v),
        v.ver == 1,
    ensures
        decode_spec(encoded(v)) is Ok,
        encoded(decode_spec(encoded(v))->Ok_0) == encoded(v),
{
    lemma_decode_encode(v);
}

/// The canonical encoding is injective on well-formed version-1 records.
pub proof fn lemma_encode_injective(v1: AttView, v2: AttView)
    requires
        att_wf(v1),
        att_wf(v2),
        v1.ver == 1,
        v2.ver == 1,
        encoded(v1) == encoded(v2),
    ensures
        v1 == v2,
{
    lemma_decode_encode(v1);
    lemma_decode_encode(v2);
}

/// Domain separation at the record level: two attestations of different
/// `kind` never share a canonical encoding, so their domain-hash preimages
/// differ too.
pub proof fn lemma_kind_separates_encoding(v1: AttView, v2: AttView)
    requires
        v1.kind != v2.kind,
    ensures
        encoded(v1) != encoded(v2),
{
    assert(encoded(v1)[2] == v1.kind);
    assert(encoded(v2)[2] == v2.kind);
}

/// Domain separation at the label level: equal-length distinct labels (or
/// distinct messages) always give distinct hash preimages.
pub proof fn lemma_distinct_preimage(l1: Seq<u8>, l2: Seq<u8>, m1: Seq<u8>, m2: Seq<u8>)
    requires
        l1.len() == l2.len(),
        l1 != l2 || m1 != m2,
    ensures
        l1 + m1 != l2 + m2,
{
    if l1 + m1 == l2 + m2 {
        assert forall|i: int| 0 <= i < l1.len() implies l1[i] == l2[i] by {
            assert((l1 + m1)[i] == (l2 + m2)[i]);
        }
        assert(l1 =~= l2);
        assert((l1 + m1).len() == l1.len() + m1.len());
        assert((l2 + m2).len() == l2.len() + m2.len());
        assert(m1.len() == m2.len());
        assert forall|j: int| 0 <= j < m1.len() implies m1[j] == m2[j] by {
            assert((l1 + m1)[l1.len() + j] == (l2 + m2)[l2.len() + j]);
        }
        assert(m1 =~= m2);
    }
}

/// The 32 bytes that SHA-256 assigns to a byte sequence.
pub uninterp spec fn sha256_of(input: Seq<u8>) -> Seq<u8>;

/// The domain-separated hash: SHA-256 over a label's bytes followed by the
/// message bytes.
pub open spec fn domain_hash_spec(label: Seq<u8>, msg: Seq<u8>) -> Seq<u8> {
    sha256_of(label + msg)
}

/// Relies on sha2::Sha256 (`Digest::new`/`update`/`finalize`): a pure
/// function of the concatenated input bytes, yielding a 32-byte digest.
#[verifier::external_body]
pub(crate) fn sha256_concat(part1: &[u8], part2: &[u8]) -> (r: [u8; 32])
    ensures
        r@ == sha256_of(part1@ + part2@),
{
    let mut h = <sha2::Sha256 as sha2::Digest>::new();
    sha2::Digest::update(&mut h, part1);
    sha2::Digest::update(&mut h, part2);
    let mut out = [0u8; 32];
    out.copy_from_slice(&sha2::Digest::finalize(h));
    out
}

/// The domain-separated attestation hash: SHA-256 over the label's UTF-8
/// bytes followed by the record's canonical bytes. Pure and label-sensitive:
/// the label is part of the preimage.
pub fn domain_hash(domain: &str, msg: &[u8]) -> (r: [u8; 32])
    ensures
        r@ == domain_hash_spec(domain.spec_bytes(), msg@),
{
    let d = domain.as_bytes();
    sha256_concat(d, msg)
}

} // verus!
