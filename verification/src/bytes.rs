//! Byte-level building blocks of the canonical attestation encoding and of
//! the text formats (decimal, hexadecimal) that the relay core reads and
//! writes.

use vstd::prelude::*;

verus! {

use vstd::string::StringSliceAdditionalSpecFns;
use vstd::string::StrSliceExecFns;

// ---------------------------------------------------------------------------
// Little-endian fixed-width integers
// ---------------------------------------------------------------------------

/// 256 to the power `w`: the number of values a `w`-byte field can hold.
pub open spec fn pow256(w: nat) -> nat
    decreases w,
{
    if w == 0 {
        1
    } else {
        256 * pow256((w - 1) as nat)
    }
}

/// The `w`-byte little-endian encoding of `n` (high bits beyond `w` bytes are
/// dropped).
pub open spec fn le_bytes(n: nat, w: nat) -> Seq<u8>
    decreases w,
{
    if w == 0 {
        Seq::empty()
    } else {
        seq![(n % 256) as u8] + le_bytes(n / 256, (w - 1) as nat)
    }
}

/// The value that a little-endian byte sequence denotes.
pub open spec fn le_value(s: Seq<u8>) -> nat
    decreases s.len(),
{
    if s.len() == 0 {
        0nat
    } else {
        (s[0] + 256 * le_value(s.drop_first())) as nat
    }
}

pub proof fn lemma_le_bytes_len(n: nat, w: nat)
    ensures
        le_bytes(n, w).len() == w,
    decreases w,
{
    if w > 0 {
        lemma_le_bytes_len(n / 256, (w - 1) as nat);
    }
}

pub proof fn lemma_le_value_bound(s: Seq<u8>)
    ensures
        le_value(s) < pow256(s.len()),
    decreases s.len(),
{
    if s.len() > 0 {
        lemma_le_value_bound(s.drop_first());
        assert(le_value(s) == s[0] + 256 * le_value(s.drop_first()));
        assert(256 * le_value(s.drop_first()) <= 256 * (pow256(s.drop_first().len()) - 1))
            by (nonlinear_arith)
            requires
                le_value(s.drop_first()) <= pow256(s.drop_first().len()) - 1,
        ;
    }
}

/// Round trip: reading back the `w`-byte encoding of `n` yields `n`, as long
/// as `n` fits in `w` bytes.
pub proof fn lemma_le_value_le_bytes(n: nat, w: nat)
    requires
        n < pow256(w),
    ensures
        le_value(le_bytes(n, w)) == n,
    decreases w,
{
    if w > 0 {
        assert(n / 256 < pow256((w - 1) as nat)) by (nonlinear_arith)
            requires
                n < 256 * pow256((w - 1) as nat),
        ;
        lemma_le_value_le_bytes(n / 256, (w - 1) as nat);
        let s = le_bytes(n, w);
        assert(s.drop_first() =~= le_bytes(n / 256, (w - 1) as nat));
        assert(n % 256 + 256 * (n / 256) == n) by (nonlinear_arith);
    } else {
        assert(n == 0);
    }
}

/// Appends the `w`-byte little-endian encoding of `x` to `out`.
pub fn push_le(out: &mut Vec<u8>, x: u128, w: usize)
    ensures
        final(out)@ == old(out)@ + le_bytes(x as nat, w as nat),
{
    let ghost pre = old(out)@;
    let mut v: u128 = x;
    let mut i: usize = 0;
    while i < w
        invariant
            i <= w,
            out@.len() == pre.len() + i,
            out@.subrange(0, pre.len() as int) == pre,
            le_bytes(x as nat, w as nat) == out@.subrange(pre.len() as int, out@.len() as int)
                + le_bytes(v as nat, (w - i) as nat),
        decreases w - i,
    {
        let b: u8 = (v % 256) as u8;
        proof {
            assert(le_bytes(v as nat, (w - i) as nat) == seq![(v as nat % 256) as u8]
                + le_bytes(v as nat / 256, (w - i - 1) as nat));
        }
        out.push(b);
        v = v / 256;
        i = i + 1;
        proof {
            assert(out@.subrange(0, pre.len() as int) =~= pre);
            assert(out@.subrange(pre.len() as int, out@.len() as int) =~= out@.subrange(
                pre.len() as int,
                out@.len() - 1,
            ) + seq![b]);
            assert(le_bytes(x as nat, w as nat) =~= out@.subrange(pre.len() as int, out@.len() as int)
                + le_bytes(v as nat, (w - i) as nat));
        }
    }
    proof {
        assert(le_bytes(x as nat, w as nat) =~= out@.subrange(pre.len() as int, out@.len() as int));
        assert(final(out)@ =~= pre + le_bytes(x as nat, w as nat));
    }
}

/// Reads the `w`-byte little-endian integer at `off`; `w` is at most 16.
pub fn read_le(b: &[u8], off: usize, w: usize) -> (r: u128)
    requires
        w <= 16,
        off + w <= b@.len(),
    ensures
        r as nat == le_value(b@.subrange(off as int, (off + w) as int)),
{
    let ghost s = b@.subrange(off as int, (off + w) as int);
    proof {
        lemma_le_value_bound(s);
        lemma_pow256_le_max(w as nat);
    }
    let n: usize = b.len();
    let mut v: u128 = 0;
    let mut i: usize = w;
    while i > 0
        invariant
            i <= w,
            w <= 16,
            n == b@.len(),
            off + w <= n,
            s == b@.subrange(off as int, (off + w) as int),
            v as nat == le_value(s.subrange(i as int, w as int)),
            (v as nat) < pow256((w - i) as nat),
        decreases i,
    {
        i = i - 1;
        let byte: u8 = b[off + i];
        proof {
            let tail = s.subrange(i as int, w as int);
            assert(tail.len() > 0);
            assert(tail[0] == s[i as int]);
            assert(s[i as int] == b@[off + i]);
            assert(tail.drop_first() =~= s.subrange(i + 1, w as int));
            assert(le_value(tail) == tail[0] + 256 * le_value(tail.drop_first()));
            assert(byte + 256 * (v as nat) < 256 * pow256((w - i - 1) as nat)) by (nonlinear_arith)
                requires
                    byte < 256,
                    (v as nat) < pow256((w - i - 1) as nat),
            ;
            lemma_pow256_le_max(16);
            lemma_pow256_monotone((w - i) as nat, 16);
        }
        v = v * 256 + (byte as u128);
    }
    proof {
        assert(s.subrange(0, w as int) =~= s);
    }
    v
}

// ---------------------------------------------------------------------------
// Decimal text
// ---------------------------------------------------------------------------

/// Is `c` a decimal digit character?
pub open spec fn is_dec_digit_char(c: char) -> bool {
    48 <= c as int && c as int <= 57
}

/// A non-empty, all-digit character sequence.
pub open spec fn is_dec_chars(s: Seq<char>) -> bool {
    s.len() > 0 && forall|i: int| 0 <= i < s.len() ==> is_dec_digit_char(#[trigger] s[i])
}

/// The value a digit string denotes (meaningful when `is_dec_chars` holds).
pub open spec fn dec_chars_val(s: Seq<char>) -> nat
    decreases s.len(),
{
    if s.len() == 0 {
        0nat
    } else {
        (dec_chars_val(s.drop_last()) * 10 + (s.last() as int - 48)) as nat
    }
}

/// What `str::parse::<u128>` accepts: an optional leading `+`, then one or
/// more digits, denoting a value that fits.
pub open spec fn parse_u128_spec(s: Seq<char>) -> Option<u128> {
    let t = if s.len() > 0 && s[0] == '+' {
        s.drop_first()
    } else {
        s
    };
    if is_dec_chars(t) && dec_chars_val(t) <= u128::MAX {
        Some(dec_chars_val(t) as u128)
    } else {
        None
    }
}

/// What `str::parse::<u64>` accepts.
pub open spec fn parse_u64_spec(s: Seq<char>) -> Option<u64> {
    match parse_u128_spec(s) {
        Some(v) => if v <= u64::MAX as u128 {
            Some(v as u64)
        } else {
            None
        },
        None => None,
    }
}

/// Extending a digit string never shrinks its value.
proof fn lemma_dec_chars_val_monotone(s: Seq<char>, i: int)
    requires
        0 <= i <= s.len(),
        forall|k: int| 0 <= k < s.len() ==> is_dec_digit_char(#[trigger] s[k]),
    ensures
        dec_chars_val(s.subrange(0, i)) <= dec_chars_val(s),
    decreases s.len() - i,
{
    if i < s.len() {
        lemma_dec_chars_val_monotone(s, i + 1);
        let p = s.subrange(0, i);
        let q = s.subrange(0, i + 1);
        assert(q.drop_last() =~= p);
        assert(dec_chars_val(q) == dec_chars_val(p) * 10 + (q.last() as int - 48));
        assert(dec_chars_val(p) * 10 >= dec_chars_val(p)) by (nonlinear_arith)
            requires
                dec_chars_val(p) >= 0,
        ;
    } else {
        assert(s.subrange(0, i) =~= s);
    }
}

/// `str::parse::<u128>(s)`: the value for a well-formed decimal string that
/// fits, and nothing for anything else.
pub fn parse_u128_opt(s: &str) -> (r: Option<u128>)
    ensures
        r == parse_u128_spec(s@),
{
    let n = s.unicode_len();
    if n == 0 {
        return None;
    }
    let first = s.get_char(0);
    let start: usize = if first == '+' {
        1
    } else {
        0
    };
    let ghost t = if s@.len() > 0 && s@[0] == '+' {
        s@.drop_first()
    } else {
        s@
    };
    proof {
        assert(t =~= s@.subrange(start as int, n as int));
    }
    if n == start {
        return None;
    }
    let mut acc: u128 = 0;
    let mut i: usize = start;
    while i < n
        invariant
            start <= i <= n,
            start <= 1,
            n == s@.len(),
            t == s@.subrange(start as int, n as int),
            t == (if s@.len() > 0 && s@[0] == '+' {
                s@.drop_first()
            } else {
                s@
            }),
            t.len() == n - start,
            forall|k: int| 0 <= k < i - start ==> is_dec_digit_char(#[trigger] t[k]),
            acc as nat == dec_chars_val(t.subrange(0, i - start)),
        decreases n - i,
    {
        let c = s.get_char(i);
        let cu: u32 = c as u32;
        proof {
            assert(t[i - start] == s@[i as int]);
        }
        if cu < 48 || cu > 57 {
            proof {
                assert(!is_dec_digit_char(t[i - start]));
                assert(!is_dec_chars(t));
            }
            return None;
        }
        let d: u128 = (cu - 48) as u128;
        // would acc * 10 + d overflow u128?
        if acc > (u128::MAX - d) / 10 {
            proof {
                if is_dec_chars(t) {
                    let p = t.subrange(0, i - start);
                    let q = t.subrange(0, i - start + 1);
                    assert(q.drop_last() =~= p);
                    assert(q.last() == c);
                    assert(dec_chars_val(q) == dec_chars_val(p) * 10 + d);
                    assert(dec_chars_val(p) * 10 + d > u128::MAX) by (nonlinear_arith)
                        requires
                            dec_chars_val(p) > (u128::MAX - d) / 10,
                            0 <= d < 10,
                    ;
                    lemma_dec_chars_val_monotone(t, i - start + 1);
                }
            }
            return None;
        }
        proof {
            let p = t.subrange(0, i - start);
            let q = t.subrange(0, i - start + 1);
            assert(q.drop_last() =~= p);
            assert(q.last() == c);
            assert(dec_chars_val(p) * 10 + d <= u128::MAX) by (nonlinear_arith)
                requires
                    dec_chars_val(p) <= (u128::MAX - d) / 10,
                    0 <= d < 10,
            ;
        }
        acc = acc * 10 + d;
        i = i + 1;
    }
    proof {
        assert(t.subrange(0, (n - start) as int) =~= t);
        assert(is_dec_chars(t));
    }
    Some(acc)
}

/// `str::parse::<u64>(s)`, via the `u128` parser and a range check.
pub fn parse_u64_opt(s: &str) -> (r: Option<u64>)
    ensures
        r == parse_u64_spec(s@),
{
    match parse_u128_opt(s) {
        Some(v) => if v > u64::MAX as u128 {
            None
        } else {
            Some(v as u64)
        },
        None => None,
    }
}

/// The decimal digit string of `n`, as ASCII bytes.
pub open spec fn dec_bytes(n: nat) -> Seq<u8>
    decreases n,
{
    if n < 10 {
        seq![(48 + n) as u8]
    } else {
        dec_bytes(n / 10) + seq![(48 + n % 10) as u8]
    }
}

/// The decimal digit string of `n`, as characters.
pub open spec fn dec_chars(n: nat) -> Seq<char> {
    dec_bytes(n).map_values(|b: u8| b as char)
}

proof fn lemma_dec_bytes_ascii(n: nat)
    ensures
        forall|i: int| 0 <= i < dec_bytes(n).len() ==> 48 <= #[trigger] dec_bytes(n)[i] <= 57,
    decreases n,
{
    if n >= 10 {
        lemma_dec_bytes_ascii(n / 10);
        assert forall|i: int| 0 <= i < dec_bytes(n).len() implies 48 <= #[trigger] dec_bytes(n)[i]
            <= 57 by {
            if i < dec_bytes(n / 10).len() {
                assert(dec_bytes(n)[i] == dec_bytes(n / 10)[i]);
            } else {
                assert(dec_bytes(n)[i] == (48 + n % 10) as u8);
            }
        }
    } else {
        assert(dec_bytes(n)[0] == (48 + n) as u8);
    }
}

/// The decimal digit string of `n`.
pub fn u64_to_dec(n: u64) -> (r: String)
    ensures
        r@ == dec_chars(n as nat),
{
    let mut tmp: Vec<u8> = Vec::new();
    let mut v: u64 = n;
    while v >= 10
        invariant
            dec_bytes(n as nat) == dec_bytes(v as nat) + tmp@.reverse(),
        decreases v,
    {
        let d: u8 = (v % 10) as u8;
        proof {
            assert(dec_bytes(v as nat) == dec_bytes(v as nat / 10) + seq![(48 + v as nat % 10) as u8]);
            assert((tmp@ + seq![(48 + d) as u8]).reverse() =~= seq![(48 + d) as u8] + tmp@.reverse());
        }
        tmp.push(48 + d);
        v = v / 10;
    }
    proof {
        assert(dec_bytes(v as nat) == seq![(48 + v as nat) as u8]);
        assert((tmp@ + seq![(48 + v as nat) as u8]).reverse() =~= seq![(48 + v as nat) as u8]
            + tmp@.reverse());
    }
    tmp.push(48 + (v as u8));
    let mut out: Vec<u8> = Vec::new();
    let mut i: usize = tmp.len();
    while i > 0
        invariant
            i <= tmp@.len(),
            dec_bytes(n as nat) == tmp@.reverse(),
            out@ =~= tmp@.reverse().subrange(0, tmp@.len() - i),
        decreases i,
    {
        i = i - 1;
        let b = tmp[i];
        proof {
            assert(tmp@.reverse()[tmp@.len() - i - 1] == tmp@[i as int]);
            assert(out@ + seq![b] =~= tmp@.reverse().subrange(0, tmp@.len() - i));
        }
        out.push(b);
    }
    proof {
        assert(out@ =~= tmp@.reverse());
        lemma_dec_bytes_ascii(n as nat);
    }
    string_from_ascii(out)
}

/// Relies on `String::from_utf8`: ASCII bytes are valid UTF-8 and decode to
/// the same code points.
#[verifier::external_body]
fn string_from_ascii(v: Vec<u8>) -> (r: String)
    requires
        forall|i: int| 0 <= i < v@.len() ==> #[trigger] v@[i] < 128,
    ensures
        r@ == v@.map_values(|b: u8| b as char),
{
    match String::from_utf8(v) {
        Ok(s) => s,
        Err(_) => String::new(),
    }
}

// ---------------------------------------------------------------------------
// Hexadecimal text
// ---------------------------------------------------------------------------

/// The lowercase hex digit character for `n` (meaningful when `n < 16`).
pub open spec fn hex_digit_char(n: u8) -> char {
    if n < 10 {
        ((48 + n) as u8) as char
    } else {
        ((87 + n) as u8) as char
    }
}

/// The lowercase hex expansion of a byte sequence, two digits per byte.
pub open spec fn hex_of(s: Seq<u8>) -> Seq<char>
    decreases s.len(),
{
    if s.len() == 0 {
        Seq::empty()
    } else {
        seq![hex_digit_char(s[0] / 16), hex_digit_char(s[0] % 16)] + hex_of(s.drop_first())
    }
}

/// The value of an ASCII hex digit byte, or -1 for any other byte. Upper and
/// lower case are both accepted, as `hex::decode` does.
pub open spec fn hex_byte_val(b: u8) -> int {
    if 48 <= b && b <= 57 {
        b - 48
    } else if 97 <= b && b <= 102 {
        b - 87
    } else if 65 <= b && b <= 70 {
        b - 55
    } else {
        -1
    }
}

/// An even-length, all-hex-digit byte sequence.
pub open spec fn is_hex_bytes(s: Seq<u8>) -> bool {
    s.len() % 2 == 0 && forall|i: int| 0 <= i < s.len() ==> hex_byte_val(#[trigger] s[i]) >= 0
}

/// The bytes a hex digit string denotes (meaningful when `is_hex_bytes`).
pub open spec fn hex_bytes_decode(s: Seq<u8>) -> Seq<u8>
    decreases s.len(),
{
    if s.len() < 2 {
        Seq::empty()
    } else {
        seq![(hex_byte_val(s[0]) * 16 + hex_byte_val(s[1])) as u8] + hex_bytes_decode(s.skip(2))
    }
}

pub proof fn lemma_hex_decode_len(s: Seq<u8>)
    requires
        s.len() % 2 == 0,
    ensures
        hex_bytes_decode(s).len() == s.len() / 2,
    decreases s.len(),
{
    if s.len() >= 2 {
        lemma_hex_decode_len(s.skip(2));
    }
}

/// Decodes the hex digit string in `b[start..end]`, or reports that it is not
/// one.
pub fn hex_decode_range(b: &[u8], start: usize, end: usize) -> (r: Option<Vec<u8>>)
    requires
        start <= end <= b@.len(),
    ensures
        ({
            let t = b@.subrange(start as int, end as int);
            match r {
                Some(v) => is_hex_bytes(t) && v@ == hex_bytes_decode(t),
                None => !is_hex_bytes(t),
            }
        }),
{
    let ghost t = b@.subrange(start as int, end as int);
    if (end - start) % 2 != 0 {
        return None;
    }
    let mut out: Vec<u8> = Vec::new();
    proof {
        assert(t.skip(0) =~= t);
        assert(out@ + hex_bytes_decode(t) =~= hex_bytes_decode(t));
    }
    let mut i: usize = start;
    while i < end
        invariant
            start <= i <= end <= b@.len(),
            (end - start) % 2 == 0,
            (i - start) % 2 == 0,
            t == b@.subrange(start as int, end as int),
            t.len() == end - start,
            forall|k: int| 0 <= k < i - start ==> hex_byte_val(#[trigger] t[k]) >= 0,
            hex_bytes_decode(t) == out@ + hex_bytes_decode(t.skip(i - start)),
        decreases end - i,
    {
        let hi = match hex_val_of(b[i]) {
            Some(v) => v,
            None => {
                proof {
                    assert(t[i - start] == b@[i as int]);
                }
                return None;
            },
        };
        let lo = match hex_val_of(b[i + 1]) {
            Some(v) => v,
            None => {
                proof {
                    assert(t[i + 1 - start] == b@[i + 1]);
                }
                return None;
            },
        };
        proof {
            let rest = t.skip(i - start);
            assert(rest[0] == b@[i as int]);
            assert(rest[1] == b@[i + 1]);
            assert(rest.len() >= 2);
            assert(hex_bytes_decode(rest) == seq![(hex_byte_val(rest[0]) * 16 + hex_byte_val(
                rest[1],
            )) as u8] + hex_bytes_decode(rest.skip(2)));
            assert(rest.skip(2) =~= t.skip(i - start + 2));
            assert(t[i - start] == b@[i as int]);
            assert(t[i + 1 - start] == b@[i + 1]);
            assert(out@ + seq![(hi * 16 + lo) as u8] + hex_bytes_decode(t.skip(i - start + 2))
                =~= out@ + hex_bytes_decode(t.skip(i - start)));
        }
        out.push(hi * 16 + lo);
        i = i + 2;
    }
    proof {
        assert(t.skip(end - start) =~= Seq::<u8>::empty());
        assert(hex_bytes_decode(t) =~= out@);
        assert(is_hex_bytes(t));
    }
    Some(out)
}

/// The value of one hex digit byte, if it is one.
fn hex_val_of(b: u8) -> (r: Option<u8>)
    ensures
        match r {
            Some(v) => hex_byte_val(b) == v && v < 16,
            None => hex_byte_val(b) < 0,
        },
{
    if 48 <= b && b <= 57 {
        Some(b - 48)
    } else if 97 <= b && b <= 102 {
        Some(b - 87)
    } else if 65 <= b && b <= 70 {
        Some(b - 55)
    } else {
        None
    }
}

// ---------------------------------------------------------------------------
// ASCII whitespace trimming
// ---------------------------------------------------------------------------

/// Is `b` an ASCII whitespace byte (space, tab, line feed, vertical tab, form
/// feed, carriage return)?
pub open spec fn is_ascii_space(b: u8) -> bool {
    b == 32 || (9 <= b && b <= 13)
}

/// `s` with leading and trailing ASCII whitespace removed.
pub open spec fn trim_bytes(s: Seq<u8>) -> Seq<u8>
    decreases s.len(),
{
    if s.len() == 0 {
        s
    } else if is_ascii_space(s[0]) {
        trim_bytes(s.drop_first())
    } else if is_ascii_space(s.last()) {
        trim_bytes(s.drop_last())
    } else {
        s
    }
}

proof fn lemma_trim_is_subrange(s: Seq<u8>, i: int, j: int)
    requires
        0 <= i <= j <= s.len(),
        forall|k: int| 0 <= k < i ==> is_ascii_space(#[trigger] s[k]),
        forall|k: int| j <= k < s.len() ==> is_ascii_space(#[trigger] s[k]),
        i < j ==> !is_ascii_space(s[i]) && !is_ascii_space(s[j - 1]),
        i == j ==> j == s.len(),
    ensures
        trim_bytes(s) == s.subrange(i, j),
    decreases s.len(),
{
    if s.len() == 0 {
        assert(trim_bytes(s) =~= s.subrange(i, j));
    } else if i > 0 {
        let s1 = s.drop_first();
        lemma_trim_is_subrange(s1, i - 1, j - 1);
        assert(s1.subrange(i - 1, j - 1) =~= s.subrange(i, j));
    } else if j < s.len() {
        let s1 = s.drop_last();
        lemma_trim_is_subrange(s1, i, j);
        assert(s1.subrange(i, j) =~= s.subrange(i, j));
    } else {
        assert(trim_bytes(s) == s);
        assert(s.subrange(i, j) =~= s);
    }
}

/// The bounds of `b` with leading and trailing ASCII whitespace dropped:
/// `b[r.0..r.1]` is `trim_bytes(b@)`.
pub fn trim_bounds(b: &[u8]) -> (r: (usize, usize))
    ensures
        r.0 <= r.1 <= b@.len(),
        b@.subrange(r.0 as int, r.1 as int) == trim_bytes(b@),
{
    let n: usize = b.len();
    let mut i: usize = 0;
    while i < n && (b[i] == 32 || (9 <= b[i] && b[i] <= 13))
        invariant
            i <= n,
            n == b@.len(),
            forall|k: int| 0 <= k < i ==> is_ascii_space(#[trigger] b@[k]),
        decreases n - i,
    {
        i = i + 1;
    }
    let mut j: usize = n;
    while j > i && (b[j - 1] == 32 || (9 <= b[j - 1] && b[j - 1] <= 13))
        invariant
            i <= j <= n,
            n == b@.len(),
            forall|k: int| 0 <= k < i ==> is_ascii_space(#[trigger] b@[k]),
            forall|k: int| j <= k < n ==> is_ascii_space(#[trigger] b@[k]),
        decreases j,
    {
        j = j - 1;
    }
    proof {
        if i == j && i < n {
            // the two loop exits contradict: b[i] is and is not whitespace
            assert(is_ascii_space(b@[i as int]));
            assert(false);
        }
        lemma_trim_is_subrange(b@, i as int, j as int);
    }
    (i, j)
}

pub proof fn lemma_pow256_monotone(a: nat, b: nat)
    requires
        a <= b,
    ensures
        pow256(a) <= pow256(b),
    decreases b,
{
    if a < b && b > 0 {
        lemma_pow256_monotone(a, (b - 1) as nat);
        assert(pow256((b - 1) as nat) <= 256 * pow256((b - 1) as nat)) by (nonlinear_arith)
            requires
                pow256((b - 1) as nat) >= 0,
        ;
    }
}

pub proof fn lemma_pow256_le_max(w: nat)
    requires
        w <= 16,
    ensures
        pow256(w) <= 0x1_0000_0000_0000_0000_0000_0000_0000_0000,
        w <= 8 ==> pow256(w) <= 0x1_0000_0000_0000_0000,
        pow256(8) == 0x1_0000_0000_0000_0000,
        pow256(16) == 0x1_0000_0000_0000_0000_0000_0000_0000_0000,
{
    reveal_with_fuel(pow256, 17);
    assert(pow256(16) == 0x1_0000_0000_0000_0000_0000_0000_0000_0000);
    assert(pow256(8) == 0x1_0000_0000_0000_0000);
    lemma_pow256_monotone(w, 16);
    if w <= 8 {
        lemma_pow256_monotone(w, 8);
    }
}

} // verus!
