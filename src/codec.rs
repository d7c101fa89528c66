use crate::signature::CayleyError;
use sha2::Digest;
use vstd::prelude::*;

verus! {

/// Every coefficient is `-1`, `0` or `1`.
pub open spec fn unit_coefficients(s: Seq<i8>) -> bool {
    forall|i: int| 0 <= i < s.len() ==> -1 <= #[trigger] s[i] <= 1
}

/// Byte `k` of the little-endian IEEE-754 double that holds coefficient `c`
/// (`1.0` is `3FF0...`, `-1.0` is `BFF0...`, `0.0` is all zero).
pub open spec fn coefficient_byte(c: i8, k: int) -> u8 {
    if c == 0 || k < 6 {
        0
    } else if k == 6 {
        0xF0
    } else if c == 1 {
        0x3F
    } else {
        0xBF
    }
}

/// The canonical byte form of a tensor: each coefficient as eight bytes of a
/// little-endian double, in order.
pub open spec fn canonical_bytes(s: Seq<i8>) -> Seq<u8> {
    Seq::new(8 * s.len(), |m: int| coefficient_byte(s[m / 8], m % 8))
}

/// The coefficient that eight bytes starting at `8 * i` stand for, if any.
pub open spec fn chunk_value(b: Seq<u8>, i: int) -> Option<i8> {
    let o = 8 * i;
    if b[o] != 0 || b[o + 1] != 0 || b[o + 2] != 0 || b[o + 3] != 0 || b[o + 4] != 0 || b[o
        + 5] != 0 {
        None
    } else if b[o + 6] == 0 && b[o + 7] == 0 {
        Some(0i8)
    } else if b[o + 6] == 0xF0 && b[o + 7] == 0x3F {
        Some(1i8)
    } else if b[o + 6] == 0xF0 && b[o + 7] == 0xBF {
        Some(-1i8)
    } else {
        None
    }
}

/// The tensor that a payload decodes to: defined when the payload is whole
/// eight-byte chunks, each the form of `-1`, `0` or `1`.
pub open spec fn decoded(b: Seq<u8>) -> Option<Seq<i8>> {
    if b.len() % 8 == 0 && forall|i: int| 0 <= i < b.len() / 8 ==> (#[trigger] chunk_value(b, i)).is_some() {
        Some(Seq::new(b.len() / 8, |i: int| chunk_value(b, i).unwrap()))
    } else {
        None
    }
}

/// Names the SHA-256 digest of a byte string.
pub uninterp spec fn sha256_of(bytes: Seq<u8>) -> Seq<u8>;

/// Lower-case hexadecimal digit of a value below 16.
pub open spec fn hex_digit(v: int) -> char {
    "0123456789abcdef"@[v]
}

/// `c` is one of `0`-`9`, `a`-`f`.
pub open spec fn is_hex_digit(c: char) -> bool {
    ('0' <= c <= '9') || ('a' <= c <= 'f')
}

/// Lower-case hexadecimal form of a byte string, two digits per byte, high
/// nibble first.
pub open spec fn hex_of(d: Seq<u8>) -> Seq<char> {
    Seq::new(
        2 * d.len(),
        |m: int|
            if m % 2 == 0 {
                hex_digit(d[m / 2] as int / 16)
            } else {
                hex_digit(d[m / 2] as int % 16)
            },
    )
}

/// Checksum of a tensor: the hexadecimal SHA-256 digest of its canonical bytes.
pub open spec fn checksum_of(s: Seq<i8>) -> Seq<char> {
    hex_of(sha256_of(canonical_bytes(s)))
}

proof fn lemma_chunk_pos(i: int, k: int)
    requires
        0 <= i,
        0 <= k < 8,
    ensures
        (8 * i + k) / 8 == i,
        (8 * i + k) % 8 == k,
{
}

/// Decoding the encoding of a tensor of unit coefficients gives the tensor
/// back, coefficient for coefficient.
pub proof fn lemma_round_trip(s: Seq<i8>)
    requires
        unit_coefficients(s),
    ensures
        decoded(canonical_bytes(s)) == Some(s),
{
    let b = canonical_bytes(s);
    assert(b.len() / 8 == s.len());
    assert forall|i: int| 0 <= i < b.len() / 8 implies #[trigger] chunk_value(b, i) == Some(
        s[i],
    ) by {
        assert forall|k: int| 0 <= k < 8 implies b[8 * i + k] == coefficient_byte(s[i], k) by {
            lemma_chunk_pos(i, k);
        }
    }
    assert(decoded(b).unwrap() =~= s);
}

/// A decoded payload holds unit coefficients only.
pub proof fn lemma_decoded_units(b: Seq<u8>)
    requires
        decoded(b) is Some,
    ensures
        unit_coefficients(decoded(b).unwrap()),
{
    let t = decoded(b).unwrap();
    assert forall|i: int| 0 <= i < t.len() implies -1 <= #[trigger] t[i] <= 1 by {
        assert(chunk_value(b, i).is_some());
    }
}

/// The checksum is a function of the tensor alone: equal tensors have equal
/// checksums.
pub proof fn lemma_checksum_deterministic(s1: Seq<i8>, s2: Seq<i8>)
    requires
        s1 == s2,
    ensures
        checksum_of(s1) == checksum_of(s2),
{
}

/// Distinct tensors of unit coefficients have distinct canonical bytes, so
/// the digest behind the checksum is taken over distinct inputs.
pub proof fn lemma_canonical_bytes_injective(s1: Seq<i8>, s2: Seq<i8>)
    requires
        unit_coefficients(s1),
        unit_coefficients(s2),
        s1 != s2,
    ensures
        canonical_bytes(s1) != canonical_bytes(s2),
{
    lemma_round_trip(s1);
    lemma_round_trip(s2);
}

/// Distinct digests have distinct hexadecimal forms: a checksum tells apart
/// any two tensors whose digests differ.
pub proof fn lemma_hex_injective(d1: Seq<u8>, d2: Seq<u8>)
    requires
        d1 != d2,
    ensures
        hex_of(d1) != hex_of(d2),
{
    reveal_strlit("0123456789abcdef");
    if hex_of(d1) == hex_of(d2) {
        assert(hex_of(d1).len() == 2 * d1.len());
        assert(hex_of(d2).len() == 2 * d2.len());
        assert(d1.len() == d2.len());
        assert forall|i: int| 0 <= i < d1.len() implies d1[i] == d2[i] by {
            assert(hex_of(d1)[2 * i] == hex_of(d2)[2 * i]);
            assert(hex_of(d1)[2 * i + 1] == hex_of(d2)[2 * i + 1]);
            assert((2 * i) / 2 == i && (2 * i) % 2 == 0);
            assert((2 * i + 1) / 2 == i && (2 * i + 1) % 2 == 1);
            let h1 = d1[i] as int / 16;
            let h2 = d2[i] as int / 16;
            let l1 = d1[i] as int % 16;
            let l2 = d2[i] as int % 16;
            assert(hex_digit(h1) == hex_digit(h2));
            assert(hex_digit(l1) == hex_digit(l2));
            assert(h1 == h2);
            assert(l1 == l2);
        }
        assert(d1 =~= d2);
    }
}

/// Encodes a tensor's coefficients into their storage payload, the canonical
/// byte form.
pub fn encode(coefficients: &Vec<i8>) -> (out: Vec<u8>)
    requires
        unit_coefficients(coefficients@),
        8 * coefficients@.len() <= usize::MAX,
    ensures
        out@ == canonical_bytes(coefficients@),
{
    let mut out: Vec<u8> = Vec::new();
    let mut i: usize = 0;
    while i < coefficients.len()
        invariant
            unit_coefficients(coefficients@),
            8 * coefficients@.len() <= usize::MAX,
            i <= coefficients@.len(),
            out@.len() == 8 * i,
            forall|m: int|
                0 <= m < 8 * i ==> out@[m] == #[trigger] coefficient_byte(
                    coefficients@[m / 8],
                    m % 8,
                ),
        decreases coefficients@.len() - i,
    {
        let c = coefficients[i];
        let (b6, b7): (u8, u8) = if c == 0 {
            (0, 0)
        } else if c == 1 {
            (0xF0, 0x3F)
        } else {
            (0xF0, 0xBF)
        };
        let ghost before = out@;
        out.push(0);
        out.push(0);
        out.push(0);
        out.push(0);
        out.push(0);
        out.push(0);
        out.push(b6);
        out.push(b7);
        proof {
            assert forall|m: int| 0 <= m < 8 * (i + 1) implies out@[m] == #[trigger] coefficient_byte(
                coefficients@[m / 8],
                m % 8,
            ) by {
                if m >= 8 * i {
                    lemma_chunk_pos(i as int, m - 8 * i);
                }
            }
        }
        i = i + 1;
    }
    assert(out@ =~= canonical_bytes(coefficients@));
    out
}

/// Decodes a storage payload back into coefficients; malformed bytes are a
/// `DecodeCorruption`.
pub fn decode(bytes: &Vec<u8>) -> (res: Result<Vec<i8>, CayleyError>)
    ensures
        decoded(bytes@) is None <==> res == Err::<Vec<i8>, CayleyError>(
            CayleyError::DecodeCorruption,
        ),
        decoded(bytes@) is Some <==> res is Ok,
        res matches Ok(v) ==> Some(v@) == decoded(bytes@),
{
    if bytes.len() % 8 != 0 {
        return Err(CayleyError::DecodeCorruption);
    }
    let n = bytes.len() / 8;
    let mut out: Vec<i8> = Vec::new();
    let mut i: usize = 0;
    while i < n
        invariant
            bytes@.len() == 8 * n,
            bytes@.len() <= usize::MAX,
            i <= n,
            out@.len() == i,
            forall|x: int|
                0 <= x < i ==> (#[trigger] chunk_value(bytes@, x)).is_some() && out@[x]
                    == chunk_value(bytes@, x).unwrap(),
        decreases n - i,
    {
        let o = 8 * i;
        let v: Option<i8> = if bytes[o] != 0 || bytes[o + 1] != 0 || bytes[o + 2] != 0 || bytes[o
            + 3] != 0 || bytes[o + 4] != 0 || bytes[o + 5] != 0 {
            None
        } else if bytes[o + 6] == 0 && bytes[o + 7] == 0 {
            Some(0i8)
        } else if bytes[o + 6] == 0xF0 && bytes[o + 7] == 0x3F {
            Some(1i8)
        } else if bytes[o + 6] == 0xF0 && bytes[o + 7] == 0xBF {
            Some(-1i8)
        } else {
            None
        };
        assert(v == chunk_value(bytes@, i as int));
        match v {
            Some(c) => {
                out.push(c);
            },
            None => {
                return Err(CayleyError::DecodeCorruption);
            },
        }
        i = i + 1;
    }
    assert(out@ =~= decoded(bytes@).unwrap());
    Ok(out)
}

/// Relies on sha2::Sha256::digest: the SHA-256 digest of the bytes, which is
/// 32 bytes long.
#[verifier::external_body]
fn sha256_digest(bytes: &Vec<u8>) -> (d: Vec<u8>)
    ensures
        d@ == sha256_of(bytes@),
        d@.len() == 32,
{
    sha2::Sha256::digest(bytes.as_slice()).to_vec()
}

/// Lower-case hexadecimal form of a byte string.
pub fn to_hex(d: &Vec<u8>) -> (s: String)
    requires
        2 * d@.len() <= usize::MAX,
    ensures
        s@ == hex_of(d@),
        s@.len() == 2 * d@.len(),
{
    let digits = "0123456789abcdef";
    proof {
        reveal_strlit("0123456789abcdef");
    }
    let mut s = String::new();
    let mut i: usize = 0;
    while i < d.len()
        invariant
            digits@ == "0123456789abcdef"@,
            digits@.len() == 16,
            i <= d@.len(),
            s@.len() == 2 * i,
            forall|m: int| 0 <= m < 2 * i ==> s@[m] == #[trigger] hex_of(d@)[m],
        decreases d@.len() - i,
    {
        let hi = (d[i] / 16) as usize;
        let lo = (d[i] % 16) as usize;
        let ghost before = s@;
        s.append(digits.substring_char(hi, hi + 1));
        s.append(digits.substring_char(lo, lo + 1));
        proof {
            assert forall|m: int| 0 <= m < 2 * (i + 1) implies s@[m] == #[trigger] hex_of(
                d@,
            )[m] by {
                if m >= 2 * i {
                    assert(m == 2 * i || m == 2 * i + 1);
                }
            }
        }
        i = i + 1;
    }
    assert(s@ =~= hex_of(d@));
    s
}

/// Checksum of a tensor, computed over its canonical byte form.
pub fn checksum(coefficients: &Vec<i8>) -> (c: String)
    requires
        unit_coefficients(coefficients@),
        8 * coefficients@.len() <= usize::MAX,
    ensures
        c@ == checksum_of(coefficients@),
        c@.len() == 64,
        forall|i: int| 0 <= i < 64 ==> is_hex_digit(#[trigger] c@[i]),
{
    let bytes = encode(coefficients);
    let digest = sha256_digest(&bytes);
    let c = to_hex(&digest);
    proof {
        reveal_strlit("0123456789abcdef");
        assert forall|i: int| 0 <= i < 64 implies is_hex_digit(#[trigger] c@[i]) by {
            assert(c@[i] == hex_of(digest@)[i]);
        }
    }
    c
}

} // verus!
