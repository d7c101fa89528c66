use vstd::arithmetic::power2::{lemma2_to64, lemma_pow2_unfold, pow2};
use vstd::prelude::*;

verus! {

/// Highest number of basis directions for which a table is ever built.
/// At this ceiling a table has `64^3` coefficients.
pub const MAX_DIMENSIONS: u32 = 6;

/// Why a request or a batch step could not be served.
#[derive(Debug, Clone, Copy, PartialEq, Eq, Structural)]
pub enum CayleyError {
    /// The signature is not exactly three non-negative integers.
    InvalidSignature,
    /// The signature has more basis directions than `MAX_DIMENSIONS`.
    DimensionTooLarge,
    /// The store already holds a record for this signature.
    DuplicateKey,
    /// Stored bytes are malformed or do not match their checksum.
    DecodeCorruption,
}

/// An algebra signature `(p, q, r)`: the numbers of basis directions that
/// square to `+1`, `-1` and `0`.
#[derive(Debug, Clone, Copy, PartialEq, Eq, Structural)]
pub struct Signature {
    pub p: u32,
    pub q: u32,
    pub r: u32,
}

impl Signature {
    /// `p + q + r`.
    pub open spec fn dims(self) -> nat {
        (self.p + self.q + self.r) as nat
    }

    /// `2^(p + q + r)`.
    pub open spec fn basis(self) -> nat {
        pow2(self.dims())
    }

    /// The signature is small enough for a table to be built.
    pub open spec fn within_cap(self) -> bool {
        self.dims() <= MAX_DIMENSIONS
    }

    pub fn new(p: u32, q: u32, r: u32) -> (s: Signature)
        ensures
            s == (Signature { p, q, r }),
    {
        Signature { p, q, r }
    }

    /// Number of basis directions.
    pub fn dimensions(&self) -> (d: u64)
        ensures
            d == self.dims(),
    {
        self.p as u64 + self.q as u64 + self.r as u64
    }

    /// Number of basis elements, `2^dimensions`.
    pub fn basis_count(&self) -> (b: u64)
        requires
            self.within_cap(),
        ensures
            b == self.basis(),
            1 <= b <= 64,
    {
        let d = self.dimensions();
        let mut b: u64 = 1;
        let mut i: u64 = 0;
        proof {
            lemma2_to64();
        }
        while i < d
            invariant
                i <= d <= MAX_DIMENSIONS,
                d == self.dims(),
                b == pow2(i as nat),
            decreases d - i,
        {
            proof {
                lemma_pow2_unfold((i + 1) as nat);
                lemma_small_pow2(i as nat);
            }
            b = b * 2;
            i = i + 1;
        }
        proof {
            lemma_small_pow2(d as nat);
        }
        b
    }
}

/// Small powers of two stay under 65.
pub proof fn lemma_small_pow2(e: nat)
    requires
        e <= MAX_DIMENSIONS,
    ensures
        1 <= pow2(e) <= 64,
{
    lemma2_to64();
    if e == 0 {
    } else if e == 1 {
    } else if e == 2 {
    } else if e == 3 {
    } else if e == 4 {
    } else if e == 5 {
    } else {
        assert(e == 6);
    }
}

/// Decimal digits of `n`, most significant first.
pub open spec fn decimal(n: nat) -> Seq<char>
    decreases n,
{
    if n < 10 {
        seq!["0123456789"@[n as int]]
    } else {
        decimal(n / 10) + seq!["0123456789"@[(n % 10) as int]]
    }
}

/// Appends the decimal form of `n` to `s`.
pub fn append_decimal(s: &mut String, n: u64)
    ensures
        final(s)@ == old(s)@ + decimal(n as nat),
    decreases n,
{
    let digits = "0123456789";
    proof {
        reveal_strlit("0123456789");
    }
    if n >= 10 {
        append_decimal(s, n / 10);
    }
    let d = (n % 10) as usize;
    let ghost mid = s@;
    s.append(digits.substring_char(d, d + 1));
    assert(digits@.subrange(d as int, d + 1) =~= seq!["0123456789"@[d as int]]);
    if n >= 10 {
        assert(s@ =~= old(s)@ + decimal(n as nat));
    } else {
        assert(s@ =~= old(s)@ + decimal(n as nat));
    }
}

impl Signature {
    /// Identifier of the signature's table, `cayley_{p}_{q}_{r}`.
    pub open spec fn table_key(self) -> Seq<char> {
        "cayley_"@ + decimal(self.p as nat) + "_"@ + decimal(self.q as nat) + "_"@ + decimal(
            self.r as nat,
        )
    }

    pub fn table_id(&self) -> (id: String)
        ensures
            id@ == self.table_key(),
    {
        let mut id = String::from_str("cayley_");
        append_decimal(&mut id, self.p as u64);
        id.append("_");
        append_decimal(&mut id, self.q as u64);
        id.append("_");
        append_decimal(&mut id, self.r as u64);
        id
    }
}

/// The components make a well-formed signature: exactly three of them, each a
/// non-negative integer.
pub open spec fn well_formed_components(c: Seq<Option<u64>>) -> bool {
    &&& c.len() == 3
    &&& forall|i: int| 0 <= i < 3 ==> (#[trigger] c[i]).is_some()
}

/// Well-formed components count at most `MAX_DIMENSIONS` basis directions.
pub open spec fn components_within_cap(c: Seq<Option<u64>>) -> bool {
    c[0].unwrap() + c[1].unwrap() + c[2].unwrap() <= MAX_DIMENSIONS
}

/// The signature that well-formed components within the ceiling spell.
pub open spec fn signature_of(c: Seq<Option<u64>>) -> Signature {
    Signature { p: c[0].unwrap() as u32, q: c[1].unwrap() as u32, r: c[2].unwrap() as u32 }
}

/// Checks a request's signature. Each entry is a component, or `None` where the
/// request held something other than a non-negative integer. Malformed input
/// is an `InvalidSignature`; well-formed components with more than
/// `MAX_DIMENSIONS` directions in all, however large, are `DimensionTooLarge`.
pub fn validate_signature(components: &Vec<Option<u64>>) -> (res: Result<Signature, CayleyError>)
    ensures
        !well_formed_components(components@) <==> res == Err::<Signature, CayleyError>(
            CayleyError::InvalidSignature,
        ),
        well_formed_components(components@) && !components_within_cap(components@) <==> res
            == Err::<Signature, CayleyError>(CayleyError::DimensionTooLarge),
        well_formed_components(components@) && components_within_cap(components@) <==> res
            == Ok::<Signature, CayleyError>(signature_of(components@)),
        res matches Ok(s) ==> s.within_cap() && s.dims() == components@[0].unwrap()
            + components@[1].unwrap() + components@[2].unwrap(),
{
    if components.len() != 3 {
        return Err(CayleyError::InvalidSignature);
    }
    let mut vals: [u64; 3] = [0, 0, 0];
    let mut i: usize = 0;
    while i < 3
        invariant
            components@.len() == 3,
            0 <= i <= 3,
            forall|k: int|
                0 <= k < i ==> (#[trigger] components@[k]).is_some() && vals[k]
                    == components@[k].unwrap(),
        decreases 3 - i,
    {
        match components[i] {
            Some(v) => {
                vals[i] = v;
            },
            None => {
                return Err(CayleyError::InvalidSignature);
            },
        }
        i = i + 1;
    }
    let cap = MAX_DIMENSIONS as u64;
    if vals[0] > cap || vals[1] > cap || vals[2] > cap || vals[0] + vals[1] + vals[2] > cap {
        return Err(CayleyError::DimensionTooLarge);
    }
    let s = Signature { p: vals[0] as u32, q: vals[1] as u32, r: vals[2] as u32 };
    assert(s == signature_of(components@));
    Ok(s)
}

} // verus!
