use crate::codec::unit_coefficients;
use crate::signature::{CayleyError, Signature};
use vstd::prelude::*;

verus! {

/// Index of the basis blade that the product of blades `i` and `j` lands on:
/// blades are bit masks of basis directions, and their product is the
/// symmetric difference of the masks.
pub open spec fn product_index(i: usize, j: usize) -> usize {
    if i == 0 {
        j
    } else if j == 0 {
        i
    } else {
        i ^ j
    }
}

/// Number of trailing zero bits of a positive `n`: the lowest basis direction
/// in blade `n`.
pub open spec fn low_zero_bits(n: nat) -> nat
    decreases n,
{
    if n == 0 || n % 2 == 1 {
        0
    } else {
        1 + low_zero_bits(n / 2)
    }
}

/// Square of a blade whose lowest direction is the `low_zero_bits(i)`-th:
/// `+1` among the first `p` directions, `-1` among the next `q`, `0` after.
pub open spec fn square_sign(sig: Signature, i: usize) -> i8 {
    let z = low_zero_bits(i as nat);
    if z < sig.p {
        1
    } else if z < sig.p + sig.q {
        -1i8
    } else {
        0
    }
}

/// Coefficient of blade `k` in the product of blades `i` and `j`, as the
/// table builder lays it down: the scalar identity, signed products of
/// distinct blades and the squares of single blades among the first eight.
pub open spec fn coefficient(sig: Signature, i: usize, j: usize, k: usize) -> i8 {
    if i == 0 && j == 0 {
        if k == 0 {
            1
        } else {
            0
        }
    } else if 0 < i < 8 && 0 < j < 8 {
        if i != j {
            if k == product_index(i, j) {
                if i < j {
                    1
                } else {
                    -1i8
                }
            } else {
                0
            }
        } else if k == 0 {
            square_sign(sig, i)
        } else {
            0
        }
    } else {
        0
    }
}

/// Flat position `(i * b + j) * b + k` read back into its three coordinates.
pub open spec fn flat_coefficient(sig: Signature, b: int, m: int) -> i8 {
    coefficient(sig, (m / (b * b)) as usize, ((m / b) % b) as usize, (m % b) as usize)
}

/// The table of a signature within the ceiling, flattened: entry
/// `(i * b + j) * b + k` is the coefficient of blade `k` in `e_i * e_j`.
pub open spec fn table_of(sig: Signature) -> Seq<i8> {
    let b = sig.basis() as int;
    Seq::new((b * b * b) as nat, |m: int| flat_coefficient(sig, b, m))
}

/// Every coefficient of a table is `-1`, `0` or `1`.
pub proof fn lemma_table_units(sig: Signature)
    ensures
        unit_coefficients(table_of(sig)),
{
}

/// A `basis_count^3` coefficient tensor, flattened in row-major order.
#[derive(Debug, Clone, PartialEq, Eq)]
pub struct CoefficientTensor {
    pub basis_count: u64,
    pub coefficients: Vec<i8>,
}

impl View for CoefficientTensor {
    type V = Seq<i8>;

    open spec fn view(&self) -> Seq<i8> {
        self.coefficients@
    }
}

impl CoefficientTensor {
    /// The tensor has `basis_count^3` coefficients.
    pub open spec fn wf(&self) -> bool {
        self.coefficients@.len() == self.basis_count * self.basis_count * self.basis_count
    }

    /// The tensor is the table of `sig`.
    pub open spec fn is_table_of(&self, sig: Signature) -> bool {
        &&& sig.within_cap()
        &&& self.basis_count == sig.basis()
        &&& self.coefficients@ == table_of(sig)
    }
}

/// Blade index of a product; blades are multiplied by the symmetric difference
/// of their basis-direction masks.
pub fn compute_simple_product_index(i: usize, j: usize, signature: &Signature) -> (r: Option<usize>)
    ensures
        r == Some(product_index(i, j)),
{
    if i == 0 {
        Some(j)
    } else if j == 0 {
        Some(i)
    } else {
        Some(i ^ j)
    }
}

fn lowest_direction(n: usize) -> (z: usize)
    requires
        n > 0,
    ensures
        z == low_zero_bits(n as nat),
{
    let mut m: usize = n;
    let mut z: usize = 0;
    while m % 2 == 0
        invariant
            m > 0,
            z + m <= n,
            low_zero_bits(n as nat) == z + low_zero_bits(m as nat),
        decreases m,
    {
        m = m / 2;
        z = z + 1;
    }
    z
}

fn square_sign_exec(sig: &Signature, i: usize) -> (s: i8)
    requires
        i > 0,
    ensures
        s == square_sign(*sig, i),
{
    let z = lowest_direction(i) as u64;
    if z < sig.p as u64 {
        1
    } else if z < sig.p as u64 + sig.q as u64 {
        -1
    } else {
        0
    }
}

fn coefficient_exec(sig: &Signature, i: usize, j: usize, k: usize) -> (c: i8)
    ensures
        c == coefficient(*sig, i, j, k),
{
    if i == 0 && j == 0 {
        if k == 0 {
            1
        } else {
            0
        }
    } else if 0 < i && i < 8 && 0 < j && j < 8 {
        if i != j {
            let target = compute_simple_product_index(i, j, sig);
            if target == Some(k) {
                if i < j {
                    1
                } else {
                    -1
                }
            } else {
                0
            }
        } else if k == 0 {
            square_sign_exec(sig, i)
        } else {
            0
        }
    } else {
        0
    }
}

/// Builds the Cayley table of a signature. A pure function of the signature:
/// the same signature always gives the same tensor.
pub fn compute_cayley_table_for_signature(sig: &Signature) -> (res: Result<CoefficientTensor, CayleyError>)
    ensures
        !sig.within_cap() <==> res == Err::<CoefficientTensor, CayleyError>(
            CayleyError::DimensionTooLarge,
        ),
        sig.within_cap() <==> res is Ok,
        res matches Ok(t) ==> t.is_table_of(*sig) && t.wf() && unit_coefficients(t@) && t@.len()
            <= 262144,
{
    if sig.dimensions() > crate::signature::MAX_DIMENSIONS as u64 {
        return Err(CayleyError::DimensionTooLarge);
    }
    let b64 = sig.basis_count();
    let b = b64 as usize;
    assert(b * b <= 4096 && b * b * b <= 262144) by (nonlinear_arith)
        requires
            1 <= b <= 64,
    ;
    let bb = b * b;
    let n = bb * b;
    let mut coefficients: Vec<i8> = Vec::new();
    let mut m: usize = 0;
    while m < n
        invariant
            b == sig.basis(),
            1 <= b <= 64,
            bb == b * b,
            n == b * b * b,
            m <= n,
            coefficients@.len() == m,
            forall|x: int|
                0 <= x < m ==> coefficients@[x] == #[trigger] flat_coefficient(*sig, b as int, x),
        decreases n - m,
    {
        let i = m / bb;
        let j = (m / b) % b;
        let k = m % b;
        let c = coefficient_exec(sig, i, j, k);
        coefficients.push(c);
        m = m + 1;
    }
    let t = CoefficientTensor { basis_count: b64, coefficients };
    assert(t.coefficients@ =~= table_of(*sig));
    proof {
        lemma_table_units(*sig);
    }
    Ok(t)
}

} // verus!
