//! Scalar residues modulo the Mersenne prime `P = 2^31 - 1` and the two
//! reduction primitives of the transform engine: a narrow reduction for sums
//! of two essentially-reduced values, and a wide reduction for the large
//! intermediates produced by the butterfly multiplications.
use vstd::prelude::*;

verus! {

use vstd::arithmetic::div_mod::{
    lemma_mod_bound, lemma_mod_twice, lemma_mod_multiples_vanish,
    lemma_add_mod_noop, lemma_sub_mod_noop, lemma_mul_mod_noop,
};

/// The field modulus, the Mersenne prime `2^31 - 1`.
pub const P: i64 = 0x7fff_ffff;

/// A multiple of `P` large enough to lift any intermediate the butterflies
/// produce into the nonnegative range: `2 * P * (P - 1)`.
pub const WIDE_LIFT: i64 = 0x7fff_fffd_0000_0004;

/// The largest magnitude a single twiddle product can reach: `P * (P - 1)`,
/// the product of the pass bound `2P` and the balanced bound `(P - 1) / 2`.
pub const PROD_CAP: i64 = 0x3fff_fffe_8000_0002;

/// Canonical residue of `x` modulo `P`, in `[0, P)`. Kept opaque: all
/// reasoning about residues goes through the lemmas below.
#[verifier::opaque]
pub open spec fn pmod(x: int) -> int {
    x % (P as int)
}

/// The canonical residue always lies in `[0, P)`.
pub proof fn lemma_pmod_range(x: int)
    ensures
        0 <= pmod(x) < P,
{
    reveal(pmod);
    lemma_mod_bound(x, P as int);
}

/// Reducing twice is the same as reducing once.
pub proof fn lemma_pmod_idem(x: int)
    ensures
        pmod(pmod(x)) == pmod(x),
{
    reveal(pmod);
    lemma_mod_twice(x, P as int);
}

/// A value in `[0, P)` is its own residue.
pub proof fn lemma_pmod_small(x: int)
    requires
        0 <= x < P,
    ensures
        pmod(x) == x,
{
    reveal(pmod);
    lemma_mod_bound(x, P as int);
    lemma_mod_multiples_vanish(0, x, P as int);
}

/// Adding a multiple of `P` does not change the residue.
pub proof fn lemma_pmod_shift(a: int, x: int)
    ensures
        pmod(x + a * (P as int)) == pmod(x),
{
    reveal(pmod);
    lemma_mod_multiples_vanish(a, x, P as int);
}

/// The residue of a sum is determined by the residues of the summands.
pub proof fn lemma_pmod_add(x: int, y: int)
    ensures
        pmod(pmod(x) + pmod(y)) == pmod(x + y),
{
    reveal(pmod);
    lemma_add_mod_noop(x, y, P as int);
}

/// The residue of a difference is determined by the residues of the operands.
pub proof fn lemma_pmod_sub(x: int, y: int)
    ensures
        pmod(pmod(x) - pmod(y)) == pmod(x - y),
{
    reveal(pmod);
    lemma_sub_mod_noop(x, y, P as int);
}

/// The residue of a product is determined by the residues of the factors.
pub proof fn lemma_pmod_mul(x: int, y: int)
    ensures
        pmod(pmod(x) * pmod(y)) == pmod(x * y),
{
    reveal(pmod);
    lemma_mul_mod_noop(x, y, P as int);
}

/// Congruent operands give congruent sums.
pub proof fn lemma_pmod_add_congruent(x: int, y: int, a: int, b: int)
    requires
        pmod(x) == pmod(a),
        pmod(y) == pmod(b),
    ensures
        pmod(x + y) == pmod(a + b),
{
    lemma_pmod_add(x, y);
    lemma_pmod_add(a, b);
}

/// Congruent operands give congruent differences.
pub proof fn lemma_pmod_sub_congruent(x: int, y: int, a: int, b: int)
    requires
        pmod(x) == pmod(a),
        pmod(y) == pmod(b),
    ensures
        pmod(x - y) == pmod(a - b),
{
    lemma_pmod_sub(x, y);
    lemma_pmod_sub(a, b);
}

/// Congruent operands give congruent products.
pub proof fn lemma_pmod_mul_congruent(x: int, y: int, a: int, b: int)
    requires
        pmod(x) == pmod(a),
        pmod(y) == pmod(b),
    ensures
        pmod(x * y) == pmod(a * b),
{
    lemma_pmod_mul(x, y);
    lemma_pmod_mul(a, b);
}

/// Narrow reduction: a value in `[0, 2P]`, such as the sum of two
/// essentially-reduced scalars, is brought back into `[0, P]` by one
/// conditional subtraction.
pub fn normalise_u32(x: i64) -> (r: i64)
    requires
        0 <= x <= 2 * (P as int),
    ensures
        0 <= r <= P,
        pmod(r as int) == pmod(x as int),
{
    if x > P {
        proof {
            lemma_pmod_shift(-1, x as int);
        }
        x - P
    } else {
        x
    }
}

/// Wide reduction of a scalar: any intermediate whose magnitude stays within
/// the butterfly budget of `2 * P * (P - 1)` is brought into `[0, P]`. A
/// negative value is first lifted by a fixed multiple of `P`; the loop then
/// folds the high bits down using `2^31 == P + 1`, so each step preserves the
/// residue.
pub fn reduce_wide(x: i64) -> (r: i64)
    requires
        -(WIDE_LIFT as int) <= x,
    ensures
        0 <= r <= P,
        pmod(r as int) == pmod(x as int),
{
    let mut y: i64 = if x < 0 {
        proof {
            assert(WIDE_LIFT as int == 2 * ((P as int) - 1) * (P as int)) by (nonlinear_arith);
            lemma_pmod_shift(2 * ((P as int) - 1), x as int);
        }
        x + WIDE_LIFT
    } else {
        x
    };
    while y > P
        invariant
            0 <= y,
            pmod(y as int) == pmod(x as int),
        decreases y,
    {
        let q = y >> 31;
        let r = y & P;
        proof {
            assert(y == (y >> 31) * 0x8000_0000i64 + (y & 0x7fff_ffffi64)
                && 0 <= (y & 0x7fff_ffffi64) <= 0x7fff_ffffi64
                && 0 <= (y >> 31) < 0x1_0000_0000i64) by (bit_vector)
                requires
                    0 <= y,
            ;
            reveal(pmod);
            lemma_mod_multiples_vanish(q as int, q as int + r as int, P as int);
        }
        y = q + r;
    }
    y
}

} // verus!
