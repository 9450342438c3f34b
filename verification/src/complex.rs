//! Complex elements of the synthetic extension of the Mersenne-31 field, and
//! their mathematical model: pairs of canonical residues with modular
//! addition, subtraction and multiplication.
use vstd::prelude::*;

verus! {

use crate::field::{
    P, WIDE_LIFT, pmod, reduce_wide, lemma_pmod_range, lemma_pmod_small, lemma_pmod_idem,
    lemma_pmod_add, lemma_pmod_sub, lemma_pmod_mul, lemma_pmod_add_congruent,
    lemma_pmod_sub_congruent,
};

/// A complex element: an ordered pair `(re, im)` of scalars. The components
/// are plain machine integers; which representational invariant they satisfy
/// (essentially reduced, balanced, or a transient wider range) is stated at
/// each use site, never assumed by the type itself.
#[derive(Clone, Copy, PartialEq, Eq, Structural, Debug)]
pub struct Complex {
    pub re: i64,
    pub im: i64,
}

impl Complex {
    /// Builds the element `re + i * im`.
    pub fn new(re: i64, im: i64) -> (z: Complex)
        ensures
            z.re == re,
            z.im == im,
    {
        Complex { re, im }
    }
}

/// The mathematical value of a complex element: a pair of unbounded integers,
/// by convention canonical residues in `[0, P)`.
pub ghost struct GComplex {
    pub re: int,
    pub im: int,
}

/// The canonical representative of the class of `re + i * im`.
pub open spec fn gnorm(re: int, im: int) -> GComplex {
    GComplex { re: pmod(re), im: pmod(im) }
}

/// The class a machine element represents.
pub open spec fn gview(z: Complex) -> GComplex {
    gnorm(z.re as int, z.im as int)
}

/// The multiplicative identity.
pub open spec fn gone() -> GComplex {
    GComplex { re: 1, im: 0 }
}

/// Both components are canonical residues.
pub open spec fn gnormal(a: GComplex) -> bool {
    0 <= a.re < P && 0 <= a.im < P
}

/// Complex addition modulo `P`.
pub open spec fn gadd(a: GComplex, b: GComplex) -> GComplex {
    gnorm(a.re + b.re, a.im + b.im)
}

/// Complex subtraction modulo `P`.
pub open spec fn gsub(a: GComplex, b: GComplex) -> GComplex {
    gnorm(a.re - b.re, a.im - b.im)
}

/// Complex multiplication modulo `P`.
pub open spec fn gmul(a: GComplex, b: GComplex) -> GComplex {
    gnorm(a.re * b.re - a.im * b.im, a.re * b.im + a.im * b.re)
}

/// Multiplication by the imaginary unit.
pub open spec fn gmuli(a: GComplex) -> GComplex {
    gnorm(-a.im, a.re)
}

/// Complex conjugation.
pub open spec fn gconj(a: GComplex) -> GComplex {
    gnorm(a.re, -a.im)
}

/// `z` raised to the `k`-th power.
pub open spec fn gpow(z: GComplex, k: nat) -> GComplex
    decreases k,
{
    if k == 0 {
        gone()
    } else {
        gmul(z, gpow(z, (k - 1) as nat))
    }
}

/// Essentially reduced: both components lie in the closed range `[0, P]`.
pub open spec fn ereduced(z: Complex) -> bool {
    0 <= z.re <= P && 0 <= z.im <= P
}

/// Both components have magnitude at most `m`.
pub open spec fn cbounded(z: Complex, m: int) -> bool {
    -m <= z.re <= m && -m <= z.im <= m
}

/// Balanced representation of a scalar: magnitude at most `(P - 1) / 2`.
pub open spec fn balanced(x: i64) -> bool {
    -((P as int - 1) / 2) <= x <= (P as int - 1) / 2
}

/// A normalisation is always canonical.
pub proof fn lemma_gnorm_normal(re: int, im: int)
    ensures
        gnormal(gnorm(re, im)),
{
    lemma_pmod_range(re);
    lemma_pmod_range(im);
}

/// Normalising a canonical value changes nothing.
pub proof fn lemma_gnorm_of_normal(a: GComplex)
    requires
        gnormal(a),
    ensures
        gnorm(a.re, a.im) == a,
{
    lemma_pmod_small(a.re);
    lemma_pmod_small(a.im);
}

/// The sum of two classes is determined by any representatives.
pub proof fn lemma_gadd_raw(ar: int, ai: int, br: int, bi: int)
    ensures
        gadd(gnorm(ar, ai), gnorm(br, bi)) == gnorm(ar + br, ai + bi),
{
    lemma_pmod_add(ar, br);
    lemma_pmod_add(ai, bi);
}

/// The difference of two classes is determined by any representatives.
pub proof fn lemma_gsub_raw(ar: int, ai: int, br: int, bi: int)
    ensures
        gsub(gnorm(ar, ai), gnorm(br, bi)) == gnorm(ar - br, ai - bi),
{
    lemma_pmod_sub(ar, br);
    lemma_pmod_sub(ai, bi);
}

/// The product of two classes is determined by any representatives.
pub proof fn lemma_gmul_raw(ar: int, ai: int, br: int, bi: int)
    ensures
        gmul(gnorm(ar, ai), gnorm(br, bi)) == gnorm(ar * br - ai * bi, ar * bi + ai * br),
{
    lemma_pmod_mul(ar, br);
    lemma_pmod_mul(ai, bi);
    lemma_pmod_sub_congruent(pmod(ar) * pmod(br), pmod(ai) * pmod(bi), ar * br, ai * bi);
    lemma_pmod_mul(ar, bi);
    lemma_pmod_mul(ai, br);
    lemma_pmod_add_congruent(pmod(ar) * pmod(bi), pmod(ai) * pmod(br), ar * bi, ai * br);
}

/// The imaginary rotation of a class is determined by any representative.
pub proof fn lemma_gmuli_raw(ar: int, ai: int)
    ensures
        gmuli(gnorm(ar, ai)) == gnorm(-ai, ar),
{
    lemma_pmod_small(0);
    lemma_pmod_sub(0, ai);
    lemma_pmod_idem(ar);
}

/// The conjugate of a class is determined by any representative.
pub proof fn lemma_gconj_raw(ar: int, ai: int)
    ensures
        gconj(gnorm(ar, ai)) == gnorm(ar, -ai),
{
    lemma_pmod_small(0);
    lemma_pmod_sub(0, ai);
    lemma_pmod_idem(ar);
}

/// Multiplying a canonical value by one gives it back.
pub proof fn lemma_gmul_one(a: GComplex)
    requires
        gnormal(a),
    ensures
        gmul(a, gone()) == a,
{
    assert(a.re * 1 - a.im * 0 == a.re);
    assert(a.re * 0 + a.im * 1 == a.im);
    lemma_gnorm_of_normal(a);
}

/// Multiplying a canonical value by one on the left gives it back.
pub proof fn lemma_gmul_one_left(a: GComplex)
    requires
        gnormal(a),
    ensures
        gmul(gone(), a) == a,
{
    assert(1 * a.re - 0 * a.im == a.re);
    assert(1 * a.im + 0 * a.re == a.im);
    lemma_gnorm_of_normal(a);
}

/// The residues of the small constants the specialized butterflies need.
pub proof fn lemma_pmod_consts()
    ensures
        pmod(0) == 0,
        pmod(1) == 1,
        pmod(32768) == 32768,
{
    lemma_pmod_small(0);
    lemma_pmod_small(1);
    lemma_pmod_small(32768);
}

/// Wide reduction of both components of an element, in place. Applied at the
/// designated checkpoints inside each butterfly, where the intermediate
/// magnitudes are known to stay within the `2 * P * (P - 1)` budget.
pub fn normalise(z: &mut Complex)
    requires
        -(WIDE_LIFT as int) <= old(z).re,
        -(WIDE_LIFT as int) <= old(z).im,
    ensures
        ereduced(*final(z)),
        gview(*final(z)) == gview(*old(z)),
{
    z.re = reduce_wide(z.re);
    z.im = reduce_wide(z.im);
}

} // verus!
