//! The three specializations of the radix-4 conjugate-pair butterfly. All
//! take four essentially-reduced elements and mutate them in place; they
//! differ only in which twiddle factor weights the cross outputs, and each is
//! proved functionally equal to the general form at its twiddle value.
use vstd::prelude::*;

verus! {

use crate::field::{P, PROD_CAP, normalise_u32};
use crate::complex::{
    Complex, gview, gnorm, gone, ereduced, balanced, normalise, lemma_gadd_raw, lemma_gsub_raw,
    lemma_gmul_raw, lemma_gmuli_raw, lemma_gconj_raw, lemma_gnorm_normal, lemma_pmod_consts,
};
use crate::model::{bfly, gsqrt_half};

/// The scalar whose square is one half modulo `P`: `2^15`, since
/// `2^30 = (P + 1) / 2` is the inverse of two.
pub const SQRTHALF: i64 = 0x8000;

/// The product of a value within the pass budget `[-2P, 2P]` and a balanced
/// twiddle component stays within half the wide-reduction budget.
proof fn lemma_twiddle_product_bound(x: int, w: int)
    by (nonlinear_arith)
    requires
        -2 * (P as int) <= x <= 2 * (P as int),
        -((P as int - 1) / 2) <= w <= (P as int - 1) / 2,
    ensures
        -(PROD_CAP as int) <= x * w <= PROD_CAP as int,
        -(PROD_CAP as int) <= w * x <= PROD_CAP as int,
{
}

/// General butterfly: the twiddle is an arbitrary balanced root `(wre, wim)`.
/// The sums are reduced immediately; the twiddle-weighted cross outputs pass
/// through intermediates of magnitude at most `2 * P * (P - 1)` — within the
/// signed 64-bit budget only because the twiddle is balanced — and are then
/// wide-reduced.
pub fn transform(
    a0: &mut Complex,
    a1: &mut Complex,
    a2: &mut Complex,
    a3: &mut Complex,
    wre: i64,
    wim: i64,
)
    requires
        ereduced(*old(a0)),
        ereduced(*old(a1)),
        ereduced(*old(a2)),
        ereduced(*old(a3)),
        balanced(wre),
        balanced(wim),
    ensures
        ereduced(*final(a0)),
        ereduced(*final(a1)),
        ereduced(*final(a2)),
        ereduced(*final(a3)),
        gview(*final(a0)) == bfly(
            gnorm(wre as int, wim as int),
            gview(*old(a0)),
            gview(*old(a1)),
            gview(*old(a2)),
            gview(*old(a3)),
        ).0,
        gview(*final(a1)) == bfly(
            gnorm(wre as int, wim as int),
            gview(*old(a0)),
            gview(*old(a1)),
            gview(*old(a2)),
            gview(*old(a3)),
        ).1,
        gview(*final(a2)) == bfly(
            gnorm(wre as int, wim as int),
            gview(*old(a0)),
            gview(*old(a1)),
            gview(*old(a2)),
            gview(*old(a3)),
        ).2,
        gview(*final(a3)) == bfly(
            gnorm(wre as int, wim as int),
            gview(*old(a0)),
            gview(*old(a1)),
            gview(*old(a2)),
            gview(*old(a3)),
        ).3,
{
    let ure = a0.re - a2.re;
    let uim = a0.im - a2.im;
    let vre = a1.re - a3.re;
    let vim = a1.im - a3.im;
    a0.re = normalise_u32(a0.re + a2.re);
    a0.im = normalise_u32(a0.im + a2.im);
    a1.re = normalise_u32(a1.re + a3.re);
    a1.im = normalise_u32(a1.im + a3.im);
    let xre = ure - vim;
    let xim = uim + vre;
    let yre = ure + vim;
    let yim = uim - vre;
    proof {
        lemma_twiddle_product_bound(xre as int, wre as int);
        lemma_twiddle_product_bound(xre as int, wim as int);
        lemma_twiddle_product_bound(xim as int, wre as int);
        lemma_twiddle_product_bound(xim as int, wim as int);
        lemma_twiddle_product_bound(yre as int, wre as int);
        lemma_twiddle_product_bound(yre as int, wim as int);
        lemma_twiddle_product_bound(yim as int, wre as int);
        lemma_twiddle_product_bound(yim as int, wim as int);
    }
    a2.re = wre * xre - wim * xim;
    a2.im = wre * xim + wim * xre;
    normalise(a2);
    a3.re = wre * yre + wim * yim;
    a3.im = wre * yim - wim * yre;
    normalise(a3);
    proof {
        lemma_gadd_raw(
            old(a0).re as int,
            old(a0).im as int,
            old(a2).re as int,
            old(a2).im as int,
        );
        lemma_gadd_raw(
            old(a1).re as int,
            old(a1).im as int,
            old(a3).re as int,
            old(a3).im as int,
        );
        lemma_gsub_raw(
            old(a0).re as int,
            old(a0).im as int,
            old(a2).re as int,
            old(a2).im as int,
        );
        lemma_gsub_raw(
            old(a1).re as int,
            old(a1).im as int,
            old(a3).re as int,
            old(a3).im as int,
        );
        lemma_gmuli_raw(vre as int, vim as int);
        lemma_gadd_raw(ure as int, uim as int, -(vim as int), vre as int);
        lemma_gsub_raw(ure as int, uim as int, -(vim as int), vre as int);
        lemma_gmul_raw(wre as int, wim as int, xre as int, xim as int);
        lemma_gconj_raw(wre as int, wim as int);
        lemma_gmul_raw(wre as int, -(wim as int), yre as int, yim as int);
        assert((-(wim as int)) * (yim as int) == -((wim as int) * (yim as int)))
            by (nonlinear_arith);
        assert((-(wim as int)) * (yre as int) == -((wim as int) * (yre as int)))
            by (nonlinear_arith);
    }
}

/// Zero-point butterfly: the twiddle is the identity, so the cross outputs
/// are purely additive recombinations with the narrowest bounds. Equal to the
/// general form at twiddle one.
pub fn transformzero(a0: &mut Complex, a1: &mut Complex, a2: &mut Complex, a3: &mut Complex)
    requires
        ereduced(*old(a0)),
        ereduced(*old(a1)),
        ereduced(*old(a2)),
        ereduced(*old(a3)),
    ensures
        ereduced(*final(a0)),
        ereduced(*final(a1)),
        ereduced(*final(a2)),
        ereduced(*final(a3)),
        gview(*final(a0)) == bfly(
            gone(),
            gview(*old(a0)),
            gview(*old(a1)),
            gview(*old(a2)),
            gview(*old(a3)),
        ).0,
        gview(*final(a1)) == bfly(
            gone(),
            gview(*old(a0)),
            gview(*old(a1)),
            gview(*old(a2)),
            gview(*old(a3)),
        ).1,
        gview(*final(a2)) == bfly(
            gone(),
            gview(*old(a0)),
            gview(*old(a1)),
            gview(*old(a2)),
            gview(*old(a3)),
        ).2,
        gview(*final(a3)) == bfly(
            gone(),
            gview(*old(a0)),
            gview(*old(a1)),
            gview(*old(a2)),
            gview(*old(a3)),
        ).3,
{
    let ure = a0.re - a2.re;
    let uim = a0.im - a2.im;
    let vre = a1.re - a3.re;
    let vim = a1.im - a3.im;
    a0.re = normalise_u32(a0.re + a2.re);
    a0.im = normalise_u32(a0.im + a2.im);
    a1.re = normalise_u32(a1.re + a3.re);
    a1.im = normalise_u32(a1.im + a3.im);
    a2.re = ure - vim;
    a2.im = uim + vre;
    normalise(a2);
    a3.re = ure + vim;
    a3.im = uim - vre;
    normalise(a3);
    proof {
        lemma_pmod_consts();
        lemma_gadd_raw(
            old(a0).re as int,
            old(a0).im as int,
            old(a2).re as int,
            old(a2).im as int,
        );
        lemma_gadd_raw(
            old(a1).re as int,
            old(a1).im as int,
            old(a3).re as int,
            old(a3).im as int,
        );
        lemma_gsub_raw(
            old(a0).re as int,
            old(a0).im as int,
            old(a2).re as int,
            old(a2).im as int,
        );
        lemma_gsub_raw(
            old(a1).re as int,
            old(a1).im as int,
            old(a3).re as int,
            old(a3).im as int,
        );
        lemma_gmuli_raw(vre as int, vim as int);
        lemma_gadd_raw(ure as int, uim as int, -(vim as int), vre as int);
        lemma_gsub_raw(ure as int, uim as int, -(vim as int), vre as int);
        lemma_gnorm_normal(ure - vim, uim + vre);
        lemma_gnorm_normal(ure + vim, uim - vre);
        crate::complex::lemma_gmul_one_left(gnorm(ure - vim, uim + vre));
        crate::complex::lemma_gmul_one_left(gnorm(ure + vim, uim - vre));
        lemma_gconj_raw(1, 0);
    }
}

/// Half-point butterfly: the twiddle is fixed at the square root of one half,
/// whose components are equal, so the complex multiplies collapse to one
/// shared scalar multiply per output component. Equal to the general form at
/// that twiddle.
pub fn transformhalf(a0: &mut Complex, a1: &mut Complex, a2: &mut Complex, a3: &mut Complex)
    requires
        ereduced(*old(a0)),
        ereduced(*old(a1)),
        ereduced(*old(a2)),
        ereduced(*old(a3)),
    ensures
        ereduced(*final(a0)),
        ereduced(*final(a1)),
        ereduced(*final(a2)),
        ereduced(*final(a3)),
        gview(*final(a0)) == bfly(
            gsqrt_half(),
            gview(*old(a0)),
            gview(*old(a1)),
            gview(*old(a2)),
            gview(*old(a3)),
        ).0,
        gview(*final(a1)) == bfly(
            gsqrt_half(),
            gview(*old(a0)),
            gview(*old(a1)),
            gview(*old(a2)),
            gview(*old(a3)),
        ).1,
        gview(*final(a2)) == bfly(
            gsqrt_half(),
            gview(*old(a0)),
            gview(*old(a1)),
            gview(*old(a2)),
            gview(*old(a3)),
        ).2,
        gview(*final(a3)) == bfly(
            gsqrt_half(),
            gview(*old(a0)),
            gview(*old(a1)),
            gview(*old(a2)),
            gview(*old(a3)),
        ).3,
{
    let ure = a0.re - a2.re;
    let uim = a0.im - a2.im;
    let vre = a1.re - a3.re;
    let vim = a1.im - a3.im;
    a0.re = normalise_u32(a0.re + a2.re);
    a0.im = normalise_u32(a0.im + a2.im);
    a1.re = normalise_u32(a1.re + a3.re);
    a1.im = normalise_u32(a1.im + a3.im);
    let xre = ure - vim;
    let xim = uim + vre;
    let yre = ure + vim;
    let yim = uim - vre;
    a2.re = (xre - xim) * SQRTHALF;
    a2.im = (xim + xre) * SQRTHALF;
    normalise(a2);
    a3.re = (yre + yim) * SQRTHALF;
    a3.im = (yim - yre) * SQRTHALF;
    normalise(a3);
    proof {
        lemma_pmod_consts();
        lemma_gadd_raw(
            old(a0).re as int,
            old(a0).im as int,
            old(a2).re as int,
            old(a2).im as int,
        );
        lemma_gadd_raw(
            old(a1).re as int,
            old(a1).im as int,
            old(a3).re as int,
            old(a3).im as int,
        );
        lemma_gsub_raw(
            old(a0).re as int,
            old(a0).im as int,
            old(a2).re as int,
            old(a2).im as int,
        );
        lemma_gsub_raw(
            old(a1).re as int,
            old(a1).im as int,
            old(a3).re as int,
            old(a3).im as int,
        );
        lemma_gmuli_raw(vre as int, vim as int);
        lemma_gadd_raw(ure as int, uim as int, -(vim as int), vre as int);
        lemma_gsub_raw(ure as int, uim as int, -(vim as int), vre as int);
        lemma_gmul_raw(SQRTHALF as int, SQRTHALF as int, xre as int, xim as int);
        lemma_gconj_raw(SQRTHALF as int, SQRTHALF as int);
        lemma_gmul_raw(SQRTHALF as int, -(SQRTHALF as int), yre as int, yim as int);
    }
}

} // verus!
