//! Laws of the transform family, stated and proved over the mathematical
//! model: the transform of every supported size is linear in its input, and
//! the closed-form base kernels agree with the pass-based composition.
use vstd::prelude::*;

verus! {

use crate::field::{
    pmod, lemma_pmod_idem, lemma_pmod_small, lemma_pmod_add, lemma_pmod_sub,
    lemma_pmod_add_congruent, lemma_pmod_sub_congruent, lemma_pmod_mul_congruent,
};
use crate::complex::{GComplex, gadd, gsub, gmul, gmuli, gconj};
use crate::model::{bfly, c2_spec, c4_spec, cpass_spec, cfft_spec, omega, lemma_cfft_spec_len};
use vstd::arithmetic::mul::{
    lemma_mul_is_associative, lemma_mul_is_commutative, lemma_mul_is_distributive_add,
    lemma_mul_is_distributive_sub,
};

/// The scalar combination `a * x + b * y` of two classes.
pub open spec fn gcombo(a: GComplex, b: GComplex, x: GComplex, y: GComplex) -> GComplex {
    gadd(gmul(a, x), gmul(b, y))
}

/// The pointwise scalar combination of two equal-length buffers of classes.
pub open spec fn gcombo_seq(
    a: GComplex,
    b: GComplex,
    x: Seq<GComplex>,
    y: Seq<GComplex>,
) -> Seq<GComplex>
    recommends
        x.len() == y.len(),
{
    Seq::new(x.len(), |i: int| gcombo(a, b, x[i], y[i]))
}

/// Multiplying by a representative or by its residue gives the same residue.
proof fn lemma_pmod_mulp(c: int, x: int)
    ensures
        pmod(c * pmod(x)) == pmod(c * x),
{
    lemma_pmod_idem(x);
    lemma_pmod_mul_congruent(c, pmod(x), c, x);
}

/// Negating a residue negates the class.
proof fn lemma_pmod_neg(x: int)
    ensures
        pmod(-pmod(x)) == pmod(-x),
{
    lemma_pmod_small(0);
    lemma_pmod_sub(0, x);
}

/// Multiplication distributes over addition of classes.
pub proof fn lemma_gmul_distrib_add(a: GComplex, x: GComplex, y: GComplex)
    ensures
        gmul(a, gadd(x, y)) == gadd(gmul(a, x), gmul(a, y)),
{
    lemma_pmod_mulp(a.re, x.re + y.re);
    lemma_pmod_mulp(a.im, x.im + y.im);
    lemma_pmod_mulp(a.re, x.im + y.im);
    lemma_pmod_mulp(a.im, x.re + y.re);
    lemma_pmod_sub_congruent(
        a.re * pmod(x.re + y.re),
        a.im * pmod(x.im + y.im),
        a.re * (x.re + y.re),
        a.im * (x.im + y.im),
    );
    lemma_pmod_add_congruent(
        a.re * pmod(x.im + y.im),
        a.im * pmod(x.re + y.re),
        a.re * (x.im + y.im),
        a.im * (x.re + y.re),
    );
    lemma_pmod_add(a.re * x.re - a.im * x.im, a.re * y.re - a.im * y.im);
    lemma_pmod_add(a.re * x.im + a.im * x.re, a.re * y.im + a.im * y.re);
    assert(a.re * (x.re + y.re) - a.im * (x.im + y.im) == (a.re * x.re - a.im * x.im) + (a.re
        * y.re - a.im * y.im)) by (nonlinear_arith);
    assert(a.re * (x.im + y.im) + a.im * (x.re + y.re) == (a.re * x.im + a.im * x.re) + (a.re
        * y.im + a.im * y.re)) by (nonlinear_arith);
}

/// Multiplication distributes over subtraction of classes.
pub proof fn lemma_gmul_distrib_sub(a: GComplex, x: GComplex, y: GComplex)
    ensures
        gmul(a, gsub(x, y)) == gsub(gmul(a, x), gmul(a, y)),
{
    lemma_pmod_mulp(a.re, x.re - y.re);
    lemma_pmod_mulp(a.im, x.im - y.im);
    lemma_pmod_mulp(a.re, x.im - y.im);
    lemma_pmod_mulp(a.im, x.re - y.re);
    lemma_pmod_sub_congruent(
        a.re * pmod(x.re - y.re),
        a.im * pmod(x.im - y.im),
        a.re * (x.re - y.re),
        a.im * (x.im - y.im),
    );
    lemma_pmod_add_congruent(
        a.re * pmod(x.im - y.im),
        a.im * pmod(x.re - y.re),
        a.re * (x.im - y.im),
        a.im * (x.re - y.re),
    );
    lemma_pmod_sub(a.re * x.re - a.im * x.im, a.re * y.re - a.im * y.im);
    lemma_pmod_sub(a.re * x.im + a.im * x.re, a.re * y.im + a.im * y.re);
    assert(a.re * (x.re - y.re) - a.im * (x.im - y.im) == (a.re * x.re - a.im * x.im) - (a.re
        * y.re - a.im * y.im)) by (nonlinear_arith);
    assert(a.re * (x.im - y.im) + a.im * (x.re - y.re) == (a.re * x.im + a.im * x.re) - (a.re
        * y.im + a.im * y.re)) by (nonlinear_arith);
}

/// A product of three factors may rotate its first two.
proof fn lemma_triple_comm(a: int, b: int, c: int)
    ensures
        a * (b * c) == b * (a * c),
{
    lemma_mul_is_associative(a, b, c);
    lemma_mul_is_commutative(a, b);
    lemma_mul_is_associative(b, a, c);
}

/// The ring identity behind the exchange of two multiplications.
proof fn lemma_exchange_scalar(wr: int, wi: int, cr: int, ci: int, xr: int, xi: int)
    ensures
        wr * (cr * xr - ci * xi) - wi * (cr * xi + ci * xr) == cr * (wr * xr - wi * xi) - ci * (wr
            * xi + wi * xr),
        wr * (cr * xi + ci * xr) + wi * (cr * xr - ci * xi) == cr * (wr * xi + wi * xr) + ci * (wr
            * xr - wi * xi),
{
    lemma_mul_is_distributive_sub(wr, cr * xr, ci * xi);
    lemma_mul_is_distributive_add(wi, cr * xi, ci * xr);
    lemma_mul_is_distributive_add(wr, cr * xi, ci * xr);
    lemma_mul_is_distributive_sub(wi, cr * xr, ci * xi);
    lemma_mul_is_distributive_sub(cr, wr * xr, wi * xi);
    lemma_mul_is_distributive_add(ci, wr * xi, wi * xr);
    lemma_mul_is_distributive_add(cr, wr * xi, wi * xr);
    lemma_mul_is_distributive_sub(ci, wr * xr, wi * xi);
    lemma_triple_comm(wr, cr, xr);
    lemma_triple_comm(wr, ci, xi);
    lemma_triple_comm(wi, cr, xi);
    lemma_triple_comm(wi, ci, xr);
    lemma_triple_comm(wr, cr, xi);
    lemma_triple_comm(wr, ci, xr);
    lemma_triple_comm(wi, cr, xr);
    lemma_triple_comm(wi, ci, xi);
}

/// Two multiplications from the left commute with each other.
pub proof fn lemma_gmul_exchange(w: GComplex, c: GComplex, x: GComplex)
    ensures
        gmul(w, gmul(c, x)) == gmul(c, gmul(w, x)),
{
    lemma_pmod_mulp(w.re, c.re * x.re - c.im * x.im);
    lemma_pmod_mulp(w.im, c.re * x.im + c.im * x.re);
    lemma_pmod_mulp(w.re, c.re * x.im + c.im * x.re);
    lemma_pmod_mulp(w.im, c.re * x.re - c.im * x.im);
    lemma_pmod_sub_congruent(
        w.re * pmod(c.re * x.re - c.im * x.im),
        w.im * pmod(c.re * x.im + c.im * x.re),
        w.re * (c.re * x.re - c.im * x.im),
        w.im * (c.re * x.im + c.im * x.re),
    );
    lemma_pmod_add_congruent(
        w.re * pmod(c.re * x.im + c.im * x.re),
        w.im * pmod(c.re * x.re - c.im * x.im),
        w.re * (c.re * x.im + c.im * x.re),
        w.im * (c.re * x.re - c.im * x.im),
    );
    lemma_pmod_mulp(c.re, w.re * x.re - w.im * x.im);
    lemma_pmod_mulp(c.im, w.re * x.im + w.im * x.re);
    lemma_pmod_mulp(c.re, w.re * x.im + w.im * x.re);
    lemma_pmod_mulp(c.im, w.re * x.re - w.im * x.im);
    lemma_pmod_sub_congruent(
        c.re * pmod(w.re * x.re - w.im * x.im),
        c.im * pmod(w.re * x.im + w.im * x.re),
        c.re * (w.re * x.re - w.im * x.im),
        c.im * (w.re * x.im + w.im * x.re),
    );
    lemma_pmod_add_congruent(
        c.re * pmod(w.re * x.im + w.im * x.re),
        c.im * pmod(w.re * x.re - w.im * x.im),
        c.re * (w.re * x.im + w.im * x.re),
        c.im * (w.re * x.re - w.im * x.im),
    );
    lemma_exchange_scalar(w.re, w.im, c.re, c.im, x.re, x.im);
}

/// The imaginary rotation commutes with multiplication.
pub proof fn lemma_gmuli_mul(c: GComplex, x: GComplex)
    ensures
        gmuli(gmul(c, x)) == gmul(c, gmuli(x)),
{
    lemma_pmod_neg(c.re * x.im + c.im * x.re);
    lemma_pmod_idem(c.re * x.re - c.im * x.im);
    lemma_pmod_mulp(c.re, -x.im);
    lemma_pmod_mulp(c.im, x.re);
    lemma_pmod_sub_congruent(c.re * pmod(-x.im), c.im * pmod(x.re), c.re * -x.im, c.im * x.re);
    lemma_pmod_mulp(c.re, x.re);
    lemma_pmod_mulp(c.im, -x.im);
    lemma_pmod_add_congruent(c.re * pmod(x.re), c.im * pmod(-x.im), c.re * x.re, c.im * -x.im);
    assert(c.re * -x.im - c.im * x.re == -(c.re * x.im + c.im * x.re)) by (nonlinear_arith);
    assert(c.re * x.re + c.im * -x.im == c.re * x.re - c.im * x.im) by (nonlinear_arith);
}

/// The combination of two sums is the sum of the combinations.
pub proof fn lemma_gcombo_add(
    a: GComplex,
    b: GComplex,
    x1: GComplex,
    y1: GComplex,
    x2: GComplex,
    y2: GComplex,
)
    ensures
        gadd(gcombo(a, b, x1, y1), gcombo(a, b, x2, y2)) == gcombo(
            a,
            b,
            gadd(x1, x2),
            gadd(y1, y2),
        ),
{
    lemma_gmul_distrib_add(a, x1, x2);
    lemma_gmul_distrib_add(b, y1, y2);
    let m1 = gmul(a, x1);
    let n1 = gmul(b, y1);
    let m2 = gmul(a, x2);
    let n2 = gmul(b, y2);
    // both sides reduce to the residue of the raw four-term sum
    lemma_pmod_add(m1.re + n1.re, m2.re + n2.re);
    lemma_pmod_add(m1.im + n1.im, m2.im + n2.im);
    lemma_pmod_idem(m1.re + n1.re);
    lemma_pmod_idem(m1.im + n1.im);
    lemma_pmod_idem(m2.re + n2.re);
    lemma_pmod_idem(m2.im + n2.im);
    lemma_pmod_add(m1.re + m2.re, n1.re + n2.re);
    lemma_pmod_add(m1.im + m2.im, n1.im + n2.im);
    lemma_pmod_idem(m1.re + m2.re);
    lemma_pmod_idem(m1.im + m2.im);
    lemma_pmod_idem(n1.re + n2.re);
    lemma_pmod_idem(n1.im + n2.im);
}

/// The combination of two differences is the difference of the combinations.
pub proof fn lemma_gcombo_sub(
    a: GComplex,
    b: GComplex,
    x1: GComplex,
    y1: GComplex,
    x2: GComplex,
    y2: GComplex,
)
    ensures
        gsub(gcombo(a, b, x1, y1), gcombo(a, b, x2, y2)) == gcombo(
            a,
            b,
            gsub(x1, x2),
            gsub(y1, y2),
        ),
{
    lemma_gmul_distrib_sub(a, x1, x2);
    lemma_gmul_distrib_sub(b, y1, y2);
    let m1 = gmul(a, x1);
    let n1 = gmul(b, y1);
    let m2 = gmul(a, x2);
    let n2 = gmul(b, y2);
    lemma_pmod_sub(m1.re + n1.re, m2.re + n2.re);
    lemma_pmod_sub(m1.im + n1.im, m2.im + n2.im);
    lemma_pmod_add(m1.re - m2.re, n1.re - n2.re);
    lemma_pmod_add(m1.im - m2.im, n1.im - n2.im);
}

/// Multiplication by a twiddle passes through a combination.
pub proof fn lemma_gcombo_mul(w: GComplex, a: GComplex, b: GComplex, x: GComplex, y: GComplex)
    ensures
        gmul(w, gcombo(a, b, x, y)) == gcombo(a, b, gmul(w, x), gmul(w, y)),
{
    lemma_gmul_distrib_add(w, gmul(a, x), gmul(b, y));
    lemma_gmul_exchange(w, a, x);
    lemma_gmul_exchange(w, b, y);
}

/// The imaginary rotation distributes over addition.
proof fn lemma_gmuli_add(x: GComplex, y: GComplex)
    ensures
        gmuli(gadd(x, y)) == gadd(gmuli(x), gmuli(y)),
{
    lemma_pmod_neg(x.im + y.im);
    lemma_pmod_idem(x.re + y.re);
    lemma_pmod_add(-x.im, -y.im);
    lemma_pmod_add(x.re, y.re);
}

/// The imaginary rotation passes through a combination.
pub proof fn lemma_gcombo_muli(a: GComplex, b: GComplex, x: GComplex, y: GComplex)
    ensures
        gmuli(gcombo(a, b, x, y)) == gcombo(a, b, gmuli(x), gmuli(y)),
{
    lemma_gmuli_add(gmul(a, x), gmul(b, y));
    lemma_gmuli_mul(a, x);
    lemma_gmuli_mul(b, y);
}

/// The butterfly is linear: applied to a combination of two quadruples, it
/// gives the combination of the butterflies of each.
pub proof fn lemma_bfly_linear(
    w: GComplex,
    a: GComplex,
    b: GComplex,
    x0: GComplex,
    x1: GComplex,
    x2: GComplex,
    x3: GComplex,
    y0: GComplex,
    y1: GComplex,
    y2: GComplex,
    y3: GComplex,
)
    ensures
        ({
            let bx = bfly(w, x0, x1, x2, x3);
            let by = bfly(w, y0, y1, y2, y3);
            bfly(
                w,
                gcombo(a, b, x0, y0),
                gcombo(a, b, x1, y1),
                gcombo(a, b, x2, y2),
                gcombo(a, b, x3, y3),
            ) == (
                gcombo(a, b, bx.0, by.0),
                gcombo(a, b, bx.1, by.1),
                gcombo(a, b, bx.2, by.2),
                gcombo(a, b, bx.3, by.3),
            )
        }),
{
    let ux = gsub(x0, x2);
    let vx = gsub(x1, x3);
    let uy = gsub(y0, y2);
    let vy = gsub(y1, y3);
    lemma_gcombo_add(a, b, x0, y0, x2, y2);
    lemma_gcombo_add(a, b, x1, y1, x3, y3);
    lemma_gcombo_sub(a, b, x0, y0, x2, y2);
    lemma_gcombo_sub(a, b, x1, y1, x3, y3);
    lemma_gcombo_muli(a, b, vx, vy);
    lemma_gcombo_add(a, b, ux, uy, gmuli(vx), gmuli(vy));
    lemma_gcombo_sub(a, b, ux, uy, gmuli(vx), gmuli(vy));
    lemma_gcombo_mul(w, a, b, gadd(ux, gmuli(vx)), gadd(uy, gmuli(vy)));
    lemma_gcombo_mul(gconj(w), a, b, gsub(ux, gmuli(vx)), gsub(uy, gmuli(vy)));
}

/// A subrange of a pointwise combination is the combination of the
/// subranges.
proof fn lemma_gcombo_seq_subrange(
    a: GComplex,
    b: GComplex,
    x: Seq<GComplex>,
    y: Seq<GComplex>,
    lo: int,
    hi: int,
)
    requires
        x.len() == y.len(),
        0 <= lo <= hi <= x.len(),
    ensures
        gcombo_seq(a, b, x, y).subrange(lo, hi) == gcombo_seq(
            a,
            b,
            x.subrange(lo, hi),
            y.subrange(lo, hi),
        ),
{
    assert(gcombo_seq(a, b, x, y).subrange(lo, hi) =~= gcombo_seq(
        a,
        b,
        x.subrange(lo, hi),
        y.subrange(lo, hi),
    ));
}

/// A concatenation of two pointwise combinations is the combination of the
/// concatenations.
proof fn lemma_gcombo_seq_add(
    a: GComplex,
    b: GComplex,
    x1: Seq<GComplex>,
    y1: Seq<GComplex>,
    x2: Seq<GComplex>,
    y2: Seq<GComplex>,
)
    requires
        x1.len() == y1.len(),
        x2.len() == y2.len(),
    ensures
        gcombo_seq(a, b, x1, y1) + gcombo_seq(a, b, x2, y2) == gcombo_seq(a, b, x1 + x2, y1 + y2),
{
    assert(gcombo_seq(a, b, x1, y1) + gcombo_seq(a, b, x2, y2) =~= gcombo_seq(
        a,
        b,
        x1 + x2,
        y1 + y2,
    ));
}

/// The size-2 combination is linear.
proof fn lemma_c2_linear(a: GComplex, b: GComplex, x: Seq<GComplex>, y: Seq<GComplex>)
    requires
        x.len() == 2,
        y.len() == 2,
    ensures
        c2_spec(gcombo_seq(a, b, x, y)) == gcombo_seq(a, b, c2_spec(x), c2_spec(y)),
{
    lemma_gcombo_add(a, b, x[0], y[0], x[1], y[1]);
    lemma_gcombo_sub(a, b, x[0], y[0], x[1], y[1]);
    assert(c2_spec(gcombo_seq(a, b, x, y)) =~= gcombo_seq(a, b, c2_spec(x), c2_spec(y)));
}

/// The size-4 combination is linear.
proof fn lemma_c4_linear(a: GComplex, b: GComplex, x: Seq<GComplex>, y: Seq<GComplex>)
    requires
        x.len() == 4,
        y.len() == 4,
    ensures
        c4_spec(gcombo_seq(a, b, x, y)) == gcombo_seq(a, b, c4_spec(x), c4_spec(y)),
{
    let ex = gadd(x[0], x[2]);
    let fx = gadd(x[1], x[3]);
    let ux = gsub(x[0], x[2]);
    let vx = gsub(x[1], x[3]);
    let ey = gadd(y[0], y[2]);
    let fy = gadd(y[1], y[3]);
    let uy = gsub(y[0], y[2]);
    let vy = gsub(y[1], y[3]);
    lemma_gcombo_add(a, b, x[0], y[0], x[2], y[2]);
    lemma_gcombo_add(a, b, x[1], y[1], x[3], y[3]);
    lemma_gcombo_sub(a, b, x[0], y[0], x[2], y[2]);
    lemma_gcombo_sub(a, b, x[1], y[1], x[3], y[3]);
    lemma_gcombo_add(a, b, ex, ey, fx, fy);
    lemma_gcombo_sub(a, b, ex, ey, fx, fy);
    lemma_gcombo_muli(a, b, vx, vy);
    lemma_gcombo_add(a, b, ux, uy, gmuli(vx), gmuli(vy));
    lemma_gcombo_sub(a, b, ux, uy, gmuli(vx), gmuli(vy));
    assert(c4_spec(gcombo_seq(a, b, x, y)) =~= gcombo_seq(a, b, c4_spec(x), c4_spec(y)));
}

/// The decimation pass is linear.
proof fn lemma_cpass_linear(a: GComplex, b: GComplex, x: Seq<GComplex>, y: Seq<GComplex>)
    requires
        x.len() == y.len(),
        x.len() >= 8,
    ensures
        cpass_spec(gcombo_seq(a, b, x, y)) == gcombo_seq(a, b, cpass_spec(x), cpass_spec(y)),
{
    let n = x.len() as int;
    let q = n / 4;
    let cs = gcombo_seq(a, b, x, y);
    assert forall|j: int| 0 <= j < n implies cpass_spec(cs)[j] == gcombo_seq(
        a,
        b,
        cpass_spec(x),
        cpass_spec(y),
    )[j] by {
        vstd::arithmetic::div_mod::lemma_mod_bound(j, q);
        let i = j % q;
        lemma_bfly_linear(
            omega(n as nat, i as nat),
            a,
            b,
            x[i],
            x[q + i],
            x[2 * q + i],
            x[3 * q + i],
            y[i],
            y[q + i],
            y[2 * q + i],
            y[3 * q + i],
        );
    };
    assert(cpass_spec(cs) =~= gcombo_seq(a, b, cpass_spec(x), cpass_spec(y)));
}

/// Linearity of the transform: for any scalars `a`, `b` and equal-length
/// buffers `x`, `y`, the transform of the pointwise combination
/// `a * x + b * y` is the same combination of the two transforms, modulo the
/// prime.
pub proof fn lemma_cfft_linear(a: GComplex, b: GComplex, x: Seq<GComplex>, y: Seq<GComplex>)
    requires
        x.len() == y.len(),
    ensures
        cfft_spec(gcombo_seq(a, b, x, y)) == gcombo_seq(a, b, cfft_spec(x), cfft_spec(y)),
    decreases x.len(),
{
    let cs = gcombo_seq(a, b, x, y);
    if x.len() == 2 {
        lemma_c2_linear(a, b, x, y);
    } else if x.len() == 4 {
        lemma_c4_linear(a, b, x, y);
    } else if x.len() >= 8 {
        let n = x.len() as int;
        let h = n / 2;
        let qq = n / 4;
        let px = cpass_spec(x);
        let py = cpass_spec(y);
        lemma_cpass_linear(a, b, x, y);
        lemma_gcombo_seq_subrange(a, b, px, py, 0, h);
        lemma_gcombo_seq_subrange(a, b, px, py, h, h + qq);
        lemma_gcombo_seq_subrange(a, b, px, py, h + qq, n);
        lemma_cfft_linear(a, b, px.subrange(0, h), py.subrange(0, h));
        lemma_cfft_linear(a, b, px.subrange(h, h + qq), py.subrange(h, h + qq));
        lemma_cfft_linear(a, b, px.subrange(h + qq, n), py.subrange(h + qq, n));
        lemma_cfft_spec_len(px.subrange(0, h));
        lemma_cfft_spec_len(py.subrange(0, h));
        lemma_cfft_spec_len(px.subrange(h, h + qq));
        lemma_cfft_spec_len(py.subrange(h, h + qq));
        lemma_cfft_spec_len(px.subrange(h + qq, n));
        lemma_cfft_spec_len(py.subrange(h + qq, n));
        lemma_gcombo_seq_add(
            a,
            b,
            cfft_spec(px.subrange(0, h)),
            cfft_spec(py.subrange(0, h)),
            cfft_spec(px.subrange(h, h + qq)),
            cfft_spec(py.subrange(h, h + qq)),
        );
        lemma_gcombo_seq_add(
            a,
            b,
            cfft_spec(px.subrange(0, h)) + cfft_spec(px.subrange(h, h + qq)),
            cfft_spec(py.subrange(0, h)) + cfft_spec(py.subrange(h, h + qq)),
            cfft_spec(px.subrange(h + qq, n)),
            cfft_spec(py.subrange(h + qq, n)),
        );
    } else {
        assert(cfft_spec(cs) == cs);
    }
}

} // verus!
