//! Closed-form base kernels for the smallest supported sizes: fully unrolled
//! transforms expressed as direct linear combinations, the leaves of the
//! split-radix recursion.
use vstd::prelude::*;

verus! {

use crate::field::{P, lemma_pmod_small, lemma_pmod_shift};
use crate::complex::{
    Complex, gview, gnorm, gone, gadd, gsub, ereduced, cbounded, normalise, lemma_gadd_raw,
    lemma_gsub_raw, lemma_gmuli_raw,
};
use crate::model::{
    c4_spec, cfft_spec, cpass_spec, gviews, omega, lemma_omega8, lemma_cfft_eight, lemma_omega16,
    lemma_cfft_sixteen,
};
use crate::butterfly::{transform, transformzero, transformhalf};

/// The size-4 transform: the conjugate-pair analogue of the radix-4 matrix,
/// applied to the four elements starting at `off`. Inputs may occupy the
/// widened range `[-2P, 2P]` (the recursive composition hands this kernel
/// unreduced intermediates); outputs are left unreduced, with magnitude at
/// most `8P`.
#[verifier::rlimit(100)]
pub fn c4(a: &mut Vec<Complex>, off: usize)
    requires
        off + 4 <= old(a).len(),
        forall|k: int| off <= k < off + 4 ==> cbounded(#[trigger] old(a)@[k], 2 * P as int),
    ensures
        final(a)@.len() == old(a)@.len(),
        forall|k: int|
            0 <= k < old(a)@.len() && !(off <= k < off + 4) ==> final(a)@[k] == old(a)@[k],
        gviews(final(a)@.subrange(off as int, off as int + 4)) == c4_spec(
            gviews(old(a)@.subrange(off as int, off as int + 4)),
        ),
        forall|k: int| off <= k < off + 4 ==> cbounded(#[trigger] final(a)@[k], 8 * P as int),
{
    let x0 = a[off];
    let x1 = a[off + 1];
    let x2 = a[off + 2];
    let x3 = a[off + 3];
    let ere = x0.re + x2.re;
    let eim = x0.im + x2.im;
    let fre = x1.re + x3.re;
    let fim = x1.im + x3.im;
    let ure = x0.re - x2.re;
    let uim = x0.im - x2.im;
    let vre = x1.re - x3.re;
    let vim = x1.im - x3.im;
    a[off] = Complex { re: ere + fre, im: eim + fim };
    a[off + 1] = Complex { re: ere - fre, im: eim - fim };
    a[off + 2] = Complex { re: ure - vim, im: uim + vre };
    a[off + 3] = Complex { re: ure + vim, im: uim - vre };
    proof {
        let s = gviews(old(a)@.subrange(off as int, off as int + 4));
        let t = gviews(a@.subrange(off as int, off as int + 4));
        assert(s[0] == gview(x0) && s[1] == gview(x1) && s[2] == gview(x2) && s[3] == gview(x3));
        lemma_gadd_raw(x0.re as int, x0.im as int, x2.re as int, x2.im as int);
        lemma_gadd_raw(x1.re as int, x1.im as int, x3.re as int, x3.im as int);
        lemma_gsub_raw(x0.re as int, x0.im as int, x2.re as int, x2.im as int);
        lemma_gsub_raw(x1.re as int, x1.im as int, x3.re as int, x3.im as int);
        lemma_gmuli_raw(vre as int, vim as int);
        lemma_gadd_raw(ere as int, eim as int, fre as int, fim as int);
        lemma_gsub_raw(ere as int, eim as int, fre as int, fim as int);
        lemma_gadd_raw(ure as int, uim as int, -(vim as int), vre as int);
        lemma_gsub_raw(ure as int, uim as int, -(vim as int), vre as int);
        assert(t[0] == gnorm(ere + fre, eim + fim));
        assert(t[1] == gnorm(ere - fre, eim - fim));
        assert(t[2] == gnorm(ure - vim, uim + vre));
        assert(t[3] == gnorm(ure + vim, uim - vre));
        assert(t[0] == c4_spec(s)[0]);
        assert(t[1] == c4_spec(s)[1]);
        assert(t[2] == c4_spec(s)[2]);
        assert(t[3] == c4_spec(s)[3]);
        assert(t =~= c4_spec(s));
    }
}

/// The size-8 transform, fully unrolled: one decimation stage over the block
/// — the zero-point butterfly on the even positions and the half-point
/// butterfly on the odd ones — whose quarter outputs are combined by size-2
/// sums and differences, and whose first half feeds the size-4 kernel.
#[verifier::rlimit(100)]
pub fn c8(a: &mut Vec<Complex>, off: usize)
    requires
        off + 8 <= old(a).len(),
        forall|k: int| off <= k < off + 8 ==> ereduced(#[trigger] old(a)@[k]),
    ensures
        final(a)@.len() == old(a)@.len(),
        forall|k: int|
            0 <= k < old(a)@.len() && !(off <= k < off + 8) ==> final(a)@[k] == old(a)@[k],
        gviews(final(a)@.subrange(off as int, off as int + 8)) == cfft_spec(
            gviews(old(a)@.subrange(off as int, off as int + 8)),
        ),
        forall|k: int| off <= k < off + 8 ==> cbounded(#[trigger] final(a)@[k], 8 * P as int),
{
    let ghost s = gviews(old(a)@.subrange(off as int, off as int + 8));
    let ghost p = cpass_spec(s);
    let mut b0 = a[off];
    let mut b1 = a[off + 2];
    let mut b2 = a[off + 4];
    let mut b3 = a[off + 6];
    transformzero(&mut b0, &mut b1, &mut b2, &mut b3);
    let mut h0 = a[off + 1];
    let mut h1 = a[off + 3];
    let mut h2 = a[off + 5];
    let mut h3 = a[off + 7];
    transformhalf(&mut h0, &mut h1, &mut h2, &mut h3);
    proof {
        lemma_omega8();
        assert(p[0] == gview(b0) && p[2] == gview(b1) && p[4] == gview(b2) && p[6] == gview(b3));
        assert(p[1] == gview(h0) && p[3] == gview(h1) && p[5] == gview(h2) && p[7] == gview(h3));
    }
    a[off] = b0;
    a[off + 1] = h0;
    a[off + 2] = b1;
    a[off + 3] = h1;
    let mut e4 = Complex { re: b2.re + h2.re, im: b2.im + h2.im };
    let mut e5 = Complex { re: b2.re - h2.re, im: b2.im - h2.im };
    let mut e6 = Complex { re: b3.re + h3.re, im: b3.im + h3.im };
    let mut e7 = Complex { re: b3.re - h3.re, im: b3.im - h3.im };
    normalise(&mut e4);
    normalise(&mut e5);
    normalise(&mut e6);
    normalise(&mut e7);
    a[off + 4] = e4;
    a[off + 5] = e5;
    a[off + 6] = e6;
    a[off + 7] = e7;
    proof {
        lemma_gadd_raw(b2.re as int, b2.im as int, h2.re as int, h2.im as int);
        lemma_gsub_raw(b2.re as int, b2.im as int, h2.re as int, h2.im as int);
        lemma_gadd_raw(b3.re as int, b3.im as int, h3.re as int, h3.im as int);
        lemma_gsub_raw(b3.re as int, b3.im as int, h3.re as int, h3.im as int);
        assert(gview(e4) == gadd(p[4], p[5]));
        assert(gview(e5) == gsub(p[4], p[5]));
        assert(gview(e6) == gadd(p[6], p[7]));
        assert(gview(e7) == gsub(p[6], p[7]));
        assert(gviews(a@.subrange(off as int, off as int + 4)) =~= p.subrange(0, 4));
    }
    c4(a, off);
    proof {
        lemma_cfft_eight(s);
        assert(gviews(a@.subrange(off as int, off as int + 4)) == c4_spec(p.subrange(0, 4)));
        assert(gviews(a@.subrange(off as int, off as int + 8)) =~= cfft_spec(s));
    }
}

/// The real part of the size-16 root, in balanced representation.
pub const Z16_RE: i64 = 590768354;

/// The imaginary part of the size-16 root, in balanced representation.
pub const Z16_IM: i64 = -978592373;

/// The size-16 transform, fully unrolled: one decimation stage of four
/// butterflies — zero-point, general at the size-16 root, half-point, and
/// general at the root's cube, whose balanced components are the root's
/// swapped — then the size-8 kernel on the first half and the size-4 kernel
/// on each quarter.
#[verifier::rlimit(100)]
pub fn c16(a: &mut Vec<Complex>, off: usize)
    requires
        off + 16 <= old(a).len(),
        forall|k: int| off <= k < off + 16 ==> ereduced(#[trigger] old(a)@[k]),
    ensures
        final(a)@.len() == old(a)@.len(),
        forall|k: int|
            0 <= k < old(a)@.len() && !(off <= k < off + 16) ==> final(a)@[k] == old(a)@[k],
        gviews(final(a)@.subrange(off as int, off as int + 16)) == cfft_spec(
            gviews(old(a)@.subrange(off as int, off as int + 16)),
        ),
        forall|k: int| off <= k < off + 16 ==> cbounded(#[trigger] final(a)@[k], 8 * P as int),
{
    let ghost s = gviews(old(a)@.subrange(off as int, off as int + 16));
    let ghost p = cpass_spec(s);
    let mut b0 = a[off];
    let mut b1 = a[off + 4];
    let mut b2 = a[off + 8];
    let mut b3 = a[off + 12];
    transformzero(&mut b0, &mut b1, &mut b2, &mut b3);
    a[off] = b0;
    a[off + 4] = b1;
    a[off + 8] = b2;
    a[off + 12] = b3;
    let mut g0 = a[off + 1];
    let mut g1 = a[off + 5];
    let mut g2 = a[off + 9];
    let mut g3 = a[off + 13];
    transform(&mut g0, &mut g1, &mut g2, &mut g3, Z16_RE, Z16_IM);
    a[off + 1] = g0;
    a[off + 5] = g1;
    a[off + 9] = g2;
    a[off + 13] = g3;
    let mut h0 = a[off + 2];
    let mut h1 = a[off + 6];
    let mut h2 = a[off + 10];
    let mut h3 = a[off + 14];
    transformhalf(&mut h0, &mut h1, &mut h2, &mut h3);
    a[off + 2] = h0;
    a[off + 6] = h1;
    a[off + 10] = h2;
    a[off + 14] = h3;
    let mut j0 = a[off + 3];
    let mut j1 = a[off + 7];
    let mut j2 = a[off + 11];
    let mut j3 = a[off + 15];
    transform(&mut j0, &mut j1, &mut j2, &mut j3, Z16_IM, Z16_RE);
    a[off + 3] = j0;
    a[off + 7] = j1;
    a[off + 11] = j2;
    a[off + 15] = j3;
    proof {
        lemma_omega16();
        lemma_pmod_small(590768354);
        lemma_pmod_small(1168891274);
        lemma_pmod_shift(1, -978592373);
        assert(gnorm(Z16_RE as int, Z16_IM as int) == omega(16, 1));
        assert(gnorm(Z16_IM as int, Z16_RE as int) == omega(16, 3));
        assert(s.len() == 16);
        assert forall|k: int| 0 <= k < 16 implies s[k] == gview(old(a)@[off + k]) by {
        };
        assert(omega(16, 0) == gone());
        assert(p[0] == gview(b0));
        assert(p[4] == gview(b1));
        assert(p[8] == gview(b2));
        assert(p[12] == gview(b3));
        assert(p[1] == gview(g0));
        assert(p[5] == gview(g1));
        assert(p[9] == gview(g2));
        assert(p[13] == gview(g3));
        assert(p[2] == gview(h0));
        assert(p[6] == gview(h1));
        assert(p[10] == gview(h2));
        assert(p[14] == gview(h3));
        assert(p[3] == gview(j0));
        assert(p[7] == gview(j1));
        assert(p[11] == gview(j2));
        assert(p[15] == gview(j3));
        assert(gviews(a@.subrange(off as int, off as int + 8)) =~= p.subrange(0, 8));
        assert(gviews(a@.subrange(off as int + 8, off as int + 12)) =~= p.subrange(8, 12));
        assert(gviews(a@.subrange(off as int + 12, off as int + 16)) =~= p.subrange(12, 16));
    }
    c4(a, off + 8);
    proof {
        assert(gviews(a@.subrange(off as int + 8, off as int + 12)) == c4_spec(
            p.subrange(8, 12),
        ));
        assert(gviews(a@.subrange(off as int + 12, off as int + 16)) =~= p.subrange(12, 16));
    }
    c4(a, off + 12);
    proof {
        assert(gviews(a@.subrange(off as int + 8, off as int + 12)) =~= c4_spec(
            p.subrange(8, 12),
        ));
        assert(gviews(a@.subrange(off as int + 12, off as int + 16)) == c4_spec(
            p.subrange(12, 16),
        ));
        assert(gviews(a@.subrange(off as int, off as int + 8)) =~= p.subrange(0, 8));
    }
    c8(a, off);
    proof {
        assert(gviews(a@.subrange(off as int, off as int + 8)) == cfft_spec(p.subrange(0, 8)));
        assert(gviews(a@.subrange(off as int + 8, off as int + 12)) =~= c4_spec(
            p.subrange(8, 12),
        ));
        assert(gviews(a@.subrange(off as int + 12, off as int + 16)) =~= c4_spec(
            p.subrange(12, 16),
        ));
        lemma_cfft_sixteen(s);
        assert(gviews(a@.subrange(off as int, off as int + 16)) =~= cfft_spec(s));
    }
}

} // verus!
