//! Mathematical model of the transform family: the conjugate-pair butterfly,
//! the closed-form base combinations, the split-radix pass, and the recursive
//! composition that defines the transform of every supported size.
use vstd::prelude::*;

verus! {

use crate::complex::{Complex, GComplex, gview, gadd, gsub, gmul, gmuli, gconj, gpow, gone};

/// One stage of the radix-4 conjugate-pair butterfly with twiddle `w`: the
/// first two outputs are the pairwise sums, and the cross outputs are
/// `w * (u + i v)` and `conj(w) * (u - i v)` for the pairwise differences
/// `u = x0 - x2` and `v = x1 - x3`.
pub open spec fn bfly(
    w: GComplex,
    x0: GComplex,
    x1: GComplex,
    x2: GComplex,
    x3: GComplex,
) -> (GComplex, GComplex, GComplex, GComplex) {
    let u = gsub(x0, x2);
    let v = gsub(x1, x3);
    (
        gadd(x0, x2),
        gadd(x1, x3),
        gmul(w, gadd(u, gmuli(v))),
        gmul(gconj(w), gsub(u, gmuli(v))),
    )
}

/// The twiddle of the half-point butterfly: the square root of one half,
/// `2^15 * (1 + i)`.
pub open spec fn gsqrt_half() -> GComplex {
    GComplex { re: 32768, im: 32768 }
}

/// The size-2 base combination: sum and difference.
pub open spec fn c2_spec(s: Seq<GComplex>) -> Seq<GComplex>
    recommends
        s.len() == 2,
{
    seq![gadd(s[0], s[1]), gsub(s[0], s[1])]
}

/// The size-4 base combination, the conjugate-pair analogue of the radix-4
/// matrix: sums and differences of the half sums `e = x0 + x2`,
/// `f = x1 + x3`, and the cross terms `u + i v`, `u - i v` of the half
/// differences `u = x0 - x2`, `v = x1 - x3`.
pub open spec fn c4_spec(s: Seq<GComplex>) -> Seq<GComplex>
    recommends
        s.len() == 4,
{
    let e = gadd(s[0], s[2]);
    let f = gadd(s[1], s[3]);
    let u = gsub(s[0], s[2]);
    let v = gsub(s[1], s[3]);
    seq![gadd(e, f), gsub(e, f), gadd(u, gmuli(v)), gsub(u, gmuli(v))]
}

/// The primitive root of unity a block of the given size is twiddled with.
/// Each is a root of order equal to the block size, the family being chosen
/// so that the root for size 8 is `(2^15, 2^15)`, whose square is the
/// imaginary unit.
pub open spec fn zeta_of(n: nat) -> GComplex {
    if n == 8 {
        GComplex { re: 32768, im: 32768 }
    } else if n == 16 {
        GComplex { re: 590768354, im: 1168891274 }
    } else if n == 32 {
        GComplex { re: 1179735656, im: 906276279 }
    } else if n == 64 {
        GComplex { re: 1567857810, im: 1690787918 }
    } else if n == 128 {
        GComplex { re: 1774253895, im: 838195206 }
    } else if n == 256 {
        GComplex { re: 736262640, im: 593814437 }
    } else if n == 512 {
        GComplex { re: 1819216575, im: 484667533 }
    } else if n == 1024 {
        GComplex { re: 1323191254, im: 210509587 }
    } else if n == 2048 {
        GComplex { re: 605622498, im: 183251431 }
    } else if n == 4096 {
        GComplex { re: 343674985, im: 1645696654 }
    } else {
        gone()
    }
}

/// The twiddle factor applied at aligned position `i` of a pass over a block
/// of size `n`: the `i`-th power of the block's root.
pub open spec fn omega(n: nat, i: nat) -> GComplex {
    gpow(zeta_of(n), i)
}

/// One split-radix decimation stage over a whole block: the block is viewed
/// as four contiguous equal quarters, and the butterfly is applied to each
/// aligned element quadruple, with the twiddle for position `i` being the
/// `i`-th power of the block's root (the identity at position zero).
pub open spec fn cpass_spec(s: Seq<GComplex>) -> Seq<GComplex>
    recommends
        s.len() % 8 == 0,
        s.len() >= 8,
{
    let q = s.len() as int / 4;
    Seq::new(
        s.len(),
        |j: int|
            {
                let i = j % q;
                let t = bfly(
                    omega(s.len(), i as nat),
                    s[i],
                    s[q + i],
                    s[2 * q + i],
                    s[3 * q + i],
                );
                if j < q {
                    t.0
                } else if j < 2 * q {
                    t.1
                } else if j < 3 * q {
                    t.2
                } else {
                    t.3
                }
            },
    )
}

/// The transform of a block: one decimation pass, then the recursive
/// transform of the first half and of each quarter of the result, bottoming
/// out in the closed-form size-4 and size-2 combinations.
pub open spec fn cfft_spec(s: Seq<GComplex>) -> Seq<GComplex>
    decreases s.len(),
{
    if s.len() == 2 {
        c2_spec(s)
    } else if s.len() == 4 {
        c4_spec(s)
    } else if s.len() >= 8 {
        let n = s.len() as int;
        let p = cpass_spec(s);
        cfft_spec(p.subrange(0, n / 2)) + cfft_spec(p.subrange(n / 2, n / 2 + n / 4)) + cfft_spec(
            p.subrange(n / 2 + n / 4, n),
        )
    } else {
        s
    }
}

/// The transform of a block has the block's length.
pub proof fn lemma_cfft_spec_len(s: Seq<GComplex>)
    ensures
        cfft_spec(s).len() == s.len(),
    decreases s.len(),
{
    if s.len() >= 8 {
        let n = s.len() as int;
        let p = cpass_spec(s);
        lemma_cfft_spec_len(p.subrange(0, n / 2));
        lemma_cfft_spec_len(p.subrange(n / 2, n / 2 + n / 4));
        lemma_cfft_spec_len(p.subrange(n / 2 + n / 4, n));
    }
}

/// The classes represented by a buffer of machine elements.
pub open spec fn gviews(s: Seq<Complex>) -> Seq<GComplex> {
    Seq::new(s.len(), |i: int| gview(s[i]))
}

/// The twiddles of a size-8 pass: the identity at position zero and the
/// square root of one half at position one.
pub proof fn lemma_omega8()
    ensures
        omega(8, 0) == gone(),
        omega(8, 1) == gsqrt_half(),
{
    assert(gpow(zeta_of(8), 0) == gone());
    assert(gpow(zeta_of(8), 1) == gmul(zeta_of(8), gpow(zeta_of(8), 0)));
    crate::complex::lemma_gmul_one(zeta_of(8));
}

/// The twiddles of a size-16 pass: the identity, the size-16 root, its
/// square — the square root of one half — and its cube, whose components are
/// those of the root swapped.
#[verifier::rlimit(100)]
pub proof fn lemma_omega16()
    ensures
        omega(16, 0) == gone(),
        omega(16, 1) == zeta_of(16),
        omega(16, 2) == gsqrt_half(),
        omega(16, 3) == (GComplex { re: 1168891274, im: 590768354 }),
{
    let z = zeta_of(16);
    assert(gpow(z, 0) == gone());
    assert(gpow(z, 1) == gmul(z, gpow(z, 0)));
    assert(gpow(z, 2) == gmul(z, gpow(z, 1)));
    assert(gpow(z, 3) == gmul(z, gpow(z, 2)));
    crate::complex::lemma_gmul_one(z);
    reveal(crate::field::pmod);
    assert(gmul(z, z) == gsqrt_half());
    assert(gmul(z, gsqrt_half()) == (GComplex { re: 1168891274, im: 590768354 }));
}

/// The transform of a size-8 block unfolds into one pass, the size-4
/// combination of the first half, and the size-2 combination of each quarter.
pub proof fn lemma_cfft_eight(s: Seq<GComplex>)
    requires
        s.len() == 8,
    ensures
        cfft_spec(s) == c4_spec(cpass_spec(s).subrange(0, 4)) + c2_spec(
            cpass_spec(s).subrange(4, 6),
        ) + c2_spec(cpass_spec(s).subrange(6, 8)),
{
    let p = cpass_spec(s);
    assert(cfft_spec(p.subrange(0, 4)) == c4_spec(p.subrange(0, 4)));
    assert(cfft_spec(p.subrange(4, 6)) == c2_spec(p.subrange(4, 6)));
    assert(cfft_spec(p.subrange(6, 8)) == c2_spec(p.subrange(6, 8)));
}

/// The transform of a size-16 block unfolds into one pass, the size-8
/// transform of the first half, and the size-4 combination of each quarter.
pub proof fn lemma_cfft_sixteen(s: Seq<GComplex>)
    requires
        s.len() == 16,
    ensures
        cfft_spec(s) == cfft_spec(cpass_spec(s).subrange(0, 8)) + c4_spec(
            cpass_spec(s).subrange(8, 12),
        ) + c4_spec(cpass_spec(s).subrange(12, 16)),
{
    let p = cpass_spec(s);
    assert(cfft_spec(p.subrange(8, 12)) == c4_spec(p.subrange(8, 12)));
    assert(cfft_spec(p.subrange(12, 16)) == c4_spec(p.subrange(12, 16)));
}

} // verus!
