//! Twiddle tables and the split-radix pass operator. Each supported block
//! size of at least 32 owns a precomputed table of balanced roots of unity,
//! built once at initialization; a pass sweeps the block left to right,
//! applying the zero-point butterfly to the first aligned quadruple and the
//! general butterfly with successive table entries to the rest.
use vstd::prelude::*;

verus! {

use vstd::arithmetic::div_mod::{lemma_small_mod, lemma_mod_multiples_vanish, lemma_mod_mod,
    lemma_fundamental_div_mod};
use crate::field::{P, pmod, reduce_wide, lemma_pmod_small, lemma_pmod_shift};
use crate::complex::{
    Complex, gview, gnorm, gone, gmul, gpow, ereduced, balanced, lemma_gmul_raw,
    lemma_gnorm_normal, lemma_gmul_one,
};
use crate::model::{cpass_spec, gviews, omega, zeta_of};
use crate::butterfly::{transform, transformzero};

/// A well-formed twiddle table for block size `n`: `n/4 - 1` balanced
/// entries, the entry at index `i` representing the `(i + 1)`-th power of the
/// block's root.
pub open spec fn table_ok(t: Seq<Complex>, n: int) -> bool {
    &&& t.len() == n / 4 - 1
    &&& forall|i: int|
        0 <= i < t.len() ==> balanced((#[trigger] t[i]).re) && balanced(t[i].im) && gview(t[i])
            == omega(n as nat, (i + 1) as nat)
}

/// The product of two essentially-reduced scalars stays within the square of
/// the modulus, itself inside the wide-reduction budget.
proof fn lemma_reduced_product_bound(x: int, y: int)
    by (nonlinear_arith)
    requires
        0 <= x <= P as int,
        0 <= y <= P as int,
    ensures
        0 <= x * y <= 0x3fff_ffff_0000_0001,
{
}

/// Complex product of two essentially-reduced elements, wide-reduced.
fn cmul_reduced(x: Complex, y: Complex) -> (r: Complex)
    requires
        ereduced(x),
        ereduced(y),
    ensures
        ereduced(r),
        gview(r) == gmul(gview(x), gview(y)),
{
    proof {
        lemma_reduced_product_bound(x.re as int, y.re as int);
        lemma_reduced_product_bound(x.im as int, y.im as int);
        lemma_reduced_product_bound(x.re as int, y.im as int);
        lemma_reduced_product_bound(x.im as int, y.re as int);
    }
    let re = reduce_wide(x.re * y.re - x.im * y.im);
    let im = reduce_wide(x.re * y.im + x.im * y.re);
    proof {
        lemma_gmul_raw(x.re as int, x.im as int, y.re as int, y.im as int);
    }
    Complex { re, im }
}

/// Brings an essentially-reduced scalar into balanced representation by one
/// conditional subtraction, keeping its residue.
fn to_balanced(x: i64) -> (r: i64)
    requires
        0 <= x <= P,
    ensures
        balanced(r),
        pmod(r as int) == pmod(x as int),
{
    if x > (P - 1) / 2 {
        proof {
            lemma_pmod_shift(-1, x as int);
        }
        x - P
    } else {
        x
    }
}

/// Builds the twiddle table for block size `n` from the block's root `z`:
/// successive powers of `z`, each stored in balanced representation.
fn build_table(n: usize, z: Complex) -> (t: Vec<Complex>)
    requires
        16 <= n <= 4096,
        ereduced(z),
        gview(z) == zeta_of(n as nat),
    ensures
        table_ok(t@, n as int),
{
    let mut t: Vec<Complex> = Vec::new();
    let mut cur: Complex = z;
    proof {
        lemma_gnorm_normal(z.re as int, z.im as int);
        lemma_gmul_one(zeta_of(n as nat));
        assert(gpow(zeta_of(n as nat), 1) == gmul(zeta_of(n as nat), gpow(zeta_of(n as nat), 0)));
        assert(gview(cur) == omega(n as nat, 1));
    }
    let mut i: usize = 1;
    let entries = n / 4 - 1;
    while i <= entries
        invariant
            16 <= n <= 4096,
            entries == n / 4 - 1,
            1 <= i <= entries + 1,
            t@.len() == i - 1,
            ereduced(z),
            gview(z) == zeta_of(n as nat),
            ereduced(cur),
            gview(cur) == omega(n as nat, i as nat),
            forall|k: int|
                0 <= k < i - 1 ==> balanced((#[trigger] t@[k]).re) && balanced(t@[k].im)
                    && gview(t@[k]) == omega(n as nat, (k + 1) as nat),
        decreases entries + 1 - i,
    {
        let bre = to_balanced(cur.re);
        let bim = to_balanced(cur.im);
        t.push(Complex { re: bre, im: bim });
        let next = cmul_reduced(z, cur);
        proof {
            assert(gpow(zeta_of(n as nat), (i + 1) as nat) == gmul(
                zeta_of(n as nat),
                gpow(zeta_of(n as nat), i as nat),
            ));
            assert(gview(next) == omega(n as nat, (i + 1) as nat));
        }
        cur = next;
        i += 1;
    }
    t
}

/// The precomputed twiddle tables, one per supported block size that takes a
/// pass. Immutable after construction and shared read-only by every
/// transform invocation.
pub struct TwiddleTables {
    pub t16: Vec<Complex>,
    pub t32: Vec<Complex>,
    pub t64: Vec<Complex>,
    pub t128: Vec<Complex>,
    pub t256: Vec<Complex>,
    pub t512: Vec<Complex>,
    pub t1024: Vec<Complex>,
    pub t2048: Vec<Complex>,
    pub t4096: Vec<Complex>,
}

impl TwiddleTables {
    /// Every table is well formed for its block size.
    pub open spec fn wf(&self) -> bool {
        &&& table_ok(self.t16@, 16)
        &&& table_ok(self.t32@, 32)
        &&& table_ok(self.t64@, 64)
        &&& table_ok(self.t128@, 128)
        &&& table_ok(self.t256@, 256)
        &&& table_ok(self.t512@, 512)
        &&& table_ok(self.t1024@, 1024)
        &&& table_ok(self.t2048@, 2048)
        &&& table_ok(self.t4096@, 4096)
    }

    /// Builds all tables from the per-size roots.
    pub fn new() -> (t: TwiddleTables)
        ensures
            t.wf(),
    {
        proof {
            lemma_pmod_small(590768354);
            lemma_pmod_small(1168891274);
            lemma_pmod_small(1179735656);
            lemma_pmod_small(906276279);
            lemma_pmod_small(1567857810);
            lemma_pmod_small(1690787918);
            lemma_pmod_small(1774253895);
            lemma_pmod_small(838195206);
            lemma_pmod_small(736262640);
            lemma_pmod_small(593814437);
            lemma_pmod_small(1819216575);
            lemma_pmod_small(484667533);
            lemma_pmod_small(1323191254);
            lemma_pmod_small(210509587);
            lemma_pmod_small(605622498);
            lemma_pmod_small(183251431);
            lemma_pmod_small(343674985);
            lemma_pmod_small(1645696654);
        }
        TwiddleTables {
            t16: build_table(16, Complex { re: 590768354, im: 1168891274 }),
            t32: build_table(32, Complex { re: 1179735656, im: 906276279 }),
            t64: build_table(64, Complex { re: 1567857810, im: 1690787918 }),
            t128: build_table(128, Complex { re: 1774253895, im: 838195206 }),
            t256: build_table(256, Complex { re: 736262640, im: 593814437 }),
            t512: build_table(512, Complex { re: 1819216575, im: 484667533 }),
            t1024: build_table(1024, Complex { re: 1323191254, im: 210509587 }),
            t2048: build_table(2048, Complex { re: 605622498, im: 183251431 }),
            t4096: build_table(4096, Complex { re: 343674985, im: 1645696654 }),
        }
    }
}

/// An aligned position within a quarter addresses the same position of every
/// quarter, modulo the quarter length.
proof fn lemma_quarter_index(q: int, i: int)
    requires
        0 < q,
        0 <= i < q,
    ensures
        i % q == i,
        (q + i) % q == i,
        (2 * q + i) % q == i,
        (3 * q + i) % q == i,
{
    lemma_small_mod(i as nat, q as nat);
    lemma_mod_multiples_vanish(1, i, q);
    lemma_mod_multiples_vanish(2, i, q);
    lemma_mod_multiples_vanish(3, i, q);
}

/// Any index in a block of length `4q` splits into a quarter number and an
/// aligned position within the quarter.
proof fn lemma_quarter_decompose(q: int, j: int)
    requires
        0 < q,
        0 <= j < 4 * q,
    ensures
        j == q * (j / q) + j % q,
        0 <= j % q < q,
        0 <= j / q <= 3,
{
    lemma_fundamental_div_mod(j, q);
    vstd::arithmetic::div_mod::lemma_mod_bound(j, q);
    assert(0 <= j / q <= 3) by (nonlinear_arith)
        requires
            q > 0,
            0 <= j < 4 * q,
            j == q * (j / q) + j % q,
            0 <= j % q < q,
    ;
}

/// The explicit form of the quarter decomposition, one case per quarter.
proof fn lemma_quarter_cases(q: int, j: int)
    requires
        0 < q,
        0 <= j < 4 * q,
    ensures
        0 <= j % q < q,
        j / q == 0 ==> j == j % q,
        j / q == 1 ==> j == q + j % q,
        j / q == 2 ==> j == 2 * q + j % q,
        j / q == 3 ==> j == 3 * q + j % q,
        0 <= j / q <= 3,
{
    lemma_quarter_decompose(q, j);
    assert(j / q == 0 ==> q * (j / q) == 0) by (nonlinear_arith);
    assert(j / q == 1 ==> q * (j / q) == q) by (nonlinear_arith);
    assert(j / q == 2 ==> q * (j / q) == 2 * q) by (nonlinear_arith);
    assert(j / q == 3 ==> q * (j / q) == 3 * q) by (nonlinear_arith);
}

/// One split-radix decimation stage over the block of length `len` starting
/// at `off`, using the table `w` sized for `len`: the zero-point butterfly on
/// the first aligned quadruple, then the general butterfly with successive
/// table twiddles in a single left-to-right sweep.
#[verifier::rlimit(100)]
pub fn cpass(a: &mut Vec<Complex>, off: usize, len: usize, w: &Vec<Complex>)
    requires
        off + len <= old(a).len(),
        len % 8 == 0,
        16 <= len <= 4096,
        table_ok(w@, len as int),
        forall|k: int| off <= k < off + len ==> ereduced(#[trigger] old(a)@[k]),
    ensures
        final(a)@.len() == old(a)@.len(),
        forall|k: int|
            0 <= k < old(a)@.len() && !(off <= k < off + len) ==> final(a)@[k] == old(a)@[k],
        gviews(final(a)@.subrange(off as int, off as int + len as int)) == cpass_spec(
            gviews(old(a)@.subrange(off as int, off as int + len as int)),
        ),
        forall|k: int| off <= k < off + len ==> ereduced(#[trigger] final(a)@[k]),
{
    let ghost s = gviews(old(a)@.subrange(off as int, off as int + len as int));
    let ghost p = cpass_spec(s);
    let q = len / 4;
    proof {
        lemma_mod_mod(len as int, 4, 2);
        lemma_fundamental_div_mod(len as int, 4);
        assert(4 * (q as int) == len as int);
    }
    let mut b0 = a[off];
    let mut b1 = a[off + q];
    let mut b2 = a[off + 2 * q];
    let mut b3 = a[off + 3 * q];
    transformzero(&mut b0, &mut b1, &mut b2, &mut b3);
    a[off] = b0;
    a[off + q] = b1;
    a[off + 2 * q] = b2;
    a[off + 3 * q] = b3;
    proof {
        lemma_quarter_index(q as int, 0);
        assert(s.len() == len as int);
        assert(omega(len as nat, 0) == gone());
        assert(s[0] == gview(old(a)@[off as int]));
        assert(p[0] == gview(b0));
        assert(p[q as int] == gview(b1));
        assert(p[2 * q as int] == gview(b2));
        assert(p[3 * q as int] == gview(b3));
        assert forall|j: int| 0 <= j < len && #[trigger] (j % q as int) < 1 implies gview(
            a@[off + j],
        ) == p[j] && ereduced(a@[off + j]) by {
            lemma_quarter_cases(q as int, j);
        };
        assert forall|j: int| 0 <= j < len && #[trigger] (j % q as int) >= 1 implies a@[off + j]
            == old(a)@[off + j] by {
            lemma_quarter_cases(q as int, j);
        };
    }
    let mut i: usize = 1;
    while i < q
        invariant
            q == len / 4,
            4 * (q as int) == len as int,
            16 <= len <= 4096,
            1 <= i <= q,
            off + len <= old(a).len(),
            a.len() == old(a).len(),
            table_ok(w@, len as int),
            forall|k: int| off <= k < off + len ==> ereduced(#[trigger] old(a)@[k]),
            s == gviews(old(a)@.subrange(off as int, off as int + len as int)),
            p == cpass_spec(s),
            forall|k: int|
                0 <= k < old(a)@.len() && !(off <= k < off + len) ==> a@[k] == old(a)@[k],
            forall|j: int|
                0 <= j < len && #[trigger] (j % q as int) < i ==> gview(a@[off + j]) == p[j]
                    && ereduced(a@[off + j]),
            forall|j: int|
                0 <= j < len && #[trigger] (j % q as int) >= i ==> a@[off + j] == old(a)@[off
                    + j],
        decreases q - i,
    {
        let wi = w[i - 1];
        proof {
            lemma_quarter_index(q as int, i as int);
        }
        let mut b0 = a[off + i];
        let mut b1 = a[off + q + i];
        let mut b2 = a[off + 2 * q + i];
        let mut b3 = a[off + 3 * q + i];
        transform(&mut b0, &mut b1, &mut b2, &mut b3, wi.re, wi.im);
        proof {
            assert(gnorm(wi.re as int, wi.im as int) == omega(len as nat, i as nat));
            assert(p[i as int] == gview(b0) && p[q + i as int] == gview(b1) && p[2 * q
                + i as int] == gview(b2) && p[3 * q + i as int] == gview(b3));
        }
        a[off + i] = b0;
        a[off + q + i] = b1;
        a[off + 2 * q + i] = b2;
        a[off + 3 * q + i] = b3;
        proof {
            assert forall|j: int| 0 <= j < len && #[trigger] (j % q as int) < i + 1 implies
                gview(a@[off + j]) == p[j] && ereduced(a@[off + j]) by {
                lemma_quarter_cases(q as int, j);
            };
            assert forall|j: int| 0 <= j < len && #[trigger] (j % q as int) >= i + 1 implies a@[off
                + j] == old(a)@[off + j] by {
                lemma_quarter_cases(q as int, j);
            };
        }
        i += 1;
    }
    proof {
        assert forall|k: int| off <= k < off + len implies ereduced(#[trigger] a@[k]) && gview(
            a@[k],
        ) == p[k - off] by {
            lemma_quarter_cases(q as int, k - off);
            assert(((k - off) % q as int) < i);
            assert(gview(a@[off + (k - off)]) == p[k - off] && ereduced(a@[off + (k - off)]));
        };
        assert(gviews(a@.subrange(off as int, off as int + len as int)) =~= p);
    }
}

} // verus!
