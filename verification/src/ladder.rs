//! The recursive split-radix composition and the ladder of fixed-size
//! kernels: for every supported size of at least 32, one pass splits the
//! block into a half and two quarters, which are transformed by the
//! half-size and quarter-size kernels; sizes 4, 8 and 16 bottom out in the
//! closed-form kernels.
use vstd::prelude::*;

verus! {

use crate::field::P;
use crate::complex::{Complex, ereduced, cbounded};
use crate::model::{cfft_spec, cpass_spec, gviews, lemma_cfft_spec_len};
use crate::kernels::{c4, c8, c16};
use crate::pass::{TwiddleTables, cpass, table_ok};

/// The supported transform sizes: the powers of two from 4 to 4096.
pub open spec fn supported_size(n: int) -> bool {
    n == 4 || n == 8 || n == 16 || n == 32 || n == 64 || n == 128 || n == 256 || n == 512 || n
        == 1024 || n == 2048 || n == 4096
}

/// Selects the twiddle table sized for block length `len`.
fn table_for<'a>(t: &'a TwiddleTables, len: usize) -> (w: &'a Vec<Complex>)
    requires
        t.wf(),
        supported_size(len as int),
        len >= 32,
    ensures
        table_ok(w@, len as int),
{
    if len == 32 {
        &t.t32
    } else if len == 64 {
        &t.t64
    } else if len == 128 {
        &t.t128
    } else if len == 256 {
        &t.t256
    } else if len == 512 {
        &t.t512
    } else if len == 1024 {
        &t.t1024
    } else if len == 2048 {
        &t.t2048
    } else {
        &t.t4096
    }
}

/// The transform of the block of supported length `len` starting at `off`:
/// one pass, then the recursive transform of the first half and of each
/// quarter, bottoming out in the closed-form kernels. Inputs must be
/// essentially reduced; outputs are congruent to the recursive transform of
/// the input classes and have magnitude at most `8P`.
#[verifier::rlimit(100)]
pub fn cfft(a: &mut Vec<Complex>, off: usize, len: usize, t: &TwiddleTables)
    requires
        t.wf(),
        supported_size(len as int),
        off + len <= old(a).len(),
        forall|k: int| off <= k < off + len ==> ereduced(#[trigger] old(a)@[k]),
    ensures
        final(a)@.len() == old(a)@.len(),
        forall|k: int|
            0 <= k < old(a)@.len() && !(off <= k < off + len) ==> final(a)@[k] == old(a)@[k],
        gviews(final(a)@.subrange(off as int, off as int + len as int)) == cfft_spec(
            gviews(old(a)@.subrange(off as int, off as int + len as int)),
        ),
        forall|k: int| off <= k < off + len ==> cbounded(#[trigger] final(a)@[k], 8 * P as int),
    decreases len,
{
    if len == 4 {
        c4(a, off);
    } else if len == 8 {
        c8(a, off);
    } else if len == 16 {
        c16(a, off);
    } else {
        let ghost s = gviews(old(a)@.subrange(off as int, off as int + len as int));
        let ghost p = cpass_spec(s);
        let half = len / 2;
        let quarter = len / 4;
        let w = table_for(t, len);
        cpass(a, off, len, w);
        let ghost r1 = cfft_spec(p.subrange(0, half as int));
        let ghost r2 = cfft_spec(p.subrange(half as int, half as int + quarter as int));
        let ghost r3 = cfft_spec(p.subrange(half as int + quarter as int, len as int));
        proof {
            lemma_cfft_spec_len(p.subrange(0, half as int));
            lemma_cfft_spec_len(p.subrange(half as int, half as int + quarter as int));
            lemma_cfft_spec_len(p.subrange(half as int + quarter as int, len as int));
            assert(gviews(a@.subrange(off as int, off as int + half as int)) =~= p.subrange(
                0,
                half as int,
            ));
        }
        cfft(a, off, half, t);
        proof {
            assert(gviews(a@.subrange(off as int, off as int + half as int)) == r1);
            assert(gviews(
                a@.subrange(off as int + half as int, off as int + half as int + quarter as int),
            ) =~= p.subrange(half as int, half as int + quarter as int));
        }
        cfft(a, off + half, quarter, t);
        proof {
            assert(gviews(a@.subrange(off as int, off as int + half as int)) =~= r1);
            assert(gviews(
                a@.subrange(off as int + half as int, off as int + half as int + quarter as int),
            ) == r2);
            assert(gviews(
                a@.subrange(off as int + half as int + quarter as int, off as int + len as int),
            ) =~= p.subrange(half as int + quarter as int, len as int));
        }
        cfft(a, off + half + quarter, quarter, t);
        proof {
            assert(gviews(a@.subrange(off as int, off as int + half as int)) =~= r1);
            assert(gviews(
                a@.subrange(off as int + half as int, off as int + half as int + quarter as int),
            ) =~= r2);
            assert(gviews(
                a@.subrange(off as int + half as int + quarter as int, off as int + len as int),
            ) == r3);
            assert(cfft_spec(s) == r1 + r2 + r3);
            assert(gviews(a@.subrange(off as int, off as int + len as int)) =~= r1 + r2 + r3);
        }
    }
}

/// The size-32 transform of the block starting at `off`.
pub fn c32(a: &mut Vec<Complex>, off: usize, t: &TwiddleTables)
    requires
        t.wf(),
        off + 32 <= old(a).len(),
        forall|k: int| off <= k < off + 32 ==> ereduced(#[trigger] old(a)@[k]),
    ensures
        final(a)@.len() == old(a)@.len(),
        forall|k: int|
            0 <= k < old(a)@.len() && !(off <= k < off + 32) ==> final(a)@[k] == old(a)@[k],
        gviews(final(a)@.subrange(off as int, off as int + 32)) == cfft_spec(
            gviews(old(a)@.subrange(off as int, off as int + 32)),
        ),
        forall|k: int| off <= k < off + 32 ==> cbounded(#[trigger] final(a)@[k], 8 * P as int),
{
    cfft(a, off, 32, t);
}

/// The size-64 transform of the block starting at `off`.
pub fn c64(a: &mut Vec<Complex>, off: usize, t: &TwiddleTables)
    requires
        t.wf(),
        off + 64 <= old(a).len(),
        forall|k: int| off <= k < off + 64 ==> ereduced(#[trigger] old(a)@[k]),
    ensures
        final(a)@.len() == old(a)@.len(),
        forall|k: int|
            0 <= k < old(a)@.len() && !(off <= k < off + 64) ==> final(a)@[k] == old(a)@[k],
        gviews(final(a)@.subrange(off as int, off as int + 64)) == cfft_spec(
            gviews(old(a)@.subrange(off as int, off as int + 64)),
        ),
        forall|k: int| off <= k < off + 64 ==> cbounded(#[trigger] final(a)@[k], 8 * P as int),
{
    cfft(a, off, 64, t);
}

/// The size-128 transform of the block starting at `off`.
pub fn c128(a: &mut Vec<Complex>, off: usize, t: &TwiddleTables)
    requires
        t.wf(),
        off + 128 <= old(a).len(),
        forall|k: int| off <= k < off + 128 ==> ereduced(#[trigger] old(a)@[k]),
    ensures
        final(a)@.len() == old(a)@.len(),
        forall|k: int|
            0 <= k < old(a)@.len() && !(off <= k < off + 128) ==> final(a)@[k] == old(a)@[k],
        gviews(final(a)@.subrange(off as int, off as int + 128)) == cfft_spec(
            gviews(old(a)@.subrange(off as int, off as int + 128)),
        ),
        forall|k: int| off <= k < off + 128 ==> cbounded(#[trigger] final(a)@[k], 8 * P as int),
{
    cfft(a, off, 128, t);
}

/// The size-256 transform of the block starting at `off`.
pub fn c256(a: &mut Vec<Complex>, off: usize, t: &TwiddleTables)
    requires
        t.wf(),
        off + 256 <= old(a).len(),
        forall|k: int| off <= k < off + 256 ==> ereduced(#[trigger] old(a)@[k]),
    ensures
        final(a)@.len() == old(a)@.len(),
        forall|k: int|
            0 <= k < old(a)@.len() && !(off <= k < off + 256) ==> final(a)@[k] == old(a)@[k],
        gviews(final(a)@.subrange(off as int, off as int + 256)) == cfft_spec(
            gviews(old(a)@.subrange(off as int, off as int + 256)),
        ),
        forall|k: int| off <= k < off + 256 ==> cbounded(#[trigger] final(a)@[k], 8 * P as int),
{
    cfft(a, off, 256, t);
}

/// The size-512 transform of the block starting at `off`.
pub fn c512(a: &mut Vec<Complex>, off: usize, t: &TwiddleTables)
    requires
        t.wf(),
        off + 512 <= old(a).len(),
        forall|k: int| off <= k < off + 512 ==> ereduced(#[trigger] old(a)@[k]),
    ensures
        final(a)@.len() == old(a)@.len(),
        forall|k: int|
            0 <= k < old(a)@.len() && !(off <= k < off + 512) ==> final(a)@[k] == old(a)@[k],
        gviews(final(a)@.subrange(off as int, off as int + 512)) == cfft_spec(
            gviews(old(a)@.subrange(off as int, off as int + 512)),
        ),
        forall|k: int| off <= k < off + 512 ==> cbounded(#[trigger] final(a)@[k], 8 * P as int),
{
    cfft(a, off, 512, t);
}

/// The size-1024 transform of the block starting at `off`.
pub fn c1024(a: &mut Vec<Complex>, off: usize, t: &TwiddleTables)
    requires
        t.wf(),
        off + 1024 <= old(a).len(),
        forall|k: int| off <= k < off + 1024 ==> ereduced(#[trigger] old(a)@[k]),
    ensures
        final(a)@.len() == old(a)@.len(),
        forall|k: int|
            0 <= k < old(a)@.len() && !(off <= k < off + 1024) ==> final(a)@[k] == old(a)@[k],
        gviews(final(a)@.subrange(off as int, off as int + 1024)) == cfft_spec(
            gviews(old(a)@.subrange(off as int, off as int + 1024)),
        ),
        forall|k: int| off <= k < off + 1024 ==> cbounded(#[trigger] final(a)@[k], 8 * P as int),
{
    cfft(a, off, 1024, t);
}

/// The size-2048 transform of the block starting at `off`.
pub fn c2048(a: &mut Vec<Complex>, off: usize, t: &TwiddleTables)
    requires
        t.wf(),
        off + 2048 <= old(a).len(),
        forall|k: int| off <= k < off + 2048 ==> ereduced(#[trigger] old(a)@[k]),
    ensures
        final(a)@.len() == old(a)@.len(),
        forall|k: int|
            0 <= k < old(a)@.len() && !(off <= k < off + 2048) ==> final(a)@[k] == old(a)@[k],
        gviews(final(a)@.subrange(off as int, off as int + 2048)) == cfft_spec(
            gviews(old(a)@.subrange(off as int, off as int + 2048)),
        ),
        forall|k: int| off <= k < off + 2048 ==> cbounded(#[trigger] final(a)@[k], 8 * P as int),
{
    cfft(a, off, 2048, t);
}

/// The size-4096 transform of the block starting at `off`.
pub fn c4096(a: &mut Vec<Complex>, off: usize, t: &TwiddleTables)
    requires
        t.wf(),
        off + 4096 <= old(a).len(),
        forall|k: int| off <= k < off + 4096 ==> ereduced(#[trigger] old(a)@[k]),
    ensures
        final(a)@.len() == old(a)@.len(),
        forall|k: int|
            0 <= k < old(a)@.len() && !(off <= k < off + 4096) ==> final(a)@[k] == old(a)@[k],
        gviews(final(a)@.subrange(off as int, off as int + 4096)) == cfft_spec(
            gviews(old(a)@.subrange(off as int, off as int + 4096)),
        ),
        forall|k: int| off <= k < off + 4096 ==> cbounded(#[trigger] final(a)@[k], 8 * P as int),
{
    cfft(a, off, 4096, t);
}

/// The transform of a whole caller-owned buffer of supported length: the
/// primary entry point. The buffer is mutated in place; the result is the
/// recursive split-radix transform of the input classes, not necessarily
/// fully reduced (a caller needing canonical values applies one more
/// reduction pass).
pub fn forward_fft(a: &mut Vec<Complex>, t: &TwiddleTables)
    requires
        t.wf(),
        supported_size(old(a).len() as int),
        forall|k: int| 0 <= k < old(a)@.len() ==> ereduced(#[trigger] old(a)@[k]),
    ensures
        final(a)@.len() == old(a)@.len(),
        gviews(final(a)@) == cfft_spec(gviews(old(a)@)),
        forall|k: int| 0 <= k < old(a)@.len() ==> cbounded(#[trigger] final(a)@[k], 8 * P as int),
{
    let len = a.len();
    cfft(a, 0, len, t);
    proof {
        assert(old(a)@.subrange(0, len as int) =~= old(a)@);
        assert(final(a)@.subrange(0, len as int) =~= final(a)@);
    }
}

} // verus!
