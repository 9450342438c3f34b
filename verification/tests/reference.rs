//! Reference agreement: for small sizes the kernel output matches a naive
//! quadratic direct modular transform with explicit root-of-unity powers,
//! component-wise after full reduction. The kernel family's internal layout
//! is recovered by probing with a delta input, as the design prescribes.
use mersenne31_fft::complex::Complex;
use mersenne31_fft::ladder::forward_fft;
use mersenne31_fft::pass::TwiddleTables;
use std::collections::HashMap;

const P: u64 = (1 << 31) - 1;

fn mm(a: u64, b: u64) -> u64 {
    ((a as u128 * b as u128) % P as u128) as u64
}

fn cadd(x: (u64, u64), y: (u64, u64)) -> (u64, u64) {
    ((x.0 + y.0) % P, (x.1 + y.1) % P)
}

fn cmul(x: (u64, u64), y: (u64, u64)) -> (u64, u64) {
    ((mm(x.0, y.0) + P - mm(x.1, y.1)) % P, (mm(x.0, y.1) + mm(x.1, y.0)) % P)
}

fn canon(z: &Complex) -> (u64, u64) {
    (z.re.rem_euclid(P as i64) as u64, z.im.rem_euclid(P as i64) as u64)
}

/// The root of unity of order `n` that the engine's twiddles are built from.
fn zeta(n: usize) -> (u64, u64) {
    match n {
        4 => (0, 1),
        8 => (32768, 32768),
        16 => (590768354, 1168891274),
        32 => (1179735656, 906276279),
        64 => (1567857810, 1690787918),
        128 => (1774253895, 838195206),
        256 => (736262640, 593814437),
        512 => (1819216575, 484667533),
        1024 => (1323191254, 210509587),
        2048 => (605622498, 183251431),
        4096 => (343674985, 1645696654),
        _ => panic!("unsupported size"),
    }
}

fn root_powers(n: usize) -> Vec<(u64, u64)> {
    let z = zeta(n);
    let mut pows = Vec::with_capacity(n);
    let mut cur = (1u64, 0u64);
    for _ in 0..n {
        pows.push(cur);
        cur = cmul(cur, z);
    }
    pows
}

/// Recovers which frequency each output position holds by transforming the
/// delta input at index one, whose transform at frequency `k` is the `k`-th
/// root power.
fn probe_layout(n: usize, t: &TwiddleTables) -> Vec<usize> {
    let mut a = vec![Complex::new(0, 0); n];
    a[1] = Complex::new(1, 0);
    forward_fft(&mut a, t);
    let pows = root_powers(n);
    let lookup: HashMap<(u64, u64), usize> = pows.iter().enumerate().map(|(k, &v)| (v, k)).collect();
    let mut seen = vec![false; n];
    let perm: Vec<usize> = a
        .iter()
        .map(|z| {
            let k = *lookup.get(&canon(z)).expect("output is not a root power");
            assert!(!seen[k], "duplicate frequency in layout");
            seen[k] = true;
            k
        })
        .collect();
    perm
}

fn lcg(state: &mut u64) -> u64 {
    *state = state.wrapping_mul(6364136223846793005).wrapping_add(1442695040888963407);
    (*state >> 33) % P
}

fn naive_dft(x: &[(u64, u64)], n: usize) -> Vec<(u64, u64)> {
    let pows = root_powers(n);
    (0..n)
        .map(|k| {
            let mut acc = (0u64, 0u64);
            for j in 0..n {
                acc = cadd(acc, cmul(x[j], pows[(j * k) % n]));
            }
            acc
        })
        .collect()
}

fn check_reference(n: usize, seed: u64) {
    let t = TwiddleTables::new();
    let perm = probe_layout(n, &t);
    let mut state = seed;
    let x: Vec<(u64, u64)> = (0..n).map(|_| (lcg(&mut state), lcg(&mut state))).collect();
    let reference = naive_dft(&x, n);
    let mut a: Vec<Complex> = x.iter().map(|&(r, i)| Complex::new(r as i64, i as i64)).collect();
    forward_fft(&mut a, &t);
    for p in 0..n {
        assert_eq!(canon(&a[p]), reference[perm[p]], "size {} position {}", n, p);
    }
}

#[test]
fn reference_agreement_size4() {
    check_reference(4, 11);
    check_reference(4, 12);
    check_reference(4, 13);
}

#[test]
fn reference_agreement_size8() {
    check_reference(8, 21);
    check_reference(8, 22);
}

#[test]
fn reference_agreement_size16() {
    check_reference(16, 31);
    check_reference(16, 32);
}

#[test]
fn reference_agreement_size32() {
    check_reference(32, 41);
    check_reference(32, 42);
}

#[test]
fn reference_agreement_size64() {
    check_reference(64, 51);
}
