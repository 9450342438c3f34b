//! Round trip: for every supported size, applying the forward kernel and
//! then the matching inverse-direction transform — the naive inverse over
//! the probed layout — scaled by the inverse of the size, reproduces the
//! input exactly.
use mersenne31_fft::complex::Complex;
use mersenne31_fft::ladder::forward_fft;
use mersenne31_fft::pass::TwiddleTables;
use std::collections::HashMap;

const P: u64 = (1 << 31) - 1;

fn mm(a: u64, b: u64) -> u64 {
    ((a as u128 * b as u128) % P as u128) as u64
}

fn cadd(x: (u64, u64), y: (u64, u64)) -> (u64, u64) {
    ((x.0 + y.0) % P, (x.1 + y.1) % P)
}

fn cmul(x: (u64, u64), y: (u64, u64)) -> (u64, u64) {
    ((mm(x.0, y.0) + P - mm(x.1, y.1)) % P, (mm(x.0, y.1) + mm(x.1, y.0)) % P)
}

fn canon(z: &Complex) -> (u64, u64) {
    (z.re.rem_euclid(P as i64) as u64, z.im.rem_euclid(P as i64) as u64)
}

fn modpow(mut b: u64, mut e: u64) -> u64 {
    let mut r = 1u64;
    while e > 0 {
        if e & 1 == 1 {
            r = mm(r, b);
        }
        b = mm(b, b);
        e >>= 1;
    }
    r
}

fn zeta(n: usize) -> (u64, u64) {
    match n {
        4 => (0, 1),
        8 => (32768, 32768),
        16 => (590768354, 1168891274),
        32 => (1179735656, 906276279),
        64 => (1567857810, 1690787918),
        128 => (1774253895, 838195206),
        256 => (736262640, 593814437),
        512 => (1819216575, 484667533),
        1024 => (1323191254, 210509587),
        2048 => (605622498, 183251431),
        4096 => (343674985, 1645696654),
        _ => panic!("unsupported size"),
    }
}

fn root_powers(n: usize) -> Vec<(u64, u64)> {
    let z = zeta(n);
    let mut pows = Vec::with_capacity(n);
    let mut cur = (1u64, 0u64);
    for _ in 0..n {
        pows.push(cur);
        cur = cmul(cur, z);
    }
    pows
}

fn probe_layout(n: usize, t: &TwiddleTables) -> Vec<usize> {
    let mut a = vec![Complex::new(0, 0); n];
    a[1] = Complex::new(1, 0);
    forward_fft(&mut a, t);
    let pows = root_powers(n);
    let lookup: HashMap<(u64, u64), usize> = pows.iter().enumerate().map(|(k, &v)| (v, k)).collect();
    let mut seen = vec![false; n];
    a.iter()
        .map(|z| {
            let k = *lookup.get(&canon(z)).expect("output is not a root power");
            assert!(!seen[k], "duplicate frequency in layout");
            seen[k] = true;
            k
        })
        .collect()
}

fn lcg(state: &mut u64) -> u64 {
    *state = state.wrapping_mul(6364136223846793005).wrapping_add(1442695040888963407);
    (*state >> 33) % P
}

/// Naive inverse transform: the conjugate root is the inverse root since the
/// engine's roots have unit norm, and the result is scaled by `n^{-1}`.
fn naive_inverse(f: &[(u64, u64)], n: usize) -> Vec<(u64, u64)> {
    let pows: Vec<(u64, u64)> = root_powers(n).iter().map(|&(r, i)| (r, (P - i) % P)).collect();
    let ninv = modpow(n as u64 % P, P - 2);
    (0..n)
        .map(|j| {
            let mut acc = (0u64, 0u64);
            for k in 0..n {
                acc = cadd(acc, cmul(f[k], pows[(j * k) % n]));
            }
            (mm(acc.0, ninv), mm(acc.1, ninv))
        })
        .collect()
}

fn check_round_trip(n: usize, seed: u64) {
    let t = TwiddleTables::new();
    let perm = probe_layout(n, &t);
    let mut state = seed;
    let x: Vec<(u64, u64)> = (0..n).map(|_| (lcg(&mut state), lcg(&mut state))).collect();
    let mut a: Vec<Complex> = x.iter().map(|&(r, i)| Complex::new(r as i64, i as i64)).collect();
    forward_fft(&mut a, &t);
    let mut by_freq = vec![(0u64, 0u64); n];
    for p in 0..n {
        by_freq[perm[p]] = canon(&a[p]);
    }
    let back = naive_inverse(&by_freq, n);
    assert_eq!(back, x, "round trip failed for size {}", n);
}

#[test]
fn round_trip_size4() {
    check_round_trip(4, 101);
}

#[test]
fn round_trip_size8() {
    check_round_trip(8, 102);
}

#[test]
fn round_trip_size16() {
    check_round_trip(16, 103);
}

#[test]
fn round_trip_size32() {
    check_round_trip(32, 104);
}

#[test]
fn round_trip_size64() {
    check_round_trip(64, 105);
}

#[test]
fn round_trip_size128() {
    check_round_trip(128, 106);
}

#[test]
fn round_trip_size256() {
    check_round_trip(256, 107);
}

#[test]
fn round_trip_size512() {
    check_round_trip(512, 108);
}

#[test]
fn round_trip_size1024() {
    check_round_trip(1024, 109);
}

#[test]
fn round_trip_size2048() {
    check_round_trip(2048, 110);
}

#[test]
fn round_trip_size4096() {
    check_round_trip(4096, 111);
}
