//! Fixed-vector scenarios: hand-computable transforms of the ramp input
//! [(1,0), (2,0), ...] for the closed-form kernel sizes, and edge cases of
//! the reduction primitives and butterfly specializations.
use mersenne31_fft::complex::Complex;
use mersenne31_fft::field::{normalise_u32, reduce_wide, P, WIDE_LIFT};
use mersenne31_fft::butterfly::{transform, transformhalf, transformzero, SQRTHALF};
use mersenne31_fft::kernels::{c16, c4, c8};

const PU: i64 = P;

fn canon(v: i64) -> i64 {
    v.rem_euclid(PU)
}

fn ramp(n: usize) -> Vec<Complex> {
    (0..n).map(|i| Complex::new((i + 1) as i64, 0)).collect()
}

fn canon_out(a: &[Complex]) -> Vec<(i64, i64)> {
    a.iter().map(|z| (canon(z.re), canon(z.im))).collect()
}

#[test]
fn size4_ramp_matches_radix4_combination() {
    let mut a = ramp(4);
    c4(&mut a, 0);
    // sum, alternating sum, and the two conjugate cross terms:
    // 1+2+3+4, 1-2+3-4, (1-3) + i(2-4), (1-3) - i(2-4)
    let expected = vec![
        (10, 0),
        (PU - 2, 0),
        (PU - 2, PU - 2),
        (PU - 2, 2),
    ];
    assert_eq!(canon_out(&a), expected);
}

#[test]
fn size8_ramp_fixed_vector() {
    let mut a = ramp(8);
    c8(&mut a, 0);
    let expected = vec![
        (36, 0),
        (2147483643, 0),
        (2147483643, 2147483643),
        (2147483643, 4),
        (2147483643, 2147221499),
        (2147483643, 262140),
        (2147483643, 262148),
        (2147483643, 2147221507),
    ];
    assert_eq!(canon_out(&a), expected);
}

#[test]
fn size16_ramp_fixed_vector() {
    let mut a = ramp(16);
    c16(&mut a, 0);
    let expected = vec![
        (136, 0),
        (2147483639, 0),
        (2147483639, 2147483639),
        (2147483639, 8),
        (2147483639, 2146959351),
        (2147483639, 524280),
        (2147483639, 524296),
        (2147483639, 2146959367),
        (2147483639, 1909692714),
        (2147483639, 236742341),
        (2147483639, 660556412),
        (2147483639, 1487975795),
        (2147483639, 237790933),
        (2147483639, 1910741306),
        (2147483639, 659507852),
        (2147483639, 1486927235),
    ];
    assert_eq!(canon_out(&a), expected);
}

#[test]
fn kernels_leave_surrounding_elements_alone() {
    let mut a: Vec<Complex> = (0..12).map(|i| Complex::new(i as i64, 100 + i as i64)).collect();
    c4(&mut a, 3);
    assert_eq!((a[0].re, a[0].im), (0, 100));
    assert_eq!((a[2].re, a[2].im), (2, 102));
    assert_eq!((a[7].re, a[7].im), (7, 107));
    assert_eq!((a[11].re, a[11].im), (11, 111));
}

#[test]
fn narrow_reduce_edges() {
    assert_eq!(normalise_u32(0), 0);
    assert_eq!(normalise_u32(P), P);
    assert_eq!(normalise_u32(P + 1), 1);
    assert_eq!(normalise_u32(2 * P), P);
    assert_eq!(canon(normalise_u32(P)), 0);
}

#[test]
fn wide_reduce_edges() {
    assert_eq!(reduce_wide(0), 0);
    assert!(reduce_wide(P) == P || reduce_wide(P) == 0);
    assert_eq!(canon(reduce_wide(P)), 0);
    assert_eq!(reduce_wide(-1), P - 1);
    assert_eq!(reduce_wide(P + 5), 5);
    assert_eq!(canon(reduce_wide(-WIDE_LIFT)), 0);
    let big: i64 = 1234567890123456789;
    assert_eq!(reduce_wide(big) as i128, (big as i128).rem_euclid(PU as i128) as i128);
}

#[test]
fn sqrthalf_squares_to_one_half() {
    let s = SQRTHALF as i128;
    let half = (PU as i128 + 1) / 2;
    assert_eq!((s * s).rem_euclid(PU as i128), half);
    assert_eq!((2 * half).rem_euclid(PU as i128), 1);
}

#[test]
fn zero_point_butterfly_equals_general_at_identity() {
    let vals = [(5, 7), (11, 13), (17, 19), (23, 29)];
    let mut z: Vec<Complex> = vals.iter().map(|&(r, i)| Complex::new(r, i)).collect();
    let mut g: Vec<Complex> = z.clone();
    {
        let (a, rest) = z.split_at_mut(1);
        let (b, rest2) = rest.split_at_mut(1);
        let (c, d) = rest2.split_at_mut(1);
        transformzero(&mut a[0], &mut b[0], &mut c[0], &mut d[0]);
    }
    {
        let (a, rest) = g.split_at_mut(1);
        let (b, rest2) = rest.split_at_mut(1);
        let (c, d) = rest2.split_at_mut(1);
        transform(&mut a[0], &mut b[0], &mut c[0], &mut d[0], 1, 0);
    }
    for k in 0..4 {
        assert_eq!(canon(z[k].re), canon(g[k].re));
        assert_eq!(canon(z[k].im), canon(g[k].im));
    }
}

#[test]
fn half_point_butterfly_equals_general_at_sqrt_half() {
    let vals = [(100, 200), (300, 400), (500, 600), (700, 800)];
    let mut h: Vec<Complex> = vals.iter().map(|&(r, i)| Complex::new(r, i)).collect();
    let mut g: Vec<Complex> = h.clone();
    {
        let (a, rest) = h.split_at_mut(1);
        let (b, rest2) = rest.split_at_mut(1);
        let (c, d) = rest2.split_at_mut(1);
        transformhalf(&mut a[0], &mut b[0], &mut c[0], &mut d[0]);
    }
    {
        let (a, rest) = g.split_at_mut(1);
        let (b, rest2) = rest.split_at_mut(1);
        let (c, d) = rest2.split_at_mut(1);
        transform(&mut a[0], &mut b[0], &mut c[0], &mut d[0], SQRTHALF, SQRTHALF);
    }
    for k in 0..4 {
        assert_eq!(canon(h[k].re), canon(g[k].re));
        assert_eq!(canon(h[k].im), canon(g[k].im));
    }
}
