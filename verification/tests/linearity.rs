//! Linearity scenarios: the transform of a scalar combination of two buffers
//! equals the same combination of the two transforms, modulo the prime.
use mersenne31_fft::complex::Complex;
use mersenne31_fft::ladder::forward_fft;
use mersenne31_fft::pass::TwiddleTables;

const P: u64 = (1 << 31) - 1;

fn mm(a: u64, b: u64) -> u64 {
    ((a as u128 * b as u128) % P as u128) as u64
}

fn cadd(x: (u64, u64), y: (u64, u64)) -> (u64, u64) {
    ((x.0 + y.0) % P, (x.1 + y.1) % P)
}

fn cmul(x: (u64, u64), y: (u64, u64)) -> (u64, u64) {
    ((mm(x.0, y.0) + P - mm(x.1, y.1)) % P, (mm(x.0, y.1) + mm(x.1, y.0)) % P)
}

fn canon(z: &Complex) -> (u64, u64) {
    (z.re.rem_euclid(P as i64) as u64, z.im.rem_euclid(P as i64) as u64)
}

fn lcg(state: &mut u64) -> u64 {
    *state = state.wrapping_mul(6364136223846793005).wrapping_add(1442695040888963407);
    (*state >> 33) % P
}

fn check_linearity(n: usize, seed: u64, a_scal: (u64, u64), b_scal: (u64, u64)) {
    let t = TwiddleTables::new();
    let mut state = seed;
    let x: Vec<(u64, u64)> = (0..n).map(|_| (lcg(&mut state), lcg(&mut state))).collect();
    let y: Vec<(u64, u64)> = (0..n).map(|_| (lcg(&mut state), lcg(&mut state))).collect();
    // combo = a*x + b*y, componentwise in the complex field
    let combo: Vec<(u64, u64)> = (0..n)
        .map(|i| cadd(cmul(a_scal, x[i]), cmul(b_scal, y[i])))
        .collect();
    let mut tx: Vec<Complex> = x.iter().map(|&(r, i)| Complex::new(r as i64, i as i64)).collect();
    let mut ty: Vec<Complex> = y.iter().map(|&(r, i)| Complex::new(r as i64, i as i64)).collect();
    let mut tc: Vec<Complex> =
        combo.iter().map(|&(r, i)| Complex::new(r as i64, i as i64)).collect();
    forward_fft(&mut tx, &t);
    forward_fft(&mut ty, &t);
    forward_fft(&mut tc, &t);
    for p in 0..n {
        let lhs = canon(&tc[p]);
        let rhs = cadd(cmul(a_scal, canon(&tx[p])), cmul(b_scal, canon(&ty[p])));
        assert_eq!(lhs, rhs, "linearity failed at size {} position {}", n, p);
    }
}

#[test]
fn linearity_size8() {
    check_linearity(8, 7, (3, 0), (5, 0));
}

#[test]
fn linearity_size8_complex_scalars() {
    check_linearity(8, 8, (123456789, 42), (7, 2000000000));
}

#[test]
fn linearity_size32() {
    check_linearity(32, 9, (1, 1), (P - 1, 0));
}

#[test]
fn linearity_size256() {
    check_linearity(256, 10, (999, 1000), (1001, 1002));
}
