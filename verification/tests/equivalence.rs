//! Closed-form equivalence: the unrolled size-16 kernel produces the same
//! classes as the composition built from the general pass operator and the
//! smaller kernels on the same input.
use mersenne31_fft::complex::Complex;
use mersenne31_fft::kernels::{c16, c4, c8};
use mersenne31_fft::pass::{cpass, TwiddleTables};

const P: u64 = (1 << 31) - 1;

fn canon(z: &Complex) -> (u64, u64) {
    (z.re.rem_euclid(P as i64) as u64, z.im.rem_euclid(P as i64) as u64)
}

fn lcg(state: &mut u64) -> u64 {
    *state = state.wrapping_mul(6364136223846793005).wrapping_add(1442695040888963407);
    (*state >> 33) % P
}

fn random_buffer(n: usize, seed: u64) -> Vec<Complex> {
    let mut state = seed;
    (0..n)
        .map(|_| {
            let re = lcg(&mut state) as i64;
            let im = lcg(&mut state) as i64;
            Complex::new(re, im)
        })
        .collect()
}

#[test]
fn size16_closed_form_matches_pass_composition() {
    let t = TwiddleTables::new();
    for seed in [1u64, 2, 3] {
        let mut unrolled = random_buffer(16, seed);
        let mut composed = unrolled.clone();
        c16(&mut unrolled, 0);
        cpass(&mut composed, 0, 16, &t.t16);
        c8(&mut composed, 0);
        c4(&mut composed, 8);
        c4(&mut composed, 12);
        for p in 0..16 {
            assert_eq!(
                canon(&unrolled[p]),
                canon(&composed[p]),
                "seed {} position {}",
                seed,
                p
            );
        }
    }
}

#[test]
fn size16_closed_form_matches_pass_composition_on_ramp() {
    let t = TwiddleTables::new();
    let mut unrolled: Vec<Complex> = (0..16).map(|i| Complex::new(i + 1, 0)).collect();
    let mut composed = unrolled.clone();
    c16(&mut unrolled, 0);
    cpass(&mut composed, 0, 16, &t.t16);
    c8(&mut composed, 0);
    c4(&mut composed, 8);
    c4(&mut composed, 12);
    for p in 0..16 {
        assert_eq!(canon(&unrolled[p]), canon(&composed[p]), "position {}", p);
    }
}
