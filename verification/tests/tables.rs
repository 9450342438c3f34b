//! The twiddle tables: lengths, balanced representation, and agreement of
//! each entry with the corresponding power of the block's root.
use mersenne31_fft::pass::TwiddleTables;

const P: u64 = (1 << 31) - 1;
const BAL: i64 = ((P - 1) / 2) as i64;

fn mm(a: u64, b: u64) -> u64 {
    ((a as u128 * b as u128) % P as u128) as u64
}

fn cmul(x: (u64, u64), y: (u64, u64)) -> (u64, u64) {
    ((mm(x.0, y.0) + P - mm(x.1, y.1)) % P, (mm(x.0, y.1) + mm(x.1, y.0)) % P)
}

fn canon(v: i64) -> u64 {
    v.rem_euclid(P as i64) as u64
}

#[test]
fn tables_have_expected_lengths() {
    let t = TwiddleTables::new();
    assert_eq!(t.t16.len(), 3);
    assert_eq!(t.t32.len(), 7);
    assert_eq!(t.t64.len(), 15);
    assert_eq!(t.t128.len(), 31);
    assert_eq!(t.t256.len(), 63);
    assert_eq!(t.t512.len(), 127);
    assert_eq!(t.t1024.len(), 255);
    assert_eq!(t.t2048.len(), 511);
    assert_eq!(t.t4096.len(), 1023);
}

#[test]
fn tables_are_balanced_and_hold_root_powers() {
    let t = TwiddleTables::new();
    let sized: Vec<(&Vec<mersenne31_fft::complex::Complex>, (u64, u64))> = vec![
        (&t.t16, (590768354, 1168891274)),
        (&t.t32, (1179735656, 906276279)),
        (&t.t64, (1567857810, 1690787918)),
        (&t.t128, (1774253895, 838195206)),
        (&t.t256, (736262640, 593814437)),
        (&t.t512, (1819216575, 484667533)),
        (&t.t1024, (1323191254, 210509587)),
        (&t.t2048, (605622498, 183251431)),
        (&t.t4096, (343674985, 1645696654)),
    ];
    for (table, root) in sized {
        let mut expect = root;
        for entry in table.iter() {
            assert!(entry.re.abs() <= BAL && entry.im.abs() <= BAL);
            assert_eq!((canon(entry.re), canon(entry.im)), expect);
            expect = cmul(expect, root);
        }
    }
}

#[test]
fn size8_twiddle_is_square_of_size16_root() {
    let t = TwiddleTables::new();
    let z16 = (canon(t.t16[0].re), canon(t.t16[0].im));
    assert_eq!(cmul(z16, z16), (32768, 32768));
}
