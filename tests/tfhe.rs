use rs_tfhe::blind_rotate::{blind_rotate, rotate, rotation_of};
use rs_tfhe::gate::{gen_keyswitch_key, homnand, identity_key_switch};
use rs_tfhe::tlwe::{gen_s, TLWE};
use rs_tfhe::torus::{int_to_fix, Torus01, Torus01Poly, Torus01Vec};
use rs_tfhe::trgsw::{gadget_digit, gen_bootstrapping_key, offset_of, TRGSW};
use rs_tfhe::trlwe::TRLWE;
use rustfft::num_complex::Complex;
use rustfft::FftPlanner;

const SMALL_N: usize = 16;
const BIG_N: usize = 256;
const BIG_N_BIT: u32 = 8;
const MU_BIT: u32 = 3;
const GATE_MU_BIT: u32 = 2;
const L: usize = 3;
const BGBIT: u32 = 6;
const BG: u32 = 64;
const T: usize = 8;
const BASEBIT: u32 = 2;

fn zero_noise_polys(count: usize) -> Vec<Torus01Poly> {
    (0..count).map(|_| Torus01Poly::new_with_fix(vec![0; BIG_N])).collect()
}

fn zero_poly() -> Torus01Poly {
    Torus01Poly::new_with_fix(vec![0; BIG_N])
}

fn keys() -> (Vec<i64>, Vec<i64>, Vec<TRGSW>, Vec<TLWE>) {
    let s = gen_s(SMALL_N);
    let big_s = gen_s(BIG_N);
    let bk = gen_bootstrapping_key(&s, &big_s, L, BG, BGBIT, &zero_noise_polys(SMALL_N * 2 * L));
    let ks = gen_keyswitch_key(&big_s, &s, T, BASEBIT, &vec![Torus01::new_with_fix(0); BIG_N * T]);
    (s, big_s, bk, ks)
}

fn trgsw_of(bit: u8, big_s: &Vec<i64>) -> TRGSW {
    let zeros: Vec<TRLWE> = (0..2 * L)
        .map(|_| TRLWE::encrypt_torus(&zero_poly(), big_s, &zero_poly()))
        .collect();
    TRGSW::new_with_bin(L, BG, BGBIT, bit, zeros)
}

fn bits_pattern() -> Vec<u32> {
    (0..BIG_N).map(|k| ((k * 7 + 3) % 5 % 2) as u32).collect()
}

#[test]
fn torus_add_wraps() {
    let x = Torus01::new_with_fix(0xffff_fff0);
    let y = Torus01::new_with_fix(0x20);
    assert_eq!(x.add(y).fix, 0x10);
}

#[test]
fn torus_sub_wraps() {
    let x = Torus01::new_with_fix(0x10);
    let y = Torus01::new_with_fix(0x20);
    assert_eq!(x.sub(y).fix, 0xffff_fff0);
}

#[test]
fn torus_neg_of_zero_is_zero() {
    assert_eq!(Torus01::new_with_fix(0).neg().fix, 0);
    assert_eq!(Torus01::new_with_fix(1).neg().fix, 0xffff_ffff);
}

#[test]
fn torus_mul_by_negative() {
    let x = Torus01::new_with_fix(0x4000_0000);
    assert_eq!(x.mul(-1).fix, 0xc000_0000);
    assert_eq!(x.mul(3).fix, 0xc000_0000);
    assert_eq!(x.mul(4).fix, 0);
    assert_eq!(int_to_fix(-1), 0xffff_ffff);
    assert_eq!(int_to_fix(-0x1_0000_0001), 0xffff_ffff);
}

#[test]
fn torus_assign_ops() {
    let mut x = Torus01::new_with_fix(5);
    x.add_assign(Torus01::new_with_fix(7));
    assert_eq!(x.fix, 12);
    x.sub_assign(Torus01::new_with_fix(13));
    assert_eq!(x.fix, 0xffff_ffff);
}

#[test]
fn vector_ops_and_dot() {
    let mut v = Torus01Vec::new_with_fix(vec![1, 2, 3]);
    let w = Torus01Vec::new_with_torus(vec![Torus01::new_with_fix(10); 3]);
    v.add_assign(&w);
    assert_eq!(v.coef.iter().map(|t| t.fix).collect::<Vec<_>>(), vec![11, 12, 13]);
    v.sub_assign(&w);
    assert_eq!(v.coef.iter().map(|t| t.fix).collect::<Vec<_>>(), vec![1, 2, 3]);
    assert_eq!(v.dot(&vec![1, 0, -1]).fix, 0xffff_fffe);
    assert_eq!(v.scale(2).coef.iter().map(|t| t.fix).collect::<Vec<_>>(), vec![2, 4, 6]);
    assert_eq!(v.neg().coef[0].fix, 0xffff_ffff);
}

#[test]
fn poly_mul_negacyclic_wrap() {
    // X^3 * X = X^4 = -1 in T[X]/(X^4 + 1)
    let p = Torus01Poly::new_with_fix(vec![0, 0, 0, 5]);
    let r = p.mul(&vec![0, 1, 0, 0]);
    assert_eq!(r.coef.iter().map(|t| t.fix).collect::<Vec<_>>(), vec![0u32.wrapping_sub(5), 0, 0, 0]);
}

#[test]
fn poly_mul_matches_direct_convolution() {
    let n = 8;
    let a: Vec<u32> = (0..n).map(|i| (i as u32).wrapping_mul(0x9e37_79b9)).collect();
    let b: Vec<i64> = (0..n).map(|i| (i as i64 % 5) - 2).collect();
    let p = Torus01Poly::new_with_fix(a.clone());
    let r = p.mul(&b);
    let mut full = vec![0i128; 2 * n];
    for i in 0..n {
        for j in 0..n {
            full[i + j] += a[i] as i128 * b[j] as i128;
        }
    }
    for k in 0..n {
        let v = (full[k] - full[k + n]).rem_euclid(1i128 << 32) as u32;
        assert_eq!(r.coef[k].fix, v);
    }
}

#[test]
fn poly_add_sub() {
    let p = Torus01Poly::new_with_fix(vec![1, 2]);
    let q = Torus01Poly::new_with_fix(vec![3, 0xffff_ffff]);
    assert_eq!(p.add(&q).coef.iter().map(|t| t.fix).collect::<Vec<_>>(), vec![4, 1]);
    assert_eq!(p.sub(&q).coef.iter().map(|t| t.fix).collect::<Vec<_>>(), vec![0xffff_fffe, 3]);
}

#[test]
fn tlwe_round_trip_both_bits() {
    let s = gen_s(SMALL_N);
    for m in 0..2u32 {
        for e in [0u32, 0x0100_0000, 0xff00_0000] {
            let c = TLWE::encrypt(m, &s, Torus01::new_with_fix(e), MU_BIT);
            assert_eq!(c.decrypt(&s, MU_BIT), m);
        }
    }
}

#[test]
fn tlwe_encrypt_with_exact_body() {
    let s = vec![1, 0, 1];
    let a = Torus01Vec::new_with_fix(vec![10, 20, 30]);
    let c = TLWE::encrypt_with(1, &s, a, Torus01::new_with_fix(2), MU_BIT);
    assert_eq!(c.b.fix, 40 + 0x2000_0000 + 2);
    let a = Torus01Vec::new_with_fix(vec![10, 20, 30]);
    let c = TLWE::encrypt_with(0, &s, a, Torus01::new_with_fix(0), MU_BIT);
    assert_eq!(c.b.fix, 40);
}

#[test]
fn tlwe_sum_adds_messages() {
    let s = gen_s(SMALL_N);
    let zero = Torus01::new_with_fix(0);
    let one = TLWE::encrypt(1, &s, zero, MU_BIT);
    let nought = TLWE::encrypt(0, &s, zero, MU_BIT);
    assert_eq!(one.add(&nought).decrypt(&s, MU_BIT), 1);
    assert_eq!(one.add(&one).decrypt(&s, MU_BIT), 2);
    assert_eq!(nought.add(&nought).decrypt(&s, MU_BIT), 0);
}

#[test]
fn tlwe_sum_is_xor_at_half_scale() {
    let s = gen_s(SMALL_N);
    let zero = Torus01::new_with_fix(0);
    for m1 in 0..2u32 {
        for m2 in 0..2u32 {
            let c1 = TLWE::encrypt(m1, &s, Torus01::new_with_fix(0x0100_0000), 1);
            let c2 = TLWE::encrypt(m2, &s, zero, 1);
            assert_eq!(c1.add(&c2).decrypt(&s, 1), m1 ^ m2);
        }
    }
}

#[test]
fn tlwe_decrypt_rounds_to_nearest_multiple() {
    let s = vec![0i64; 2];
    let c = |b: u32| TLWE { a: Torus01Vec::new_with_fix(vec![7, 9]), b: Torus01::new_with_fix(b) };
    assert_eq!(c(0x0fff_ffff).decrypt(&s, MU_BIT), 0);
    assert_eq!(c(0x1000_0000).decrypt(&s, MU_BIT), 1);
    assert_eq!(c(0x2fff_ffff).decrypt(&s, MU_BIT), 1);
    assert_eq!(c(0x3000_0000).decrypt(&s, MU_BIT), 2);
    assert_eq!(c(0xf000_0000).decrypt(&s, MU_BIT), 0);
    assert_eq!(c(0xefff_ffff).decrypt(&s, MU_BIT), 7);
}

#[test]
fn trlwe_round_trip() {
    let big_s = gen_s(BIG_N);
    let m = bits_pattern();
    let c = TRLWE::encrypt(&m, &big_s, &zero_poly(), MU_BIT);
    assert_eq!(c.decrypt(&big_s, MU_BIT), m);
}

#[test]
fn trlwe_obvious_sample_decrypts_to_body() {
    let big_s = gen_s(BIG_N);
    let mut b = vec![0x2000_0000u32; BIG_N];
    b[1] = 0;
    let c = TRLWE::new_obvious_with_fix(b);
    let d = c.decrypt(&big_s, MU_BIT);
    assert_eq!(d[0], 1);
    assert_eq!(d[1], 0);
}

#[test]
fn gadget_digits_are_balanced_and_rebuild_the_value() {
    let off = offset_of(L, BGBIT);
    for x in [0u32, 1, 0x1234_5678, 0x8000_0000, 0xffff_ffff, 0x7fff_ffff] {
        let mut sum: i64 = 0;
        for j in 0..L {
            let d = gadget_digit(x, j, L, BGBIT, off);
            assert!(-(BG as i64) / 2 <= d && d < (BG as i64) / 2);
            sum += d << (32 - (j as u32 + 1) * BGBIT);
        }
        let rebuilt = (sum as u32).wrapping_sub(x) as i32;
        assert!(rebuilt.abs() <= 1 << (32 - L as u32 * BGBIT - 1));
    }
}

#[test]
fn cmux_selects_by_bit() {
    let big_s = gen_s(BIG_N);
    let mz = bits_pattern();
    let mo: Vec<u32> = mz.iter().map(|b| 1 - b).collect();
    let z = TRLWE::encrypt(&mz, &big_s, &zero_poly(), MU_BIT);
    let o = TRLWE::encrypt(&mo, &big_s, &zero_poly(), MU_BIT);
    assert_eq!(trgsw_of(0, &big_s).cmux(&z, &o).decrypt(&big_s, MU_BIT), mz);
    assert_eq!(trgsw_of(1, &big_s).cmux(&z, &o).decrypt(&big_s, MU_BIT), mo);
}

#[test]
fn external_product_by_one_keeps_message() {
    let big_s = gen_s(BIG_N);
    let m = bits_pattern();
    let c = TRLWE::encrypt(&m, &big_s, &zero_poly(), MU_BIT);
    assert_eq!(trgsw_of(1, &big_s).external_product(&c).decrypt(&big_s, MU_BIT), m);
}

#[test]
fn rotation_rounds_to_nearest() {
    // N = 256: one step is 2^23.
    assert_eq!(rotation_of(0, BIG_N_BIT), 0);
    assert_eq!(rotation_of((1 << 22) - 1, BIG_N_BIT), 0);
    assert_eq!(rotation_of(1 << 22, BIG_N_BIT), 1);
    assert_eq!(rotation_of(0x8000_0000, BIG_N_BIT), 256);
    assert_eq!(rotation_of(0xffff_ffff, BIG_N_BIT), 0);
    assert_eq!(rotation_of(0xffc0_0000, BIG_N_BIT), 0);
    assert_eq!(rotation_of(0xffbf_ffff, BIG_N_BIT), 511);
}

#[test]
fn rotate_is_negacyclic() {
    let p = Torus01Poly::new_with_fix(vec![1, 2, 3, 4]);
    let f = |q: Torus01Poly| q.coef.iter().map(|t| t.fix as i64 - if t.fix > 100 { 1 << 32 } else { 0 }).collect::<Vec<_>>();
    assert_eq!(f(rotate(&p, 0)), vec![1, 2, 3, 4]);
    assert_eq!(f(rotate(&p, 1)), vec![-4, 1, 2, 3]);
    assert_eq!(f(rotate(&p, 4)), vec![-1, -2, -3, -4]);
    assert_eq!(f(rotate(&p, 7)), vec![2, 3, 4, -1]);
}

#[test]
fn blind_rotate_keeps_the_bit() {
    // Coefficient 0 reads +delta for a phase within 1/4 of zero, which both
    // encoded bits are; the step test polynomial rotated by the phase leaves
    // half of the coefficients at +delta for 0 and a quarter for 1 (up to the
    // rounding of the mask).
    let (s, big_s, bk, _) = keys();
    for (m, want) in [(0u32, 128usize), (1, 64)] {
        let c = TLWE::encrypt(m, &s, Torus01::new_with_fix(0), MU_BIT);
        let r = blind_rotate(&c, &bk, MU_BIT, BIG_N as u32, BIG_N_BIT);
        let d = r.decrypt(&big_s, MU_BIT);
        assert_eq!(d[0], 1);
        let ones = d.iter().filter(|&&b| b == 1).count();
        assert!(ones + 8 >= want && ones <= want + 8, "m = {}, ones = {}", m, ones);
        assert!(d.iter().all(|&b| b == 1 || b == 7));
    }
}

#[test]
fn blind_rotate_without_key_bits_rotates_by_the_body() {
    let c = |b: u32| TLWE { a: Torus01Vec::new_with_fix(vec![]), b: Torus01::new_with_fix(b) };
    let fixes = |r: TRLWE| (r.a.coef.iter().map(|t| t.fix).collect::<Vec<_>>(), r.b.coef.iter().map(|t| t.fix).collect::<Vec<_>>());
    let bk: Vec<TRGSW> = vec![];
    for x in [0u32, 0x0fff_ffff, 0xf000_0000] {
        assert_eq!(fixes(blind_rotate(&c(x), &bk, 3, 4, 2)), (vec![0; 4], vec![0x2000_0000, 0x2000_0000, 0xdfff_ffff, 0xdfff_ffff]));
    }
    for x in [0x1000_0000u32, 0x2000_0000, 0x2fff_ffff] {
        assert_eq!(fixes(blind_rotate(&c(x), &bk, 3, 4, 2)).1, vec![0x2000_0000, 0xdfff_ffff, 0xdfff_ffff, 0xe000_0000]);
    }
    assert_eq!(fixes(blind_rotate(&c(0x8000_0000), &bk, 3, 4, 2)).1, vec![0xe000_0000, 0xe000_0000, 0x2000_0001, 0x2000_0001]);
    assert_eq!(fixes(blind_rotate(&c(0xefff_ffff), &bk, 3, 4, 2)).1, vec![0x2000_0001, 0x2000_0000, 0x2000_0000, 0xdfff_ffff]);
}

#[test]
fn blind_rotate_of_trivial_sample_is_exact() {
    // A sample with a zero mask rotates by its body alone.
    let (_, big_s, bk, _) = keys();
    let c = TLWE { a: Torus01Vec::new_with_fix(vec![0; SMALL_N]), b: Torus01::new_with_fix(0x2000_0000) };
    let r = blind_rotate(&c, &bk, MU_BIT, BIG_N as u32, BIG_N_BIT);
    let d = r.decrypt(&big_s, MU_BIT);
    let ones = d.iter().filter(|&&b| b == 1).count();
    assert_eq!(ones, 64);
    assert!(d[..64].iter().all(|&b| b == 1));
}

#[test]
fn key_switch_keeps_the_bit() {
    let (s, big_s, _, ks) = keys();
    for m in 0..2u32 {
        let msg: Vec<u32> = vec![m; BIG_N];
        let c = TRLWE::encrypt(&msg, &big_s, &zero_poly(), MU_BIT);
        let ext = c.sample_extract();
        assert_eq!(ext.decrypt(&big_s, MU_BIT), m);
        let sw = identity_key_switch(&ext, &ks, T, BASEBIT, SMALL_N);
        assert_eq!(sw.a.coef.len(), SMALL_N);
        assert_eq!(sw.decrypt(&s, MU_BIT), m);
    }
}

#[test]
fn homnand_truth_table() {
    let (s, _, bk, ks) = keys();
    let zero = Torus01::new_with_fix(0);
    for (b1, b2, want) in [(0u32, 0u32, 1u32), (0, 1, 1), (1, 0, 1), (1, 1, 0)] {
        let c1 = TLWE::encrypt(b1, &s, zero, GATE_MU_BIT);
        let c2 = TLWE::encrypt(b2, &s, zero, GATE_MU_BIT);
        let r = homnand(&c1, &c2, &bk, &ks, GATE_MU_BIT, BIG_N as u32, BIG_N_BIT, T, BASEBIT);
        assert_eq!(r.decrypt(&s, GATE_MU_BIT), want, "nand({}, {})", b1, b2);
    }
}

#[test]
fn homnand_false_true_is_true() {
    let (s, _, bk, ks) = keys();
    let zero = Torus01::new_with_fix(0);
    let c1 = TLWE::encrypt(0, &s, zero, GATE_MU_BIT);
    let c2 = TLWE::encrypt(1, &s, zero, GATE_MU_BIT);
    let r = homnand(&c1, &c2, &bk, &ks, GATE_MU_BIT, BIG_N as u32, BIG_N_BIT, T, BASEBIT);
    assert_eq!(r.decrypt(&s, GATE_MU_BIT), 1);
    let c1 = TLWE::encrypt(1, &s, zero, GATE_MU_BIT);
    let r = homnand(&c1, &c2, &bk, &ks, GATE_MU_BIT, BIG_N as u32, BIG_N_BIT, T, BASEBIT);
    assert_eq!(r.decrypt(&s, GATE_MU_BIT), 0);
}

#[test]
fn homnand_output_feeds_another_gate() {
    let (s, _, bk, ks) = keys();
    let zero = Torus01::new_with_fix(0);
    let c1 = TLWE::encrypt(1, &s, zero, GATE_MU_BIT);
    let c2 = TLWE::encrypt(1, &s, zero, GATE_MU_BIT);
    let x = homnand(&c1, &c2, &bk, &ks, GATE_MU_BIT, BIG_N as u32, BIG_N_BIT, T, BASEBIT);
    let y = homnand(&x, &x, &bk, &ks, GATE_MU_BIT, BIG_N as u32, BIG_N_BIT, T, BASEBIT);
    assert_eq!(y.decrypt(&s, GATE_MU_BIT), 1);
}

fn fft_mul(p: &Torus01Poly, rhs: &Vec<i64>) -> Vec<u32> {
    let len = p.coef.len();
    let twist = |i: usize| Complex::from_polar(1.0, -std::f64::consts::PI * i as f64 / len as f64);
    let mut left: Vec<Complex<f64>> = p.coef.iter().enumerate().map(|(i, t)| twist(i) * t.fix as f64).collect();
    let mut right: Vec<Complex<f64>> = rhs.iter().enumerate().map(|(i, &r)| twist(i) * r as f64).collect();
    let mut planner = FftPlanner::<f64>::new();
    let forward = planner.plan_fft_forward(len);
    forward.process(&mut left);
    forward.process(&mut right);
    let mut prod: Vec<Complex<f64>> = left.iter().zip(right.iter()).map(|(l, r)| l * r).collect();
    planner.plan_fft_inverse(len).process(&mut prod);
    prod.into_iter()
        .enumerate()
        .map(|(i, c)| {
            let v = ((c / twist(i)).re / len as f64).round() as i128;
            v.rem_euclid(1i128 << 32) as u32
        })
        .collect()
}

#[test]
fn fft_product_agrees_with_direct_product_on_small_inputs() {
    let n = 64;
    let a: Vec<u32> = (0..n).map(|i| ((i * 37 + 11) % 1000) as u32).collect();
    let b: Vec<i64> = (0..n).map(|i| (i as i64 * 13 % 7) - 3).collect();
    let p = Torus01Poly::new_with_fix(a);
    let direct: Vec<u32> = p.mul(&b).coef.iter().map(|t| t.fix).collect();
    assert_eq!(fft_mul(&p, &b), direct);
}

#[test]
fn poly_equality_compares_coefficients() {
    let p = Torus01Poly::new_with_fix(vec![1, 2, 3]);
    assert!(p == Torus01Poly::new_with_fix(vec![1, 2, 3]));
    assert!(p != Torus01Poly::new_with_fix(vec![1, 2, 4]));
    assert!(p != Torus01Poly::new_with_fix(vec![1, 2]));
}

#[test]
fn extracted_sample_has_coefficient_zero_phase() {
    let big_s = gen_s(BIG_N);
    let mut m = vec![0u32; BIG_N];
    m[0] = 1;
    let c = TRLWE::encrypt(&m, &big_s, &zero_poly(), MU_BIT);
    let e = c.sample_extract();
    assert_eq!(e.a.coef.len(), BIG_N);
    assert_eq!(e.b, c.b.coef[0]);
    assert_eq!(e.a.coef[1].fix, c.a.coef[BIG_N - 1].neg().fix);
    let phase = e.b.sub(e.a.dot(&big_s)).fix;
    assert_eq!(phase, 0x2000_0000);
}

#[test]
fn trgsw_rows_carry_the_gadget() {
    let zeros: Vec<TRLWE> = (0..2 * L).map(|_| TRLWE::new_obvious_with_fix(vec![0; BIG_N])).collect();
    let g = TRGSW::new_with_bin(L, BG, BGBIT, 1, zeros);
    assert_eq!(g.rows.len(), 2 * L);
    assert_eq!(g.rows[0].a.coef[0].fix, 1 << 26);
    assert_eq!(g.rows[1].a.coef[0].fix, 1 << 20);
    assert_eq!(g.rows[L].b.coef[0].fix, 1 << 26);
    assert_eq!(g.rows[L].a.coef[0].fix, 0);
}

#[test]
fn poly_mul_by_half_length_multiplier() {
    // (1 + 2X + 3X^2 + 4X^3) * (1 + X) in T[X]/(X^4 + 1)
    let p = Torus01Poly::new_with_fix(vec![1, 2, 3, 4]);
    let r = p.mul(&vec![1, 1]);
    assert_eq!(r.coef.iter().map(|t| t.fix).collect::<Vec<_>>(), vec![1u32.wrapping_sub(4), 3, 5, 7]);
}

#[test]
fn tlwe_round_trip_at_extreme_scales() {
    let s = gen_s(SMALL_N);
    for m in 0..2u32 {
        let c = TLWE::encrypt(m, &s, Torus01::new_with_fix(0x3fff_ffff), 1);
        assert_eq!(c.decrypt(&s, 1), m);
        let c = TLWE::encrypt(m, &s, Torus01::new_with_fix(0), 32);
        assert_eq!(c.decrypt(&s, 32), m);
    }
}

#[test]
fn blind_rotate_ignores_key_bits_past_the_mask() {
    let (s, big_s, bk, _) = keys();
    let short: Vec<i64> = s[..SMALL_N - 4].to_vec();
    let c = TLWE::encrypt(1, &short, Torus01::new_with_fix(0), MU_BIT);
    let r = blind_rotate(&c, &bk, MU_BIT, BIG_N as u32, BIG_N_BIT);
    assert_eq!(r.a.coef.len(), BIG_N);
    assert_eq!(r.decrypt(&big_s, MU_BIT)[0], 1);
}
