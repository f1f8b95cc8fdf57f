use qubit_sim::scalar::Scalar;

fn s(rat: i64, irr: i64, exp: u32) -> Scalar {
    Scalar::new(rat, irr, exp)
}

fn whole(n: i64) -> Scalar {
    Scalar::from_int(n)
}

fn parts(x: &Scalar) -> (i64, i64, u64) {
    (x.rat().unwrap(), x.irr().unwrap(), x.exp().unwrap())
}

fn approx(x: &Scalar) -> f64 {
    let (rat, irr, exp) = parts(x);
    (rat as f64 + irr as f64 * std::f64::consts::SQRT_2) / (2.0f64).powi(exp as i32)
}

fn power_of_two(n: u32) -> Scalar {
    let mut r = Scalar::one();
    for _ in 0..n {
        r = r.mul(whole(2));
    }
    r
}

fn power_of_half(n: u32) -> Scalar {
    let mut r = Scalar::one();
    for _ in 0..n {
        r = r.mul(s(1, 0, 1));
    }
    r
}

#[test]
fn integers_are_stored_as_given() {
    assert_eq!(parts(&whole(-7)), (-7, 0, 0));
    assert_eq!(parts(&whole(i64::MAX)), (i64::MAX, 0, 0));
    assert_eq!(parts(&whole(i64::MIN)), (i64::MIN, 0, 0));
    assert_eq!(Scalar::zero(), whole(0));
    assert_eq!(Scalar::one(), whole(1));
}

#[test]
fn new_brings_to_lowest_terms() {
    assert_eq!(s(2, 4, 1), s(1, 2, 0));
    assert_eq!(s(12, 8, 5), s(3, 2, 3));
    assert_eq!(parts(&s(-8, 0, 2)), (-2, 0, 0));
    assert_eq!(parts(&s(6, 3, 2)), (6, 3, 2));
    assert_eq!(parts(&s(i64::MIN, 0, 1)), (-(1i64 << 62), 0, 0));
}

#[test]
fn zero_has_one_writing() {
    assert_eq!(s(0, 0, 100), Scalar::zero());
    assert_eq!(s(0, 0, u32::MAX), Scalar::zero());
    assert_eq!(whole(5).sub(whole(5)), Scalar::zero());
    assert_eq!(parts(&whole(0).mul(s(3, 1, 9))), (0, 0, 0));
}

#[test]
fn inv_sqrt2_is_root_two_over_two() {
    let h = Scalar::inv_sqrt2();
    assert_eq!(parts(&h), (0, 1, 1));
    assert!((approx(&h) - 1.0 / 2.0f64.sqrt()).abs() < 1e-15);
    assert_eq!(h.clone().mul(h.clone()), s(1, 0, 1));
    assert_eq!(h.clone().add(h), s(0, 1, 0));
}

#[test]
fn add_aligns_denominators() {
    // 3/4 + 1/2 = 5/4
    assert_eq!(s(3, 0, 2).add(s(1, 0, 1)), s(5, 0, 2));
    // 1/4 + 3/4 = 1
    assert_eq!(s(1, 0, 2).add(s(3, 0, 2)), Scalar::one());
    // (1 + √2)/2 + (1 - √2)/2 = 1
    assert_eq!(s(1, 1, 1).add(s(1, -1, 1)), Scalar::one());
    // opposite signs
    assert_eq!(whole(3).add(whole(-5)), whole(-2));
    assert_eq!(whole(-3).add(whole(5)), whole(2));
    assert_eq!(whole(-3).add(whole(-5)), whole(-8));
}

#[test]
fn sub_aligns_denominators() {
    // 3/4 - 1/2 = 1/4
    assert_eq!(s(3, 0, 2).sub(s(1, 0, 1)), s(1, 0, 2));
    // 1/2 - 3/4 = -1/4
    assert_eq!(s(1, 0, 1).sub(s(3, 0, 2)), s(-1, 0, 2));
    assert_eq!(whole(3).sub(whole(-5)), whole(8));
    assert_eq!(whole(-3).sub(whole(5)), whole(-8));
}

#[test]
fn mul_follows_the_surd_product() {
    // (1 + 2√2)(3 + 4√2) = 3 + 16 + (4 + 6)√2 = 19 + 10√2
    assert_eq!(s(1, 2, 0).mul(s(3, 4, 0)), s(19, 10, 0));
    // (√2)(√2) = 2
    assert_eq!(s(0, 1, 0).mul(s(0, 1, 0)), whole(2));
    // (1/2)(1/2) = 1/4
    assert_eq!(s(1, 0, 1).mul(s(1, 0, 1)), s(1, 0, 2));
    // (1 + √2)(1 - √2) = -1
    assert_eq!(s(1, 1, 0).mul(s(1, -1, 0)), whole(-1));
    assert_eq!(whole(-4).mul(whole(-6)), whole(24));
    assert_eq!(whole(-4).mul(whole(6)), whole(-24));
}

#[test]
fn arithmetic_matches_floating_point() {
    let a = s(5, -3, 2);
    let b = s(-7, 11, 3);
    assert!((approx(&a.clone().mul(b.clone())) - approx(&a) * approx(&b)).abs() < 1e-12);
    assert!((approx(&a.clone().add(b.clone())) - (approx(&a) + approx(&b))).abs() < 1e-12);
    assert!((approx(&a.clone().sub(b.clone())) - (approx(&a) - approx(&b))).abs() < 1e-12);
}

#[test]
fn results_grow_beyond_a_machine_word() {
    // i64::MAX + 1 = 2^63
    let over = whole(i64::MAX).add(whole(1));
    assert_eq!(over.rat(), None);
    assert_eq!(over, power_of_two(63));
    assert_eq!(over.sub(whole(1)), whole(i64::MAX));
    // 2^62 · 2^62 = 2^124
    let big = whole(1 << 62).mul(whole(1 << 62));
    assert_eq!(big.rat(), None);
    assert_eq!(big, power_of_two(124));
    assert_eq!(big.mul(power_of_half(124)), Scalar::one());
    // (2^63 - 1)² = 2^126 - 2^64 + 1
    let square = whole(i64::MAX).mul(whole(i64::MAX));
    assert_eq!(square, power_of_two(126).sub(power_of_two(64)).add(whole(1)));
    // (MAX + MAX√2)² = 3·MAX² + 2·MAX²·√2
    let both = s(i64::MAX, i64::MAX, 0);
    let expected = square.clone().mul(whole(3)).add(square.mul(s(0, 2, 0)));
    assert_eq!(both.clone().mul(both), expected);
}

#[test]
fn denominators_grow_beyond_a_machine_word() {
    // 2^-63 · 2^-1 = 2^-64
    let tiny = s(1, 0, 63).mul(s(1, 0, 1));
    assert_eq!(parts(&tiny), (1, 0, 64));
    // 1 + 2^-63 keeps both terms
    let sum = whole(1).add(s(1, 0, 63));
    assert_eq!(sum.rat(), None);
    assert_eq!(sum.exp(), Some(63));
    assert_eq!(sum.clone().sub(whole(1)), s(1, 0, 63));
    assert!(whole(1).lt(sum.clone()));
    assert!(sum.lt(s(1 + (1 << 62), 0, 62)));
    // 2^-200 · 2^200 = 1
    assert_eq!(power_of_half(200).mul(power_of_two(200)), Scalar::one());
    assert_eq!(power_of_half(200).exp(), Some(200));
    assert!(Scalar::zero().lt(power_of_half(200)));
    assert!(power_of_half(200).lt(power_of_half(199)));
}

#[test]
fn large_products_are_exact() {
    let a = whole(1 << 62);
    assert_eq!(a.mul(s(1, 0, 3)), whole(1 << 59));
    // 3037000499² = 9223372030926249001
    let r = whole(3037000499);
    assert_eq!(r.clone().mul(r), whole(9223372030926249001));
    // (2^62 + 2^62 √2)(√2/2) = 2^62 + 2^61 √2
    let c = s(1 << 62, 1 << 62, 0);
    assert_eq!(c.mul(Scalar::inv_sqrt2()), s(1 << 62, 1 << 61, 0));
}

#[test]
fn lt_orders_rationals() {
    assert!(whole(1).lt(whole(2)));
    assert!(!whole(2).lt(whole(1)));
    assert!(!whole(2).lt(whole(2)));
    assert!(whole(-1).lt(Scalar::zero()));
    assert!(whole(-2).lt(whole(-1)));
    assert!(s(1, 0, 2).lt(s(1, 0, 1)));
    assert!(s(3, 0, 3).lt(s(1, 0, 1)));
    assert!(!s(5, 0, 3).lt(s(1, 0, 1)));
}

#[test]
fn lt_places_root_two_between_its_approximations() {
    let root = s(0, 1, 0);
    assert!(whole(1).lt(root.clone()));
    assert!(root.clone().lt(whole(2)));
    assert!(s(23170, 0, 14).lt(root.clone()));
    assert!(root.clone().lt(s(23171, 0, 14)));
    // 6369051672525773 / 2^52 is the double nearest to √2 and lies above it
    assert!(root.clone().lt(s(6369051672525773, 0, 52)));
    assert!(s(6369051672525772, 0, 52).lt(root));
    // convergents of √2: 1393/985 < √2 < 3363/2378, cross-multiplied
    assert!(whole(1393).lt(s(0, 985, 0)));
    assert!(s(0, 2378, 0).lt(whole(3363)));
}

#[test]
fn lt_handles_mixed_signs() {
    // 3 - 2√2 > 0 and 2√2 - 3 < 0
    assert!(Scalar::zero().lt(s(3, -2, 0)));
    assert!(s(-3, 2, 0).lt(Scalar::zero()));
    assert!(!s(3, -2, 0).lt(Scalar::zero()));
    // 7 - 5√2 < 0
    assert!(s(7, -5, 0).lt(Scalar::zero()));
    // (√2 - 1)·MAX is positive, and over 2^63 it is below one
    assert!(Scalar::zero().lt(s(-i64::MAX, i64::MAX, 0)));
    assert!(s(i64::MAX, -i64::MAX, 0).lt(Scalar::zero()));
    let small = s(-i64::MAX, i64::MAX, 63);
    assert!(Scalar::zero().lt(small.clone()));
    assert!(small.clone().lt(Scalar::one()));
    assert!(small.lt(s(-i64::MAX, i64::MAX, 0)));
    assert!(s(i64::MAX, 0, 63).lt(s(i64::MAX, 0, 0)));
}

#[test]
fn lt_tells_the_convergents_of_root_two_apart() {
    // p/q runs through the convergents of √2: p² - 2q² alternates between -1 and +1
    let (mut p, mut q): (i64, i64) = (1, 1);
    let mut below = true;
    let mut steps = 0;
    while p < i64::MAX / 4 {
        assert_eq!((p as i128) * (p as i128) - 2 * (q as i128) * (q as i128), if below { -1 } else { 1 });
        assert_eq!(whole(p).lt(s(0, q, 0)), below, "p = {}, q = {}", p, q);
        assert_eq!(s(0, q, 0).lt(whole(p)), !below, "p = {}, q = {}", p, q);
        assert_eq!(Scalar::zero().lt(s(p, -q, 7)), !below);
        assert_eq!(s(-p, q, 63).lt(Scalar::zero()), !below);
        let next = (p + 2 * q, p + q);
        p = next.0;
        q = next.1;
        below = !below;
        steps += 1;
    }
    assert!(steps > 40);
}

#[test]
fn unit_sample_takes_the_top_bits() {
    assert_eq!(Scalar::unit_sample(0), Scalar::zero());
    assert_eq!(Scalar::unit_sample(2047), Scalar::zero());
    assert_eq!(Scalar::unit_sample(2048), s(1, 0, 53));
    assert_eq!(Scalar::unit_sample(1u64 << 63), s(1, 0, 1));
    assert_eq!(Scalar::unit_sample(1u64 << 62), s(1, 0, 2));
    assert_eq!(Scalar::unit_sample(u64::MAX), s((1i64 << 53) - 1, 0, 53));
    assert!(Scalar::unit_sample(u64::MAX).lt(Scalar::one()));
    assert!(!Scalar::unit_sample(0).lt(Scalar::zero()));
}

#[test]
fn clone_gives_an_equal_scalar() {
    let a = whole(i64::MAX).mul(s(-3, 7, 40));
    assert_eq!(a.clone(), a);
}
