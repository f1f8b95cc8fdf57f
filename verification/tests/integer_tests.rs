use qubit_sim::integer::Integer;
use qubit_sim::natural::Natural;

fn size(n: u64) -> Natural {
    Natural::from_u64(n)
}

fn whole(n: i64) -> Integer {
    Integer::from_i64(n)
}

#[test]
fn naturals_round_trip_through_machine_words() {
    for n in [0u64, 1, 2, 3, 255, 256, 1 << 32, (1 << 63) - 1, 1 << 63, u64::MAX] {
        assert_eq!(size(n).to_u64(), Some(n));
        assert_eq!(size(n).is_zero(), n == 0);
        assert_eq!(size(n).is_even(), n % 2 == 0);
        assert_eq!(size(n).half(), size(n / 2));
        assert_eq!(size(n).clone(), size(n));
    }
    assert_eq!(Natural::zero(), size(0));
}

#[test]
fn natural_arithmetic_agrees_with_machine_words() {
    let values = [0u64, 1, 2, 3, 7, 8, 255, 256, 65535, 1 << 31, (1 << 32) - 1];
    for a in values {
        for b in values {
            assert_eq!(size(a).add(&size(b)), size(a + b));
            assert_eq!(size(a).mul(&size(b)), size(a * b));
            assert_eq!(size(a).lt(&size(b)), a < b);
            assert_eq!(size(a).checked_sub(&size(b)), if a >= b { Some(size(a - b)) } else { None });
        }
        assert_eq!(size(a).double(), size(2 * a));
    }
}

#[test]
fn naturals_grow_beyond_a_machine_word() {
    let top = size(u64::MAX);
    let next = top.add(&size(1));
    assert_eq!(next.to_u64(), None);
    assert_eq!(next.checked_sub(&size(1)), Some(top.clone()));
    assert_eq!(next, size(1 << 32).mul(&size(1 << 32)));
    assert!(top.lt(&next));
    assert!(!next.lt(&top));
    // (2^64 - 1)² = 2^128 - 2^65 + 1
    let square = top.mul(&top);
    let expected = next.mul(&next).checked_sub(&next.double()).unwrap().add(&size(1));
    assert_eq!(square, expected);
    assert_eq!(next.half(), size(1 << 63));
}

#[test]
fn integers_round_trip_through_machine_words() {
    for n in [0i64, 1, -1, 2, -2, 1 << 40, -(1 << 40), i64::MAX, i64::MIN, i64::MIN + 1] {
        assert_eq!(whole(n).to_i64(), Some(n));
        assert_eq!(whole(n).is_zero(), n == 0);
        assert_eq!(whole(n).is_negative(), n < 0);
        assert_eq!(whole(n).is_even(), n % 2 == 0);
        assert_eq!(whole(n).abs(), size(n.unsigned_abs()));
    }
    assert_eq!(Integer::zero(), whole(0));
    assert_eq!(whole(0).neg(), whole(0));
    assert_eq!(Integer::from_natural(size(9)), whole(9));
    assert_eq!(whole(i64::MAX).add(&whole(1)).to_i64(), None);
    assert_eq!(whole(i64::MIN).sub(&whole(1)).to_i64(), None);
    assert_eq!(whole(i64::MIN).neg().to_i64(), None);
}

#[test]
fn integer_arithmetic_agrees_with_machine_words() {
    let values = [0i64, 1, -1, 2, -2, 3, -7, 100, -100, 65536, -65537, 1 << 31, -(1 << 31)];
    for a in values {
        for b in values {
            assert_eq!(whole(a).add(&whole(b)), whole(a + b));
            assert_eq!(whole(a).sub(&whole(b)), whole(a - b));
            assert_eq!(whole(a).mul(&whole(b)), whole(a * b));
        }
        assert_eq!(whole(a).neg(), whole(-a));
        assert_eq!(whole(a).double(), whole(2 * a));
    }
}

#[test]
fn root_positive_decides_the_sign_of_a_surd() {
    // 3 - 2√2 > 0, 7 - 5√2 < 0
    assert!(Integer::root_positive(&whole(3), &whole(-2)));
    assert!(!Integer::root_positive(&whole(-3), &whole(2)));
    assert!(!Integer::root_positive(&whole(7), &whole(-5)));
    assert!(Integer::root_positive(&whole(-7), &whole(5)));
    assert!(!Integer::root_positive(&whole(0), &whole(0)));
    assert!(Integer::root_positive(&whole(0), &whole(1)));
    assert!(Integer::root_positive(&whole(1), &whole(0)));
    assert!(!Integer::root_positive(&whole(-1), &whole(0)));
    assert!(!Integer::root_positive(&whole(0), &whole(-1)));
    assert!(!Integer::root_positive(&whole(-1), &whole(-1)));
}
