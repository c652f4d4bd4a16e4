use ghost_behavior::fixed::{fixed_add, fixed_mul, fixed_neg, fixed_sub, isqrt, saturate, ONE};

#[test]
fn one_is_sixteen_fractional_bits() {
    assert_eq!(ONE, 1 << 16);
}

#[test]
fn saturate_keeps_what_fits() {
    assert_eq!(saturate(0), 0);
    assert_eq!(saturate(-5), -5);
    assert_eq!(saturate(i32::MAX as i128), i32::MAX);
    assert_eq!(saturate(i32::MIN as i128), i32::MIN);
}

#[test]
fn saturate_stops_at_the_ends() {
    assert_eq!(saturate(i32::MAX as i128 + 1), i32::MAX);
    assert_eq!(saturate(i32::MIN as i128 - 1), i32::MIN);
    assert_eq!(saturate(i128::MAX), i32::MAX);
    assert_eq!(saturate(i128::MIN), i32::MIN);
}

#[test]
fn add_and_sub_saturate() {
    assert_eq!(fixed_add(3 * ONE, 4 * ONE), 7 * ONE);
    assert_eq!(fixed_add(i32::MAX, 1), i32::MAX);
    assert_eq!(fixed_add(i32::MIN, -1), i32::MIN);
    assert_eq!(fixed_sub(3 * ONE, 4 * ONE), -ONE);
    assert_eq!(fixed_sub(i32::MIN, 1), i32::MIN);
    assert_eq!(fixed_sub(i32::MAX, -1), i32::MAX);
}

#[test]
fn neg_of_the_least_number_is_the_greatest() {
    assert_eq!(fixed_neg(5), -5);
    assert_eq!(fixed_neg(-5), 5);
    assert_eq!(fixed_neg(0), 0);
    assert_eq!(fixed_neg(i32::MIN), i32::MAX);
    assert_eq!(fixed_neg(i32::MAX), i32::MIN + 1);
}

#[test]
fn mul_of_whole_numbers_is_exact() {
    assert_eq!(fixed_mul(3 * ONE, 4 * ONE), 12 * ONE);
    assert_eq!(fixed_mul(-3 * ONE, 4 * ONE), -12 * ONE);
    assert_eq!(fixed_mul(ONE, 12345), 12345);
    assert_eq!(fixed_mul(0, i32::MAX), 0);
}

#[test]
fn mul_rounds_down() {
    // 0.5 * (1/65536) is half a unit of the last place.
    assert_eq!(fixed_mul(ONE / 2, 1), 0);
    assert_eq!(fixed_mul(ONE / 2, -1), -1);
    assert_eq!(fixed_mul(ONE / 2, 3), 1);
    assert_eq!(fixed_mul(ONE / 2, -3), -2);
    assert_eq!(fixed_mul(-65536, 1), -1);
    assert_eq!(fixed_mul(-65537, 1), -2);
}

#[test]
fn mul_saturates() {
    assert_eq!(fixed_mul(i32::MAX, i32::MAX), i32::MAX);
    assert_eq!(fixed_mul(i32::MIN, i32::MAX), i32::MIN);
    assert_eq!(fixed_mul(i32::MIN, i32::MIN), i32::MAX);
    assert_eq!(fixed_mul(1000 * ONE, 1000 * ONE), i32::MAX);
}

#[test]
fn isqrt_of_small_numbers() {
    let expected: [u64; 18] = [0, 1, 1, 1, 2, 2, 2, 2, 2, 3, 3, 3, 3, 3, 3, 3, 4, 4];
    for n in 0..18u128 {
        assert_eq!(isqrt(n), expected[n as usize], "isqrt({})", n);
    }
}

#[test]
fn isqrt_round_squares() {
    for r in [5u64, 100, 65535, 65536, 4294967295, 4294967296, 1 << 40, u64::MAX] {
        let square = (r as u128) * (r as u128);
        assert_eq!(isqrt(square), r);
        if r > 1 {
            assert_eq!(isqrt(square - 1), r - 1);
        }
        if r < u64::MAX {
            assert_eq!(isqrt(square + 1), r);
        }
    }
}

#[test]
fn isqrt_of_the_largest_number() {
    assert_eq!(isqrt(u128::MAX), u64::MAX);
}

#[test]
fn isqrt_is_the_floor_of_the_root() {
    for n in [2u128, 10, 99, 1 << 31, 2147483648, 10_000_000_019, u64::MAX as u128] {
        let r = isqrt(n) as u128;
        assert!(r * r <= n);
        assert!((r + 1) * (r + 1) > n);
    }
}
