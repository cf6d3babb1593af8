use jumpy::vector::{isqrt, isqrt_ceil, mul_div, saturate, scale, Vec3, COORD_LIMIT, SCALE};

fn v(x: i64, y: i64, z: i64) -> Vec3 {
    Vec3 { x, y, z }
}

#[test]
fn saturate_clamps_at_both_ends() {
    assert_eq!(saturate(0), 0);
    assert_eq!(saturate(-7), -7);
    assert_eq!(saturate(i64::MAX as i128), i64::MAX);
    assert_eq!(saturate(i64::MAX as i128 + 1), i64::MAX);
    assert_eq!(saturate(i64::MIN as i128), i64::MIN);
    assert_eq!(saturate(i64::MIN as i128 - 1), i64::MIN);
    assert_eq!(saturate(i128::MAX), i64::MAX);
    assert_eq!(saturate(i128::MIN), i64::MIN);
}

#[test]
fn isqrt_rounds_down() {
    assert_eq!(isqrt(0), 0);
    assert_eq!(isqrt(1), 1);
    assert_eq!(isqrt(2), 1);
    assert_eq!(isqrt(3), 1);
    assert_eq!(isqrt(4), 2);
    assert_eq!(isqrt(24), 4);
    assert_eq!(isqrt(25), 5);
    assert_eq!(isqrt(26), 5);
    assert_eq!(isqrt(u64::MAX as u128), 0xffff_ffff);
    assert_eq!(isqrt(u128::MAX), 0xffff_ffff_ffff_ffff);
    assert_eq!(isqrt(1 << 126), 1 << 63);
    assert_eq!(isqrt((1 << 126) - 1), (1 << 63) - 1);
    for n in 0..2000u128 {
        let r = isqrt(n);
        assert!(r * r <= n && n < (r + 1) * (r + 1));
    }
}

#[test]
fn scale_rounds_towards_zero() {
    assert_eq!(scale(3, 10, 5), 6);
    assert_eq!(scale(-3, 10, 5), -6);
    assert_eq!(scale(1, 1, 3), 0);
    assert_eq!(scale(-1, 1, 3), 0);
    assert_eq!(scale(2, 5, 3), 3);
    assert_eq!(scale(-2, 5, 3), -3);
    assert_eq!(scale(0, 5, 0), 0);
    assert_eq!(scale(7, i64::MAX as u64, 7), i64::MAX);
    assert_eq!(scale(-7, i64::MAX as u64, 7), -i64::MAX);
    assert_eq!(scale(1 << 64, i64::MAX as u64, 1 << 64), i64::MAX);
    assert_eq!(scale(-(1 << 64), i64::MAX as u64, 1 << 64), -i64::MAX);
    assert_eq!(scale(1 << 63, 3, 1 << 64), 1);
}

#[test]
fn mul_div_rounds_towards_zero_and_saturates() {
    assert_eq!(mul_div(7, 3, 2), 10);
    assert_eq!(mul_div(-7, 3, 2), -10);
    assert_eq!(mul_div(7, -3, 2), -10);
    assert_eq!(mul_div(-7, -3, 2), 10);
    assert_eq!(mul_div(0, 5, 9), 0);
    assert_eq!(mul_div(i64::MAX, i64::MAX, 1), i64::MAX);
    assert_eq!(mul_div(i64::MIN, i64::MAX, 1), i64::MIN);
    assert_eq!(mul_div(i64::MIN, i64::MIN, 1), i64::MAX);
    assert_eq!(mul_div(i64::MIN, 1, 1), i64::MIN);
    assert_eq!(mul_div(i64::MAX, 65536, 65536), i64::MAX);
}

#[test]
fn vector_basics() {
    assert_eq!(Vec3::new(1, 2, 3), v(1, 2, 3));
    assert_eq!(Vec3::zero(), v(0, 0, 0));
    assert!(v(COORD_LIMIT, -COORD_LIMIT, 0).is_in_bounds());
    assert!(!v(COORD_LIMIT + 1, 0, 0).is_in_bounds());
    assert!(!v(0, -COORD_LIMIT - 1, 0).is_in_bounds());
    assert!(!v(0, 0, i64::MIN).is_in_bounds());
    assert!(v(2 * COORD_LIMIT, -2 * COORD_LIMIT, 0).fits_offset());
    assert!(!v(2 * COORD_LIMIT + 1, 0, 0).fits_offset());
    assert!(!v(0, 0, -2 * COORD_LIMIT - 1).fits_offset());
    assert_eq!(v(1, 2, 3).saturating_add(&v(10, -20, 30)), v(11, -18, 33));
    assert_eq!(
        v(i64::MAX, i64::MIN, 0).saturating_add(&v(1, -1, 0)),
        v(i64::MAX, i64::MIN, 0)
    );
}

#[test]
fn distances_and_lengths() {
    assert_eq!(v(1, 2, 3).distance_squared(&v(4, 6, 3)), 25);
    assert_eq!(v(4, 6, 3).offset_from(&v(1, 2, 3)), v(3, 4, 0));
    assert_eq!(v(3, 4, 0).length_squared(), 25);
    let far = v(COORD_LIMIT, COORD_LIMIT, COORD_LIMIT);
    let near = v(-COORD_LIMIT, -COORD_LIMIT, -COORD_LIMIT);
    assert_eq!(far.distance_squared(&near), 3 * (1u64 << 62));
    assert_eq!(far.offset_from(&near), v(2 * COORD_LIMIT, 2 * COORD_LIMIT, 2 * COORD_LIMIT));
}

#[test]
fn scaled_to_keeps_the_direction() {
    assert_eq!(v(3, 4, 0).scaled_to(10), v(6, 8, 0));
    assert_eq!(v(-3, 0, 4).scaled_to(10), v(-6, 0, 8));
    assert_eq!(v(0, 0, 0).scaled_to(10), v(0, 0, 0));
    assert_eq!(v(0, -5, 0).scaled_to(SCALE as u64), v(0, -SCALE, 0));
    assert_eq!(v(2, 0, 0).scaled_to(5), v(5, 0, 0));
    assert_eq!(v(1, 2, 2).scaled_to(9), v(3, 6, 6));
}

#[test]
fn scaled_to_gives_short_vectors_their_full_length() {
    // 7 / sqrt 3 = 4.04, 10 / sqrt 2 = 7.07, 65536 / sqrt 2 = 46340.95.
    assert_eq!(v(1, 1, 1).scaled_to(7), v(4, 4, 4));
    assert_eq!(v(1, 1, 0).scaled_to(10), v(7, 7, 0));
    assert_eq!(v(1, 1, 0).scaled_to(SCALE as u64), v(46340, 46340, 0));
    assert_eq!(v(1, 0, 1).scaled_to(16384), v(11585, 0, 11585));
}

#[test]
fn scaled_to_is_within_three_units_of_the_length_asked_for() {
    let big = 2 * COORD_LIMIT;
    let offsets = [
        v(1, 0, 0),
        v(1, 1, 1),
        v(-1, 2, -3),
        v(7, -100, 13),
        v(65536, 1, -1),
        v(big, big, big),
        v(-big, 1, 0),
        v(big, -big, 1),
        v(123456789, -987654321, 555555555),
    ];
    let lengths = [0u64, 1, 2, 3, 4, 10, 65536, 1 << 40, i64::MAX as u64 - 1, i64::MAX as u64];
    for offset in offsets {
        for mag in lengths {
            let w = offset.scaled_to(mag);
            let n2 = (w.x as i128).pow(2) + (w.y as i128).pow(2) + (w.z as i128).pow(2);
            let m = mag as i128;
            assert!(n2 <= m * m, "{:?} to {} gives {:?}", offset, mag, w);
            if m >= 3 {
                assert!((m - 3) * (m - 3) <= n2, "{:?} to {} gives {:?}", offset, mag, w);
            }
            assert!(w.x == 0 || w.x.signum() == offset.x.signum());
            assert!(w.y == 0 || w.y.signum() == offset.y.signum());
            assert!(w.z == 0 || w.z.signum() == offset.z.signum());
        }
    }
    let w = v(1, 1, 1).scaled_to(i64::MAX as u64);
    assert_eq!(w, v(5325116328314171699, 5325116328314171699, 5325116328314171699));
    let w = v(-big, 1, 0).scaled_to(i64::MAX as u64);
    assert_eq!(w, v(-9223372036854775806, 4294967295, 0));
}

#[test]
fn advance_moves_by_rate_times_time() {
    // Half a second at 3 units per second.
    assert_eq!(v(10, 10, 10).advance(&v(3, -3, 0), 32768), v(11, 9, 10));
    // One second.
    assert_eq!(v(0, 0, 0).advance(&v(5, -7, 9), 65536), v(5, -7, 9));
    assert_eq!(v(i64::MAX, 0, 0).advance(&v(5, 0, 0), 65536), v(i64::MAX, 0, 0));
    assert_eq!(v(0, 0, 0).advance(&v(i64::MAX, i64::MIN, 0), u32::MAX), v(i64::MAX, i64::MIN, 0));
}

#[test]
fn isqrt_ceil_rounds_up() {
    assert_eq!(isqrt_ceil(0), 0);
    assert_eq!(isqrt_ceil(1), 1);
    assert_eq!(isqrt_ceil(2), 2);
    assert_eq!(isqrt_ceil(4), 2);
    assert_eq!(isqrt_ceil(5), 3);
    assert_eq!(isqrt_ceil(u128::MAX), 1 << 64);
    assert_eq!(isqrt_ceil(1 << 126), 1 << 63);
    assert_eq!(isqrt_ceil((1 << 126) + 1), (1 << 63) + 1);
    for n in 1..2000u128 {
        let r = isqrt_ceil(n);
        assert!((r - 1) * (r - 1) < n && n <= r * r);
    }
}
