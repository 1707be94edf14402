use particle_gravity::fixed::{div_toward_zero, isqrt, isqrt_ceil, LIMIT, ONE};
use particle_gravity::vec2::Vec2;

#[test]
fn quotients_round_toward_zero() {
    assert_eq!(div_toward_zero(7, 2), 3);
    assert_eq!(div_toward_zero(-7, 2), -3);
    assert_eq!(div_toward_zero(0, 5), 0);
    assert_eq!(div_toward_zero(-1, 5), 0);
    assert_eq!(div_toward_zero(6, 3), 2);
    assert_eq!(div_toward_zero(-6, 3), -2);
}

#[test]
fn quotients_of_wide_numbers() {
    let big: i128 = 1_000_000_000_000_000_000_000_000_000_000;
    assert_eq!(div_toward_zero(big, 7), 142_857_142_857_142_857_142_857_142_857);
    assert_eq!(div_toward_zero(-big, 7), -142_857_142_857_142_857_142_857_142_857);
    assert_eq!(div_toward_zero(i128::MAX, 1), i128::MAX);
    assert_eq!(div_toward_zero(i128::MIN + 1, 1), i128::MIN + 1);
}

#[test]
fn integer_square_roots() {
    assert_eq!(isqrt(0), 0);
    assert_eq!(isqrt(1), 1);
    assert_eq!(isqrt(2), 1);
    assert_eq!(isqrt(3), 1);
    assert_eq!(isqrt(4), 2);
    assert_eq!(isqrt(999_999), 999);
    assert_eq!(isqrt(1_000_000), 1000);
    assert_eq!(isqrt(1_000_001), 1000);
}

#[test]
fn integer_square_roots_at_the_top() {
    assert_eq!(isqrt(u128::MAX), u64::MAX);
    let top: u128 = u64::MAX as u128;
    assert_eq!(isqrt(top * top), u64::MAX);
    assert_eq!(isqrt(top * top - 1), u64::MAX - 1);
}

#[test]
fn square_roots_rounded_up() {
    assert_eq!(isqrt_ceil(0), 0);
    assert_eq!(isqrt_ceil(1), 1);
    assert_eq!(isqrt_ceil(2), 2);
    assert_eq!(isqrt_ceil(4), 2);
    assert_eq!(isqrt_ceil(5), 3);
    assert_eq!(isqrt_ceil(1_000_001), 1001);
    assert_eq!(isqrt_ceil(u128::MAX), 18_446_744_073_709_551_616);
}

#[test]
fn the_scale_is_a_thousand() {
    assert_eq!(ONE, 1000);
    assert_eq!(LIMIT, 1i64 << 40);
}

#[test]
fn vectors_are_built_from_components() {
    let v = Vec2::new(3, -4);
    assert_eq!(v.x, 3);
    assert_eq!(v.y, -4);
    assert_eq!(Vec2::zero(), Vec2::new(0, 0));
}

#[test]
fn clamped_vectors_stay_within_the_limit() {
    assert_eq!(Vec2::clamped(5, -6), Vec2::new(5, -6));
    assert_eq!(Vec2::clamped(i64::MAX, i64::MIN), Vec2::new(LIMIT, -LIMIT));
    assert_eq!(Vec2::clamped(LIMIT, -LIMIT), Vec2::new(LIMIT, -LIMIT));
    assert_eq!(Vec2::clamped(LIMIT + 1, 0), Vec2::new(LIMIT, 0));
    assert!(Vec2::clamped(i64::MAX, 7).is_within_limit());
    assert!(!Vec2::new(LIMIT + 1, 0).is_within_limit());
    assert!(!Vec2::new(0, -LIMIT - 1).is_within_limit());
    assert!(Vec2::new(LIMIT, -LIMIT).is_within_limit());
}

#[test]
fn squared_lengths() {
    assert_eq!(Vec2::new(3, 4).length_squared(), 25);
    assert_eq!(Vec2::new(-3, 4).length_squared(), 25);
    assert_eq!(Vec2::new(0, 0).length_squared(), 0);
    assert_eq!(Vec2::new(i64::MIN, i64::MIN).length_squared(), 1u128 << 127);
}

#[test]
fn differences() {
    assert_eq!(Vec2::new(3, 4).minus(Vec2::new(1, 6)), Vec2::new(2, -2));
    assert_eq!(Vec2::new(LIMIT, -LIMIT).minus(Vec2::new(-LIMIT, LIMIT)), Vec2::new(2 * LIMIT, -2 * LIMIT));
}

#[test]
fn a_length_along_a_direction() {
    assert_eq!(Vec2::new(3000, 4000).along(10), Vec2::new(6, 8));
    assert_eq!(Vec2::new(-3000, 4000).along(-10), Vec2::new(6, -8));
    assert_eq!(Vec2::new(0, 1000).along(7), Vec2::new(0, 7));
    assert_eq!(Vec2::new(5, 12).along(1300), Vec2::new(500, 1200));
    assert_eq!(Vec2::new(7, 0).along(-3), Vec2::new(-3, 0));
}

#[test]
fn a_length_along_a_direction_is_never_exceeded() {
    assert_eq!(Vec2::new(1, 1).along(7), Vec2::new(3, 3));
    assert_eq!(Vec2::new(2, 2).along(10), Vec2::new(6, 6));
    assert_eq!(Vec2::new(1, 2).along(1000), Vec2::new(333, 666));
    assert_eq!(Vec2::new(-1, 2).along(1000), Vec2::new(-333, 666));
    let r = Vec2::new(i64::MAX, i64::MIN).along(i64::MAX);
    assert!(r.length_squared() <= (i64::MAX as u128) * (i64::MAX as u128));
    assert!(r.x > 0 && r.y < 0);
}

#[test]
fn the_zero_vector_has_no_direction() {
    assert_eq!(Vec2::new(0, 0).along(5), Vec2::new(0, 0));
    assert_eq!(Vec2::new(0, 0).along(i64::MAX), Vec2::new(0, 0));
}

#[test]
fn capping_leaves_short_vectors_alone() {
    assert_eq!(Vec2::new(3000, 4000).clamp_length_max(5000), Vec2::new(3000, 4000));
    assert_eq!(Vec2::new(3000, 4000).clamp_length_max(i64::MAX), Vec2::new(3000, 4000));
    assert_eq!(Vec2::new(0, 0).clamp_length_max(0), Vec2::new(0, 0));
}

#[test]
fn capping_rescales_long_vectors() {
    assert_eq!(Vec2::new(3000, 4000).clamp_length_max(2500), Vec2::new(1500, 2000));
    assert_eq!(Vec2::new(-3000, 4000).clamp_length_max(2500), Vec2::new(-1500, 2000));
    assert_eq!(Vec2::new(600_000, -800_000).clamp_length_max(500_000), Vec2::new(300_000, -400_000));
    assert_eq!(Vec2::new(7, 0).clamp_length_max(3), Vec2::new(3, 0));
}

#[test]
fn capping_rounds_toward_zero() {
    assert_eq!(Vec2::new(3, 3).clamp_length_max(1), Vec2::new(0, 0));
    assert_eq!(Vec2::new(1, 1).clamp_length_max(1), Vec2::new(0, 0));
}

#[test]
fn a_negative_cap_is_a_cap_of_zero() {
    assert_eq!(Vec2::new(3000, 4000).clamp_length_max(-7), Vec2::new(0, 0));
    assert_eq!(Vec2::new(3000, 4000).clamp_length_max(0), Vec2::new(0, 0));
    assert_eq!(Vec2::new(3000, 4000).clamp_length_max(i64::MIN), Vec2::new(0, 0));
}

#[test]
fn capping_the_longest_vectors() {
    let r = Vec2::new(i64::MIN, i64::MIN).clamp_length_max(i64::MAX);
    assert!(r.x < 0 && r.y < 0);
    assert!(r.length_squared() <= (i64::MAX as u128) * (i64::MAX as u128));
    assert_eq!(r.x, r.y);
}
