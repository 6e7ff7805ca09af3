use maths_rs::num::{negate, zip_add, zip_div, zip_mul, zip_sub, NumberOps};
use maths_rs::vec::{vec2i, vec3i, vec3u, vec4i, Vec2, Vec3, Vec4};
use maths_rs::{abs, approx, clamp, lerp, max, min, powi, saturate, sign, sqrt, step};

#[test]
fn min_and_max_of_scalars() {
    assert_eq!(min(3i32, 4i32), 3);
    assert_eq!(min(4i32, 3i32), 3);
    assert_eq!(max(3u8, 4u8), 4);
    assert_eq!(max(-3i64, -4i64), -3);
    assert_eq!(min(7i16, 7i16), 7);
}

#[test]
fn min_and_max_are_componentwise() {
    assert_eq!(min(vec3i(1, 5, -2), vec3i(4, 2, -3)), vec3i(1, 2, -3));
    assert_eq!(max(vec3i(1, 5, -2), vec3i(4, 2, -3)), vec3i(4, 5, -2));
    assert_eq!(min(vec2i(9, 0), vec2i(0, 9)), vec2i(0, 0));
    assert_eq!(max(vec4i(1, 2, 3, 4), vec4i(4, 3, 2, 1)), vec4i(4, 3, 3, 4));
}

#[test]
fn clamp_vec3_scenario() {
    assert_eq!(clamp(vec3i(5, -2, 0), vec3i(0, 0, 0), vec3i(1, 1, 1)), vec3i(1, 0, 0));
}

#[test]
fn clamp_vec3_scenario_in_half_units() {
    assert_eq!(clamp(vec3i(10, -4, 1), vec3i(0, 0, 0), vec3i(2, 2, 2)), vec3i(2, 0, 1));
}

#[test]
fn clamp_of_scalars() {
    assert_eq!(clamp(5i32, 0, 3), 3);
    assert_eq!(clamp(-5i32, 0, 3), 0);
    assert_eq!(clamp(2i32, 0, 3), 2);
    assert_eq!(clamp(200u8, 10, 20), 20);
}

#[test]
fn clamp_with_crossed_bounds_gives_the_lower_bound() {
    assert_eq!(clamp(5i32, 10, 0), 10);
    assert_eq!(clamp(-5i32, 10, 0), 10);
    assert_eq!(clamp(vec2i(5, 5), vec2i(10, 0), vec2i(0, 10)), vec2i(10, 5));
}

#[test]
fn step_is_one_where_a_exceeds_b() {
    assert_eq!(step(3i32, 2i32), 1);
    assert_eq!(step(2i32, 3i32), 0);
    assert_eq!(step(2i32, 2i32), 0);
    assert_eq!(step(vec3u(1, 5, 7), vec3u(4, 2, 7)), vec3u(0, 1, 0));
}

#[test]
fn sign_is_minus_one_zero_or_one() {
    assert_eq!(sign(-12i32), -1);
    assert_eq!(sign(0i32), 0);
    assert_eq!(sign(99i8), 1);
    assert_eq!(sign(i64::MIN), -1);
    assert_eq!(sign(vec3i(-7, 0, 7)), vec3i(-1, 0, 1));
}

#[test]
fn abs_is_the_magnitude() {
    assert_eq!(abs(-12i32), 12);
    assert_eq!(abs(12i32), 12);
    assert_eq!(abs(0i16), 0);
    assert_eq!(abs(-127i8), 127);
    assert_eq!(abs(vec4i(-1, 2, -3, 0)), vec4i(1, 2, 3, 0));
}

#[test]
fn saturate_clamps_to_zero_and_one() {
    assert_eq!(saturate(5i32), 1);
    assert_eq!(saturate(-5i32), 0);
    assert_eq!(saturate(1i32), 1);
    assert_eq!(saturate(vec3i(-1, 0, 2)), vec3i(0, 0, 1));
    assert_eq!(saturate(vec3u(0, 1, 9)), vec3u(0, 1, 1));
}

#[test]
fn lerp_is_e0_plus_t_times_the_span() {
    assert_eq!(lerp(10i32, 20i32, 0), 10);
    assert_eq!(lerp(10i32, 20i32, 1), 20);
    assert_eq!(lerp(10i32, 20i32, 3), 40);
    assert_eq!(lerp(10i32, 20i32, -1), 0);
    assert_eq!(lerp(vec2i(0, 10), vec2i(4, 6), 2), vec2i(8, 2));
    assert_eq!(lerp(vec3u(1, 2, 3), vec3u(2, 4, 6), 5), vec3u(6, 12, 18));
}

#[test]
fn approx_compares_magnitudes_of_differences() {
    assert!(approx(10i32, 12i32, 3));
    assert!(approx(12i32, 10i32, 3));
    assert!(!approx(10i32, 13i32, 3));
    assert!(!approx(13i32, 10i32, 3));
    assert!(!approx(10i32, 10i32, 0));
    assert!(approx(10u8, 10u8, 1));
    assert!(approx(vec3i(1, 2, 3), vec3i(2, 1, 3), 2));
    assert!(!approx(vec3i(1, 2, 3), vec3i(2, 1, 5), 2));
}

#[test]
fn approx_sees_a_component_that_falls_short() {
    // a - b is far below eps, yet the values are far apart
    assert!(!approx(vec2i(0, 0), vec2i(100, 0), 1));
    assert!(!approx(0u32, 100u32, 1));
}

#[test]
fn sqrt_rounds_down() {
    assert_eq!(sqrt(0i32), 0);
    assert_eq!(sqrt(1i32), 1);
    assert_eq!(sqrt(3i32), 1);
    assert_eq!(sqrt(4i32), 2);
    assert_eq!(sqrt(17i32), 4);
    assert_eq!(sqrt(24u8), 4);
    assert_eq!(sqrt(25u8), 5);
    assert_eq!(sqrt(255u8), 15);
    assert_eq!(sqrt(127i8), 11);
    assert_eq!(sqrt(i32::MAX), 46340);
    assert_eq!(sqrt(u64::MAX), 4294967295);
    assert_eq!(sqrt(i64::MAX), 3037000499);
    assert_eq!(sqrt(vec3u(9, 10, 16)), vec3u(3, 3, 4));
}

#[test]
fn sqrt_of_a_negative_is_zero() {
    assert_eq!(sqrt(-1i32), 0);
    assert_eq!(sqrt(i64::MIN), 0);
    assert_eq!(sqrt(vec2i(-4, 4)), vec2i(0, 2));
}

#[test]
fn powi_raises_to_an_integer_power() {
    assert_eq!(powi(2i32, 10), 1024);
    assert_eq!(powi(-2i32, 3), -8);
    assert_eq!(powi(-2i8, 7), -128);
    assert_eq!(powi(7u8, 0), 1);
    assert_eq!(powi(0i32, 0), 1);
    assert_eq!(powi(0i32, 5), 0);
    assert_eq!(powi(vec3i(1, 2, 3), 3), vec3i(1, 8, 27));
}

#[test]
fn powi_with_a_negative_power_divides_one() {
    assert_eq!(powi(1i32, -3), 1);
    assert_eq!(powi(-1i32, -3), -1);
    assert_eq!(powi(-1i32, -2), 1);
    assert_eq!(powi(2i32, -1), 0);
    assert_eq!(powi(-5i32, -2), 0);
    assert_eq!(powi(1u8, -7), 1);
    assert_eq!(powi(vec2i(1, 3), -1), vec2i(1, 0));
}

#[test]
fn componentwise_arithmetic() {
    assert_eq!(zip_add(vec3i(1, 2, 3), vec3i(10, 20, 30)), vec3i(11, 22, 33));
    assert_eq!(zip_sub(vec3i(1, 2, 3), vec3i(10, 20, 30)), vec3i(-9, -18, -27));
    assert_eq!(zip_mul(vec3i(1, 2, 3), vec3i(10, 20, 30)), vec3i(10, 40, 90));
    assert_eq!(zip_div(vec3i(10, -20, 31), vec3i(3, 3, -3)), vec3i(3, -6, -10));
    assert_eq!(negate(vec2i(4, -4)), vec2i(-4, 4));
    assert_eq!(zip_add(3i32, 4i32), 7);
    assert_eq!(zip_div(9u8, 2u8), 4);
    assert_eq!(negate(5i64), -5);
}

#[test]
fn a_scalar_is_one_lane() {
    assert_eq!(<i32 as NumberOps<i32>>::lanes(), 1);
    assert_eq!(NumberOps::lane(&42i32, 0), 42);
    let mut x = 1u8;
    NumberOps::set_lane(&mut x, 0, 9u8);
    assert_eq!(x, 9);
    assert_eq!(<i16 as NumberOps<i16>>::splat(-3), -3);
}

#[test]
fn lanes_of_vectors() {
    assert_eq!(<Vec2<i32> as NumberOps<i32>>::lanes(), 2);
    assert_eq!(<Vec3<u8> as NumberOps<u8>>::lanes(), 3);
    assert_eq!(<Vec4<i64> as NumberOps<i64>>::lanes(), 4);
    let mut v = vec4i(1, 2, 3, 4);
    assert_eq!(v.lane(0), 1);
    assert_eq!(v.lane(3), 4);
    v.set_lane(2, 30);
    v.set_lane(0, 10);
    assert_eq!(v, vec4i(10, 2, 30, 4));
    assert_eq!(<Vec3<i32> as NumberOps<i32>>::splat(7), vec3i(7, 7, 7));
}
