use maths_rs::vec::{vec3i, vec4i, Vec3};
use maths_rs::{clamp, closest_point_on_aabb, cross, dist2, dot, length};

#[test]
fn dot_commutes() {
    let a = vec3i(1, -2, 3);
    let b = vec3i(-4, 5, 6);
    assert_eq!(dot(a, b), dot(b, a));
    assert_eq!(dot(a, b), 4);
    assert_eq!(dot(vec4i(1, 2, 3, 4), vec4i(5, 6, 7, 8)), dot(vec4i(5, 6, 7, 8), vec4i(1, 2, 3, 4)));
}

#[test]
fn length_is_never_negative() {
    assert!(length(vec3i(-3, -4, -5)) >= 0);
    assert!(length(vec3i(0, 0, 0)) >= 0);
    assert_eq!(length(Vec3::<i32>::zero()), 0);
    assert!(length(vec3i(0, 1, 0)) != 0);
}

#[test]
fn clamp_stays_within_its_bounds() {
    let lo = vec3i(-1, 0, 5);
    let hi = vec3i(1, 0, 9);
    for x in [vec3i(-7, -7, -7), vec3i(0, 0, 7), vec3i(7, 7, 7), vec3i(1, 0, 5)] {
        let c = clamp(x, lo, hi);
        assert!(lo.x <= c.x && c.x <= hi.x);
        assert!(lo.y <= c.y && c.y <= hi.y);
        assert!(lo.z <= c.z && c.z <= hi.z);
    }
}

#[test]
fn a_point_in_the_box_is_its_own_closest_point() {
    let lo = vec3i(-1, 0, 5);
    let hi = vec3i(1, 0, 9);
    for p in [vec3i(-1, 0, 5), vec3i(0, 0, 7), vec3i(1, 0, 9)] {
        assert_eq!(closest_point_on_aabb(lo, hi, p), p);
    }
}

#[test]
fn cross_is_anti_symmetric() {
    let a = vec3i(1, -2, 3);
    let b = vec3i(-4, 5, 6);
    assert_eq!(cross(a, b), -cross(b, a));
    assert_eq!(cross(a, b), vec3i(-27, -18, -3));
}

#[test]
fn no_point_of_the_box_is_nearer_than_the_closest_point() {
    let lo = vec3i(-1, 0, 5);
    let hi = vec3i(1, 0, 9);
    let p = vec3i(7, -3, 6);
    let c = closest_point_on_aabb(lo, hi, p);
    for q in [vec3i(-1, 0, 5), vec3i(0, 0, 7), vec3i(1, 0, 9), vec3i(1, 0, 6)] {
        assert!(dist2(p, c) <= dist2(p, q));
    }
}
