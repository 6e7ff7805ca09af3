use maths_rs::mat::MatInverse;
use maths_rs::vec::{vec2i, vec2u, vec3i, vec3u, vec4i, Vec2};
use maths_rs::{
    closest_point_on_aabb, closest_point_on_line, closest_point_on_obb, closest_point_on_ray,
    closest_point_on_sphere, cross, dist, dist2, distance, dot, length, mag, mag2, perp,
};

#[test]
fn dot_scenario() {
    assert_eq!(dot(vec3i(1, 2, 3), vec3i(4, 5, 6)), 32);
}

#[test]
fn dot_in_every_dimension() {
    assert_eq!(dot(vec2i(1, 2), vec2i(3, 4)), 11);
    assert_eq!(dot(vec4i(1, 2, 3, 4), vec4i(-1, -2, -3, -4)), -30);
    assert_eq!(dot(vec3u(1, 2, 3), vec3u(0, 0, 0)), 0);
    assert_eq!(dot(vec3i(1, 0, 0), vec3i(0, 1, 0)), 0);
}

#[test]
fn cross_scenario() {
    assert_eq!(cross(vec3i(1, 0, 0), vec3i(0, 1, 0)), vec3i(0, 0, 1));
}

#[test]
fn cross_by_the_formula() {
    assert_eq!(cross(vec3i(1, 2, 3), vec3i(4, 5, 6)), vec3i(-3, 6, -3));
    assert_eq!(maths_rs::vec::cross(vec3i(1, 2, 3), vec3i(4, 5, 6)), vec3i(-3, 6, -3));
    assert_eq!(cross(vec3i(0, 1, 0), vec3i(0, 0, 1)), vec3i(1, 0, 0));
    assert_eq!(cross(vec3i(2, 3, 4), vec3i(2, 3, 4)), vec3i(0, 0, 0));
}

#[test]
fn perp_turns_counter_clockwise() {
    assert_eq!(perp(vec2i(1, 0)), vec2i(0, 1));
    assert_eq!(perp(vec2i(0, 1)), vec2i(-1, 0));
    assert_eq!(perp(vec2i(3, -4)), vec2i(4, 3));
}

#[test]
fn mag2_is_the_dot_with_itself() {
    assert_eq!(mag2(vec2i(3, 4)), 25);
    assert_eq!(mag2(vec3i(-1, -2, -2)), 9);
    assert_eq!(mag2(vec4i(0, 0, 0, 0)), 0);
}

#[test]
fn length_rounds_down() {
    assert_eq!(length(vec2i(3, 4)), 5);
    assert_eq!(mag(vec2i(3, 4)), 5);
    assert_eq!(length(vec2i(1, 1)), 1);
    assert_eq!(length(vec3i(1, 2, 2)), 3);
    assert_eq!(length(vec3i(2, 2, 2)), 3);
    assert_eq!(length(vec4i(1, 1, 1, 1)), 2);
    assert_eq!(length(vec3u(0, 0, 7)), 7);
}

#[test]
fn length_is_zero_for_the_zero_vector_alone() {
    assert_eq!(length(vec3i(0, 0, 0)), 0);
    assert_eq!(length(vec3i(0, 0, 1)), 1);
    assert_eq!(length(vec3i(0, -1, 0)), 1);
    assert_eq!(length(vec2i(-1, 0)), 1);
}

#[test]
fn distances() {
    assert_eq!(dist2(vec2i(1, 1), vec2i(4, 5)), 25);
    assert_eq!(distance(vec2i(1, 1), vec2i(4, 5)), 5);
    assert_eq!(dist(vec2i(1, 1), vec2i(4, 5)), 5);
    assert_eq!(distance(vec2i(4, 5), vec2i(1, 1)), 5);
    assert_eq!(distance(vec3i(0, 0, 0), vec3i(1, 1, 1)), 1);
    assert_eq!(dist2(vec3i(0, 0, 0), vec3i(1, 1, 1)), 3);
    assert_eq!(distance(vec2u(7, 7), vec2u(7, 7)), 0);
}

#[test]
fn closest_point_on_line_inside_the_segment() {
    assert_eq!(closest_point_on_line(vec2i(0, 0), vec2i(10, 0), vec2i(5, 5)), vec2i(5, 0));
}

#[test]
fn closest_point_on_line_before_the_start() {
    assert_eq!(closest_point_on_line(vec2i(0, 0), vec2i(10, 0), vec2i(-5, 0)), vec2i(0, 0));
}

#[test]
fn closest_point_on_line_past_the_end() {
    assert_eq!(closest_point_on_line(vec2i(0, 0), vec2i(10, 0), vec2i(15, 3)), vec2i(10, 0));
    assert_eq!(closest_point_on_line(vec2i(0, 0), vec2i(10, 0), vec2i(10, 3)), vec2i(10, 0));
    assert_eq!(
        closest_point_on_line(vec3i(1, 1, 1), vec3i(1, 1, -4), vec3i(0, 0, -2)),
        vec3i(1, 1, -2)
    );
}

#[test]
fn closest_point_on_line_at_the_end_of_a_slanted_segment() {
    assert_eq!(closest_point_on_line(vec2i(0, 0), vec2i(3, 4), vec2i(3, 4)), vec2i(3, 4));
    assert_eq!(closest_point_on_line(vec2i(0, 0), vec2i(3, 4), vec2i(0, 0)), vec2i(0, 0));
    assert_eq!(closest_point_on_line(vec2i(0, 0), vec2i(3, 4), vec2i(30, 40)), vec2i(3, 4));
}

#[test]
fn closest_point_on_line_rounds_toward_the_start() {
    // the nearest point is (1.68, 2.24)
    assert_eq!(closest_point_on_line(vec2i(0, 0), vec2i(3, 4), vec2i(2, 2)), vec2i(1, 2));
    // the nearest point is (-1.68, -2.24)
    assert_eq!(closest_point_on_line(vec2i(0, 0), vec2i(-3, -4), vec2i(-2, -2)), vec2i(-1, -2));
    // the nearest point is (11.5, 11.5)
    assert_eq!(closest_point_on_line(vec2i(10, 10), vec2i(20, 20), vec2i(13, 10)), vec2i(11, 11));
    // the nearest point is (50, 50), off the segment's line by none
    assert_eq!(closest_point_on_line(vec2i(0, 0), vec2i(100, 100), vec2i(100, 0)), vec2i(50, 50));
}

#[test]
fn closest_point_on_line_is_no_farther_than_the_ends_and_the_middle() {
    let l1 = vec2i(-7, 3);
    let l2 = vec2i(9, -5);
    for p in [vec2i(0, 0), vec2i(4, 4), vec2i(-20, 1), vec2i(30, -30), vec2i(1, -1)] {
        let c = closest_point_on_line(l1, l2, p);
        let near = dist2(p, c);
        // one unit of rounding in each component lengthens a distance by under two
        let reach = |q| (distance(p, q) + 2) * (distance(p, q) + 2);
        assert!(near <= reach(l1));
        assert!(near <= reach(l2));
        assert!(near <= reach(vec2i(1, -1)));
    }
}

#[test]
fn closest_point_on_a_segment_of_one_point_is_that_point() {
    assert_eq!(closest_point_on_line(vec2i(3, 3), vec2i(3, 3), vec2i(9, -9)), vec2i(3, 3));
}

#[test]
fn closest_point_on_aabb_clamps_each_component() {
    assert_eq!(
        closest_point_on_aabb(vec3i(0, 0, 0), vec3i(10, 10, 10), vec3i(-5, 5, 15)),
        vec3i(0, 5, 10)
    );
    assert_eq!(closest_point_on_aabb(vec2i(-1, -1), vec2i(1, 1), vec2i(7, -7)), vec2i(1, -1));
}

#[test]
fn closest_point_on_aabb_keeps_a_point_inside() {
    assert_eq!(
        closest_point_on_aabb(vec3i(0, 0, 0), vec3i(10, 10, 10), vec3i(3, 0, 10)),
        vec3i(3, 0, 10)
    );
}

#[test]
fn closest_point_on_sphere_scenario() {
    assert_eq!(closest_point_on_sphere(vec2i(0, 0), 2, vec2i(4, 0)), vec2i(2, 0));
}

#[test]
fn closest_point_on_sphere_off_the_axes() {
    assert_eq!(closest_point_on_sphere(vec2i(0, 0), 5, vec2i(3, 4)), vec2i(3, 4));
    assert_eq!(closest_point_on_sphere(vec2i(0, 0), 10, vec2i(3, 4)), vec2i(6, 8));
    assert_eq!(closest_point_on_sphere(vec2i(1, 1), 5, vec2i(-5, -7)), vec2i(-2, -3));
}

#[test]
fn closest_point_on_sphere_rounds_toward_the_centre() {
    // the point on the circle is (7.07, 7.07)
    assert_eq!(closest_point_on_sphere(vec2i(0, 0), 10, vec2i(1, 1)), vec2i(7, 7));
    // the point on the circle is (-7.07, 7.07)
    assert_eq!(closest_point_on_sphere(vec2i(0, 0), 10, vec2i(-3, 3)), vec2i(-7, 7));
    // the point on the sphere is (5.77, 5.77, 5.77)
    assert_eq!(closest_point_on_sphere(vec3i(0, 0, 0), 10, vec3i(2, 2, 2)), vec3i(5, 5, 5));
}

#[test]
fn closest_point_on_sphere_lies_within_rounding_of_the_radius() {
    let s = vec2i(4, -4);
    for p in [vec2i(5, -4), vec2i(9, 9), vec2i(-30, 1), vec2i(4, 100), vec2i(3, -5)] {
        let c = closest_point_on_sphere(s, 25, p);
        let far = dist2(c, s);
        assert!(far <= 25 * 25);
        assert!(far > 23 * 23);
    }
}

#[test]
fn closest_point_on_sphere_with_a_negative_radius_lies_opposite() {
    assert_eq!(closest_point_on_sphere(vec2i(0, 0), -2, vec2i(4, 0)), vec2i(-2, 0));
}

#[test]
fn closest_point_on_sphere_from_its_centre_is_the_centre() {
    assert_eq!(closest_point_on_sphere(vec2i(5, 5), 2, vec2i(5, 5)), vec2i(5, 5));
    assert_eq!(closest_point_on_sphere(vec3i(1, 2, 3), 4, vec3i(1, 2, -6)), vec3i(1, 2, -1));
}

#[test]
fn closest_point_on_ray_projects_onto_the_direction() {
    assert_eq!(closest_point_on_ray(vec2i(0, 0), vec2i(1, 0), vec2i(5, 5)), vec2i(5, 0));
    assert_eq!(closest_point_on_ray(vec2i(1, 1), vec2i(0, 1), vec2i(4, 7)), vec2i(1, 7));
}

#[test]
fn closest_point_on_ray_behind_the_origin_is_the_origin() {
    assert_eq!(closest_point_on_ray(vec2i(0, 0), vec2i(1, 0), vec2i(-5, 5)), vec2i(0, 0));
}

#[test]
fn closest_point_on_ray_along_an_axis_is_the_nearest_point() {
    let r0 = vec2i(2, 3);
    let rv = vec2i(0, 1);
    let p = vec2i(9, 8);
    let c = closest_point_on_ray(r0, rv, p);
    assert_eq!(c, vec2i(2, 8));
    for k in 0..12 {
        assert!(dist2(p, c) <= dist2(p, vec2i(2, 3 + k)));
    }
}

#[test]
fn closest_point_on_ray_scales_with_the_direction() {
    // the projection is taken on the direction as given: twice as long, four times as far
    assert_eq!(closest_point_on_ray(vec2i(0, 0), vec2i(2, 0), vec2i(5, 5)), vec2i(20, 0));
}

#[derive(Clone, Copy, Debug, PartialEq)]
struct Shear {
    k: i32,
}

impl MatInverse<i32> for Shear {
    fn inverse_req(&self) -> bool {
        true
    }

    fn inverse_spec(&self) -> Shear {
        Shear { k: -self.k }
    }

    fn inverse(&self) -> Shear {
        Shear { k: -self.k }
    }
}

impl std::ops::Mul<Vec2<i32>> for Shear {
    type Output = Vec2<i32>;

    fn mul(self, v: Vec2<i32>) -> Vec2<i32> {
        vec2i(v.x + self.k * v.y, v.y)
    }
}

#[test]
fn closest_point_on_obb_goes_through_box_space() {
    let m = Shear { k: 1 };
    // into box space (5, 0), clamped (1, 0), back (1, 0)
    assert_eq!(closest_point_on_obb(m, vec2i(5, 0)), vec2i(1, 0));
    // into box space (1, 2), clamped (1, 1), back (2, 1)
    assert_eq!(closest_point_on_obb(m, vec2i(3, 2)), vec2i(2, 1));
    // inside the box already
    assert_eq!(closest_point_on_obb(m, vec2i(1, 1)), vec2i(1, 1));
    assert_eq!(closest_point_on_obb(Shear { k: 0 }, vec2i(-9, 9)), vec2i(-1, 1));
}
