use maths_rs::vec::v2;
use maths_rs::vec::v3;
use maths_rs::vec::v4;
use maths_rs::vec::{vec2i, vec2u, vec3i, vec3u, vec4i, vec4u, Vec2, Vec3, Vec4, VecN};

#[test]
fn constructors_set_the_named_components() {
    let a = Vec2::<i32>::new(1, 2);
    assert_eq!((a.x, a.y), (1, 2));
    let b = Vec3::<u8>::new(1, 2, 3);
    assert_eq!((b.x, b.y, b.z), (1, 2, 3));
    let c = Vec4::<i64>::new(1, 2, 3, 4);
    assert_eq!((c.x, c.y, c.z, c.w), (1, 2, 3, 4));
    assert_eq!(vec2i(1, 2), a);
    assert_eq!(vec3i(-1, -2, -3), Vec3 { x: -1, y: -2, z: -3 });
    assert_eq!(vec4i(1, 2, 3, 4), Vec4 { x: 1, y: 2, z: 3, w: 4 });
    assert_eq!(vec2u(1, 2), Vec2 { x: 1u32, y: 2u32 });
    assert_eq!(vec3u(1, 2, 3), Vec3 { x: 1u32, y: 2u32, z: 3u32 });
    assert_eq!(vec4u(1, 2, 3, 4), Vec4 { x: 1u32, y: 2u32, z: 3u32, w: 4u32 });
}

#[test]
fn zero_one_and_the_axes() {
    assert_eq!(Vec2::<i32>::zero(), vec2i(0, 0));
    assert_eq!(Vec3::<i32>::zero(), vec3i(0, 0, 0));
    assert_eq!(Vec4::<i32>::zero(), vec4i(0, 0, 0, 0));
    assert_eq!(Vec2::<i32>::one(), vec2i(1, 1));
    assert_eq!(Vec3::<i32>::one(), vec3i(1, 1, 1));
    assert_eq!(Vec4::<i32>::one(), vec4i(1, 1, 1, 1));
    assert_eq!(Vec2::<i32>::unit_x(), vec2i(1, 0));
    assert_eq!(Vec2::<i32>::unit_y(), vec2i(0, 1));
    assert_eq!(Vec2::<i32>::unit_z(), vec2i(0, 0));
    assert_eq!(Vec3::<i32>::unit_x(), vec3i(1, 0, 0));
    assert_eq!(Vec3::<i32>::unit_y(), vec3i(0, 1, 0));
    assert_eq!(Vec3::<i32>::unit_z(), vec3i(0, 0, 1));
    assert_eq!(Vec4::<i32>::unit_x(), vec4i(1, 0, 0, 0));
    assert_eq!(Vec4::<i32>::unit_y(), vec4i(0, 1, 0, 0));
    assert_eq!(Vec4::<i32>::unit_z(), vec4i(0, 0, 1, 0));
}

#[test]
fn named_colours() {
    assert_eq!(Vec4::<u32>::red(), vec4u(1, 0, 0, 1));
    assert_eq!(Vec4::<u32>::green(), vec4u(0, 1, 0, 1));
    assert_eq!(Vec4::<u32>::blue(), vec4u(0, 0, 1, 1));
    assert_eq!(Vec4::<u32>::cyan(), vec4u(0, 1, 1, 1));
    assert_eq!(Vec4::<u32>::magenta(), vec4u(1, 0, 1, 1));
    assert_eq!(Vec4::<u32>::yellow(), vec4u(1, 1, 0, 1));
    assert_eq!(Vec4::<u32>::black(), vec4u(0, 0, 0, 1));
    assert_eq!(Vec4::<u32>::white(), vec4u(1, 1, 1, 1));
    assert_eq!(Vec3::<u32>::yellow(), vec3u(1, 1, 0));
    assert_eq!(Vec3::<u32>::black(), vec3u(0, 0, 0));
    assert_eq!(Vec2::<u32>::magenta(), vec2u(1, 0));
    assert_eq!(Vec2::<u32>::white(), vec2u(1, 1));
}

#[test]
fn len_is_the_dimension() {
    assert_eq!(<Vec2<i32> as VecN<i32>>::len(), 2);
    assert_eq!(<Vec3<i32> as VecN<i32>>::len(), 3);
    assert_eq!(<Vec4<u8> as VecN<u8>>::len(), 4);
}

#[test]
fn index_gives_the_components_in_order() {
    let v = vec4i(10, 20, 30, 40);
    assert_eq!(v[0], 10);
    assert_eq!(v[1], 20);
    assert_eq!(v[2], 30);
    assert_eq!(v[3], 40);
    let w = vec3i(1, 2, 3);
    assert_eq!((w[0], w[1], w[2]), (w.x, w.y, w.z));
    let u = vec2i(7, 8);
    assert_eq!((u[0], u[1]), (7, 8));
}

#[test]
fn get_is_none_from_the_dimension_on() {
    let u = vec2i(7, 8);
    assert_eq!(u.get(0), Some(7));
    assert_eq!(u.get(1), Some(8));
    assert_eq!(u.get(2), None);
    let w = vec3i(1, 2, 3);
    assert_eq!(w.get(2), Some(3));
    assert_eq!(w.get(3), None);
    let v = vec4i(10, 20, 30, 40);
    assert_eq!(v.get(3), Some(40));
    assert_eq!(v.get(4), None);
    assert_eq!(v.get(usize::MAX), None);
}

#[test]
fn operators_between_vectors() {
    assert_eq!(vec3i(1, 2, 3) + vec3i(10, 20, 30), vec3i(11, 22, 33));
    assert_eq!(vec3i(1, 2, 3) - vec3i(10, 20, 30), vec3i(-9, -18, -27));
    assert_eq!(vec3i(1, 2, 3) * vec3i(10, 20, 30), vec3i(10, 40, 90));
    assert_eq!(vec3i(10, -20, 31) / vec3i(3, 3, -3), vec3i(3, -6, -10));
    assert_eq!(vec2u(5, 6) + vec2u(1, 1), vec2u(6, 7));
    assert_eq!(vec2u(5, 6) - vec2u(5, 1), vec2u(0, 5));
    assert_eq!(vec4i(1, 2, 3, 4) * vec4i(4, 3, 2, 1), vec4i(4, 6, 6, 4));
    assert_eq!(vec4u(9, 8, 7, 6) / vec4u(2, 2, 2, 2), vec4u(4, 4, 3, 3));
}

#[test]
fn operators_with_a_broadcast_scalar() {
    assert_eq!(vec3i(1, 2, 3) + 10, vec3i(11, 12, 13));
    assert_eq!(vec3i(1, 2, 3) - 10, vec3i(-9, -8, -7));
    assert_eq!(vec3i(1, 2, 3) * -2, vec3i(-2, -4, -6));
    assert_eq!(vec3i(10, -20, 31) / 3, vec3i(3, -6, 10));
    assert_eq!(vec2u(5, 6) * 3, vec2u(15, 18));
    assert_eq!(vec4i(1, 2, 3, 4) + 1, vec4i(2, 3, 4, 5));
}

#[test]
fn negation() {
    assert_eq!(-vec2i(1, -2), vec2i(-1, 2));
    assert_eq!(-vec3i(0, 5, -5), vec3i(0, -5, 5));
    assert_eq!(-vec4i(1, 2, 3, 4), vec4i(-1, -2, -3, -4));
}

#[test]
fn in_place_variants() {
    let mut v = vec3i(1, 2, 3);
    v.add_assign(vec3i(1, 1, 1));
    assert_eq!(v, vec3i(2, 3, 4));
    v.mul_assign(vec3i(2, 3, 4));
    assert_eq!(v, vec3i(4, 9, 16));
    v.sub_assign(vec3i(1, 0, 6));
    assert_eq!(v, vec3i(3, 9, 10));
    v.div_assign(vec3i(3, 2, -3));
    assert_eq!(v, vec3i(1, 4, -3));
    v.add_assign_scalar(5);
    assert_eq!(v, vec3i(6, 9, 2));
    v.sub_assign_scalar(2);
    assert_eq!(v, vec3i(4, 7, 0));
    v.mul_assign_scalar(3);
    assert_eq!(v, vec3i(12, 21, 0));
    v.div_assign_scalar(5);
    assert_eq!(v, vec3i(2, 4, 0));
    let mut u = vec2u(1, 2);
    u.add_assign_scalar(1);
    assert_eq!(u, vec2u(2, 3));
    let mut w = vec4i(1, 2, 3, 4);
    w.mul_assign(vec4i(1, 2, 3, 4));
    assert_eq!(w, vec4i(1, 4, 9, 16));
}

#[test]
fn equality_is_exact_on_every_component() {
    assert!(vec3i(1, 2, 3) == vec3i(1, 2, 3));
    assert!(vec3i(1, 2, 3) != vec3i(1, 2, 4));
    assert!(vec3i(1, 2, 3) != vec3i(0, 2, 3));
    assert!(vec2i(1, 2) != vec2i(2, 1));
    assert!(vec4u(1, 2, 3, 4) == vec4u(1, 2, 3, 4));
    assert!(vec4u(1, 2, 3, 4) != vec4u(1, 2, 3, 5));
}

#[test]
fn vectors_are_copied_freely() {
    let a = vec3i(1, 2, 3);
    let b = a;
    let c = a.clone();
    assert_eq!(a, b);
    assert_eq!(a, c);
}

#[test]
fn vec3_from_vec2_has_zero_for_z() {
    assert_eq!(Vec3::from(vec2i(4, 5)), vec3i(4, 5, 0));
    let v: Vec3<u32> = vec2u(1, 2).into();
    assert_eq!(v, vec3u(1, 2, 0));
}

#[test]
fn dot_by_dimension() {
    assert_eq!(v2::dot(vec2i(1, 2), vec2i(3, 4)), 11);
    assert_eq!(v3::dot(vec3i(1, 2, 3), vec3i(4, 5, 6)), 32);
    assert_eq!(v4::dot(vec4i(1, 2, 3, 4), vec4i(1, 1, 1, 1)), 10);
}
