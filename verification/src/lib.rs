//! Linear algebra for 2D, 3D and 4D geometry over bounded integer scalars:
//! scalar capability tiers, fixed-dimension vectors, componentwise numeric
//! operations that run alike over scalars and vectors, and closest-point
//! queries.
//!
//! Every scalar stands for an integer of a bounded range, and every contract
//! is stated over those integers. Arithmetic is exact: an operation whose
//! result the scalar type cannot hold is left out by `requires`. Division and
//! square roots round toward zero.
//!
//! Where a result has a fraction, the contract says how it is rounded and how
//! far it lies from the exact value. What no integer can hold within a stated
//! distance (a unit vector, a hermite value between 0 and 1) is not offered.
//!
//! What the numeric edge cases give:
//! - a segment of one point, and a sphere asked from its centre, give that
//!   point;
//! - the square root of a negative value is zero;
//! - an index that is not below the dimension is a contract violation of
//!   `v[i]`, and `None` from `get`;
//! - approximate equality compares the magnitude of each difference;
//! - division by zero is left out by `requires`;
//! - a matrix says itself, by `inverse_req`, when it has an inverse.

use vstd::prelude::*;
use vstd::arithmetic::div_mod::{
    lemma_div_nonincreasing, lemma_div_pos_is_pos, lemma_fundamental_div_mod, lemma_mod_bound,
};
use vstd::arithmetic::power::pow;
use vstd::std_specs::ops::MulSpec;
use crate::laws::{
    lemma_aabb_fixes_inside, lemma_clamp_within, lemma_length_zero, lemma_line_rounding,
    lemma_sphere_within_radius,
};
use crate::mat::MatInverse;
use crate::model::{
    abs_of, abs_seq, add_seq, approx_of, clamp_seq, closest_on_aabb_of, closest_on_line_of,
    closest_on_ray_of, closest_on_sphere_of, cross_of, dist2_of, distance_of, div_seq, div_trunc,
    dot_of, grow_seq,
    le_seq, lemma_div_trunc_one, lemma_div_trunc_part, lemma_div_trunc_shrinks, lemma_dot_step,
    lemma_mag2_sign, lemma_pow_nonzero, lemma_sqrt_unique, length_of, lerp_seq, line_den_of,
    line_param_of, mag2_of, max_seq, min_seq, mul_seq, near_line_point, no_zero, perp_of,
    powi_seq, sign_seq, splat_seq, sqrt_of, sqrt_seq, step_seq, sub_seq, within,
};
use crate::num::{lemma_comps_injective, zip_add, zip_div, zip_mul, zip_sub, NumberOps};
use crate::vec::{all_fit, cross_fits, fits, Number, SignedNumber, Vec2, Vec3, VecN};

/// mathematical model: what each operation means on integers and on sequences of integers
pub mod model;

/// what holds of the operations: the laws, stated and proved
pub mod laws;

/// the contract a matrix meets for the oriented-box query
pub mod mat;

/// componentwise access shared by scalars and vectors, and arithmetic written against it
pub mod num;

/// the scalar tiers as the machine integers satisfy them
pub mod scalar;

/// scalar tiers, and vectors with vec2, vec3 and vec4
pub mod vec;

verus! {

/// returns minimum of a and b
pub fn min<T: Number, V: NumberOps<T>>(a: V, b: V) -> (r: V)
    ensures
        r.comps() == min_seq(a.comps(), b.comps()),
{
    let n = V::lanes();
    let mut r = a;
    let mut i: usize = 0;
    proof {
        a.lemma_comps();
        b.lemma_comps();
    }
    while i < n
        invariant
            n == V::dim(),
            i <= n,
            a.comps().len() == n,
            b.comps().len() == n,
            r.comps().len() == n,
            forall|j: int| 0 <= j < i ==> r.comps()[j] == min_seq(a.comps(), b.comps())[j],
        decreases n - i,
    {
        let x = a.lane(i);
        let y = b.lane(i);
        r.set_lane(i, if x.less(y) { x } else { y });
        i += 1;
    }
    assert(r.comps() =~= min_seq(a.comps(), b.comps()));
    r
}

/// returns maximum of a and b
pub fn max<T: Number, V: NumberOps<T>>(a: V, b: V) -> (r: V)
    ensures
        r.comps() == max_seq(a.comps(), b.comps()),
{
    let n = V::lanes();
    let mut r = a;
    let mut i: usize = 0;
    proof {
        a.lemma_comps();
        b.lemma_comps();
    }
    while i < n
        invariant
            n == V::dim(),
            i <= n,
            a.comps().len() == n,
            b.comps().len() == n,
            r.comps().len() == n,
            forall|j: int| 0 <= j < i ==> r.comps()[j] == max_seq(a.comps(), b.comps())[j],
        decreases n - i,
    {
        let x = a.lane(i);
        let y = b.lane(i);
        r.set_lane(i, if y.less(x) { x } else { y });
        i += 1;
    }
    assert(r.comps() =~= max_seq(a.comps(), b.comps()));
    r
}

/// returns value x clamped to the range of min and max; where a lower bound
/// lies above its upper bound, the lower bound is returned
pub fn clamp<T: Number, V: NumberOps<T>>(x: V, min: V, max: V) -> (r: V)
    ensures
        r.comps() == clamp_seq(x.comps(), min.comps(), max.comps()),
        le_seq(min.comps(), max.comps()) ==> within(r.comps(), min.comps(), max.comps()),
{
    let r = crate::max(crate::min(x, max), min);
    proof {
        x.lemma_comps();
        min.lemma_comps();
        max.lemma_comps();
        assert(r.comps() =~= clamp_seq(x.comps(), min.comps(), max.comps()));
        if le_seq(min.comps(), max.comps()) {
            lemma_clamp_within(x, min, max);
        }
    }
    r
}

/// returns 1 if a > b or 0 otherwise
pub fn step<T: Number, V: NumberOps<T>>(a: V, b: V) -> (r: V)
    ensures
        r.comps() == step_seq(a.comps(), b.comps()),
{
    let n = V::lanes();
    let mut r = a;
    let mut i: usize = 0;
    proof {
        a.lemma_comps();
        b.lemma_comps();
    }
    while i < n
        invariant
            n == V::dim(),
            i <= n,
            a.comps().len() == n,
            b.comps().len() == n,
            r.comps().len() == n,
            forall|j: int| 0 <= j < i ==> r.comps()[j] == step_seq(a.comps(), b.comps())[j],
        decreases n - i,
    {
        let x = a.lane(i);
        let y = b.lane(i);
        r.set_lane(i, if y.less(x) { T::one() } else { T::zero() });
        i += 1;
    }
    assert(r.comps() =~= step_seq(a.comps(), b.comps()));
    r
}

/// returns -1 if number is negative, 1 if positive and 0 if zero
pub fn sign<T: SignedNumber, V: NumberOps<T>>(a: V) -> (r: V)
    ensures
        r.comps() == sign_seq(a.comps()),
{
    let n = V::lanes();
    let mut r = a;
    let mut i: usize = 0;
    proof {
        a.lemma_comps();
    }
    while i < n
        invariant
            n == V::dim(),
            i <= n,
            a.comps().len() == n,
            r.comps().len() == n,
            forall|j: int| 0 <= j < i ==> r.comps()[j] == sign_seq(a.comps())[j],
        decreases n - i,
    {
        let x = a.lane(i);
        let zero = T::zero();
        r.set_lane(i, if x.less(zero) { T::minus_one() } else if zero.less(x) { T::one() } else { zero });
        i += 1;
    }
    assert(r.comps() =~= sign_seq(a.comps()));
    r
}

/// return the absolute (positive) value of a
pub fn abs<T: SignedNumber, V: NumberOps<T>>(a: V) -> (r: V)
    requires
        all_fit::<T>(abs_seq(a.comps())),
    ensures
        r.comps() == abs_seq(a.comps()),
{
    let n = V::lanes();
    let mut r = a;
    let mut i: usize = 0;
    proof {
        a.lemma_comps();
    }
    while i < n
        invariant
            n == V::dim(),
            i <= n,
            a.comps().len() == n,
            r.comps().len() == n,
        all_fit::<T>(abs_seq(a.comps())),
            forall|j: int| 0 <= j < i ==> r.comps()[j] == abs_seq(a.comps())[j],
        decreases n - i,
    {
        let x = a.lane(i);
        assert(fits::<T>(abs_seq(a.comps())[i as int]));
        r.set_lane(i, if x.less(T::zero()) { x.neg() } else { x });
        i += 1;
    }
    assert(r.comps() =~= abs_seq(a.comps()));
    r
}

/// return true if every component of a is nearer than eps to the same
/// component of b: the differences are compared by their magnitude
pub fn approx<T: Number, V: NumberOps<T>>(a: V, b: V, eps: T) -> (r: bool)
    requires
        all_fit::<T>(abs_seq(sub_seq(a.comps(), b.comps()))),
    ensures
        r == approx_of(a.comps(), b.comps(), eps.val()),
{
    let n = V::lanes();
    let mut r = true;
    let mut i: usize = 0;
    proof {
        a.lemma_comps();
        b.lemma_comps();
    }
    while i < n
        invariant
            n == V::dim(),
            i <= n,
            a.comps().len() == n,
            b.comps().len() == n,
            all_fit::<T>(abs_seq(sub_seq(a.comps(), b.comps()))),
            r == forall|j: int|
                0 <= j < i ==> abs_of(#[trigger] sub_seq(a.comps(), b.comps())[j]) < eps.val(),
        decreases n - i,
    {
        let x = a.lane(i);
        let y = b.lane(i);
        assert(fits::<T>(abs_seq(sub_seq(a.comps(), b.comps()))[i as int]));
        assert(sub_seq(a.comps(), b.comps())[i as int] == x.val() - y.val());
        let d = if x.less(y) { y.sub(x) } else { x.sub(y) };
        if !d.less(eps) {
            r = false;
        }
        i += 1;
    }
    r
}

/// The square root of one scalar, rounded down; zero for a negative scalar.
fn sqrt_floor<T: Number>(n: T) -> (r: T)
    ensures
        r.val() == sqrt_of(n.val()),
{
    let zero = T::zero();
    proof {
        T::lemma_range();
        n.lemma_val();
    }
    if !zero.less(n) {
        return zero;
    }
    let one = T::one();
    let two = one.add(one);
    let mut low = zero;
    let mut high = n;
    assert(n.val() < (n.val() + 1) * (n.val() + 1)) by (nonlinear_arith)
        requires
            n.val() > 0,
    ;
    while low.less(high)
        invariant
            one.val() == 1,
            two.val() == 2,
            T::lo() <= 0,
            fits::<T>(n.val()),
            0 <= low.val() <= high.val() <= n.val(),
            low.val() * low.val() <= n.val() < (high.val() + 1) * (high.val() + 1),
        decreases high.val() - low.val(),
    {
        let gap = high.sub(low);
        let half = gap.div(two);
        let mid = high.sub(half);
        let ghost m = mid.val();
        let ghost nv = n.val();
        proof {
            lemma_div_pos_is_pos(nv, m);
            lemma_div_nonincreasing(nv, m);
            lemma_fundamental_div_mod(nv, m);
            lemma_mod_bound(nv, m);
        }
        let q = n.div(mid);
        if q.less(mid) {
            assert(nv < m * m) by (nonlinear_arith)
                requires
                    nv == m * (nv / m) + nv % m,
                    0 <= nv % m < m,
                    nv / m + 1 <= m,
            ;
            high = mid.sub(one);
        } else {
            assert(m * m <= nv) by (nonlinear_arith)
                requires
                    nv == m * (nv / m) + nv % m,
                    0 <= nv % m < m,
                    1 <= m <= nv / m,
            ;
            low = mid;
        }
    }
    proof {
        lemma_sqrt_unique(n.val(), low.val());
    }
    low
}

/// return square root of a, rounded down; zero for a negative a
pub fn sqrt<T: Number, V: NumberOps<T>>(a: V) -> (r: V)
    ensures
        r.comps() == sqrt_seq(a.comps()),
{
    let n = V::lanes();
    let mut r = a;
    let mut i: usize = 0;
    proof {
        a.lemma_comps();
    }
    while i < n
        invariant
            n == V::dim(),
            i <= n,
            a.comps().len() == n,
            r.comps().len() == n,
            forall|j: int| 0 <= j < i ==> r.comps()[j] == sqrt_seq(a.comps())[j],
        decreases n - i,
    {
        let x = a.lane(i);
        r.set_lane(i, sqrt_floor(x));
        i += 1;
    }
    assert(r.comps() =~= sqrt_seq(a.comps()));
    r
}

/// return value t linearly interpolated between edge e0 and e1
pub fn lerp<T: Number, V: NumberOps<T>>(e0: V, e1: V, t: T) -> (r: V)
    requires
        all_fit::<T>(sub_seq(e1.comps(), e0.comps())),
        all_fit::<T>(mul_seq(splat_seq(V::dim(), t.val()), sub_seq(e1.comps(), e0.comps()))),
        all_fit::<T>(lerp_seq(e0.comps(), e1.comps(), t.val())),
    ensures
        r.comps() == lerp_seq(e0.comps(), e1.comps(), t.val()),
{
    proof {
        e0.lemma_comps();
        e1.lemma_comps();
    }
    let d = zip_sub(e1, e0);
    let m = zip_mul(V::splat(t), d);
    assert(add_seq(e0.comps(), m.comps()) =~= lerp_seq(e0.comps(), e1.comps(), t.val()));
    zip_add(e0, m)
}

/// saturates value to 0-1 range, this is the same as clamp(x, 0, 1)
pub fn saturate<T: Number, V: NumberOps<T>>(x: V) -> (r: V)
    ensures
        r.comps() == clamp_seq(x.comps(), splat_seq(V::dim(), 0), splat_seq(V::dim(), 1)),
{
    clamp(x, V::splat(T::zero()), V::splat(T::one()))
}

/// The products and the running sums of a dot product are all integers that
/// `T` holds.
pub open spec fn dot_fits<T: Number>(a: Seq<int>, b: Seq<int>) -> bool {
    &&& all_fit::<T>(mul_seq(a, b))
    &&& forall|k: int| 0 <= k <= a.len() ==> fits::<T>(#[trigger] dot_of(a.take(k), b.take(k)))
}

/// vector dot product between a . b returning a scalar value
pub fn dot<T: Number, V: VecN<T>>(a: V, b: V) -> (r: T)
    requires
        dot_fits::<T>(a.comps(), b.comps()),
    ensures
        r.val() == dot_of(a.comps(), b.comps()),
{
    let n = V::len();
    let mut r = T::zero();
    let mut i: usize = 0;
    proof {
        a.lemma_comps();
        b.lemma_comps();
    }
    while i < n
        invariant
            n == V::dim(),
            i <= n,
            a.comps().len() == n,
            b.comps().len() == n,
            dot_fits::<T>(a.comps(), b.comps()),
            r.val() == dot_of(a.comps().take(i as int), b.comps().take(i as int)),
        decreases n - i,
    {
        let x = a.lane(i);
        let y = b.lane(i);
        proof {
            lemma_dot_step(a.comps(), b.comps(), i as int);
            assert(fits::<T>(mul_seq(a.comps(), b.comps())[i as int]));
            assert(fits::<T>(dot_of(a.comps().take(i + 1), b.comps().take(i + 1))));
        }
        r = r.add(x.mul(y));
        i += 1;
    }
    assert(a.comps().take(n as int) =~= a.comps());
    assert(b.comps().take(n as int) =~= b.comps());
    r
}

/// returns scalar magnitude or length of vector squared to avoid using sqrt
pub fn mag2<T: Number, V: VecN<T>>(a: V) -> (r: T)
    requires
        dot_fits::<T>(a.comps(), a.comps()),
    ensures
        r.val() == mag2_of(a.comps()),
{
    dot(a, a)
}

/// returns scalar magnitude or length of vector, rounded down
pub fn length<T: Number, V: VecN<T>>(a: V) -> (r: T)
    requires
        dot_fits::<T>(a.comps(), a.comps()),
    ensures
        r.val() == length_of(a.comps()),
        0 <= r.val(),
        r.val() == 0 <==> a == V::from_comps(splat_seq(V::dim(), 0)),
{
    proof {
        lemma_length_zero(a);
    }
    sqrt_floor(mag2(a))
}

/// returns scalar magnitude or length of vector, rounded down
pub fn mag<T: Number, V: VecN<T>>(a: V) -> (r: T)
    requires
        dot_fits::<T>(a.comps(), a.comps()),
    ensures
        r.val() == length_of(a.comps()),
        0 <= r.val(),
        r.val() == 0 <==> a == V::from_comps(splat_seq(V::dim(), 0)),
{
    length(a)
}

/// The differences of two points, and the squared length of their difference,
/// are all integers that `T` holds.
pub open spec fn dist_fits<T: Number>(a: Seq<int>, b: Seq<int>) -> bool {
    &&& all_fit::<T>(sub_seq(a, b))
    &&& dot_fits::<T>(sub_seq(a, b), sub_seq(a, b))
}

/// returns scalar squared distance between 2 points to avoid using sqrt
pub fn dist2<T: Number, V: VecN<T>>(a: V, b: V) -> (r: T)
    requires
        dist_fits::<T>(a.comps(), b.comps()),
    ensures
        r.val() == dist2_of(a.comps(), b.comps()),
{
    mag2(zip_sub(a, b))
}

/// returns scalar distance between 2 points (magnitude of the vector between the 2 points), rounded down
pub fn distance<T: Number, V: VecN<T>>(a: V, b: V) -> (r: T)
    requires
        dist_fits::<T>(a.comps(), b.comps()),
    ensures
        r.val() == distance_of(a.comps(), b.comps()),
{
    length(zip_sub(a, b))
}

/// returns scalar distance between 2 points (magnitude of the vector between the 2 points), rounded down
pub fn dist<T: Number, V: VecN<T>>(a: V, b: V) -> (r: T)
    requires
        dist_fits::<T>(a.comps(), b.comps()),
    ensures
        r.val() == distance_of(a.comps(), b.comps()),
{
    distance(a, b)
}

/// Every power of `a` up to the `e`-th is an integer that `T` holds.
pub open spec fn pow_fits<T: Number>(a: int, e: nat) -> bool {
    forall|k: nat| k <= e ==> fits::<T>(#[trigger] pow(a, k))
}

/// One scalar raised to a power that is not negative.
fn pow_scalar<T: Number>(a: T, e: u32) -> (r: T)
    requires
        pow_fits::<T>(a.val(), e as nat),
    ensures
        r.val() == pow(a.val(), e as nat),
{
    let mut r = T::one();
    let mut i: u32 = 0;
    proof {
        reveal(pow);
    }
    while i < e
        invariant
            i <= e,
            r.val() == pow(a.val(), i as nat),
            pow_fits::<T>(a.val(), e as nat),
        decreases e - i,
    {
        proof {
            reveal(pow);
            let next = pow(a.val(), (i + 1) as nat);
            assert(next == a.val() * pow(a.val(), i as nat));
            assert(r.val() * a.val() == a.val() * r.val()) by (nonlinear_arith);
            assert(fits::<T>(next));
        }
        r = r.mul(a);
        i += 1;
    }
    r
}

/// The magnitude of an exponent.
fn exponent_size(b: i32) -> (e: u32)
    ensures
        e == abs_of(b as int),
{
    if b >= 0 {
        b as u32
    } else {
        (-(b as i64)) as u32
    }
}

/// Every power that raising to `n` passes through is an integer that `T`
/// holds, and nothing is divided by zero.
pub open spec fn powi_fits<T: Number>(a: Seq<int>, n: int) -> bool {
    &&& forall|i: int| 0 <= i < a.len() ==> pow_fits::<T>(#[trigger] a[i], abs_of(n) as nat)
    &&& n < 0 ==> no_zero(a)
}

/// return a raised to the integer power b; for a negative b, one divided by a
/// raised to -b, rounded toward zero
pub fn powi<T: Number, V: NumberOps<T>>(a: V, b: i32) -> (r: V)
    requires
        powi_fits::<T>(a.comps(), b as int),
    ensures
        r.comps() == powi_seq(a.comps(), b as int),
{
    let n = V::lanes();
    let e = exponent_size(b);
    let mut r = a;
    let mut i: usize = 0;
    proof {
        a.lemma_comps();
    }
    while i < n
        invariant
            n == V::dim(),
            i <= n,
            e == abs_of(b as int),
            a.comps().len() == n,
            r.comps().len() == n,
            powi_fits::<T>(a.comps(), b as int),
            forall|j: int| 0 <= j < i ==> r.comps()[j] == powi_seq(a.comps(), b as int)[j],
        decreases n - i,
    {
        let x = a.lane(i);
        assert(pow_fits::<T>(a.comps()[i as int], abs_of(b as int) as nat));
        let p = pow_scalar(x, e);
        if b >= 0 {
            r.set_lane(i, p);
        } else {
            proof {
                lemma_pow_nonzero(x.val(), e as nat);
                lemma_div_trunc_one(p.val());
                p.lemma_val();
                T::lemma_range();
            }
            r.set_lane(i, T::one().div(p));
        }
        i += 1;
    }
    assert(r.comps() =~= powi_seq(a.comps(), b as int));
    r
}

/// return 3 dimensional vector cross product of a x b
pub fn cross<T: Number>(a: Vec3<T>, b: Vec3<T>) -> (r: Vec3<T>)
    requires
        cross_fits::<T>(a@, b@),
    ensures
        r@ == cross_of(a@, b@),
{
    crate::vec::cross(a, b)
}

/// perpendicular vector anti-clockwise rotation by 90 degrees
pub fn perp<T: SignedNumber>(a: Vec2<T>) -> (r: Vec2<T>)
    requires
        fits::<T>(-a@[1]),
    ensures
        r@ == perp_of(a@),
{
    Vec2 { x: a.y.neg(), y: a.x }
}

/// returns the closest point on the AABB defined by aabb_min and aabb_max to point p
pub fn closest_point_on_aabb<T: Number, V: VecN<T>>(aabb_min: V, aabb_max: V, p: V) -> (r: V)
    ensures
        r.comps() == closest_on_aabb_of(aabb_min.comps(), aabb_max.comps(), p.comps()),
        within(p.comps(), aabb_min.comps(), aabb_max.comps()) ==> r == p,
{
    proof {
        p.lemma_comps();
        aabb_min.lemma_comps();
    }
    let r = min(max(p, aabb_min), aabb_max);
    proof {
        if within(p.comps(), aabb_min.comps(), aabb_max.comps()) {
            lemma_aabb_fixes_inside(aabb_min, aabb_max, p);
            lemma_comps_injective(r, p);
        }
    }
    r
}

/// The difference, the projection and, where the projection is not negative,
/// the step along the ray give integers that `T` holds.
pub open spec fn ray_fits<T: Number>(r0: Seq<int>, rv: Seq<int>, p: Seq<int>) -> bool {
    let v1 = sub_seq(p, r0);
    let t = dot_of(v1, rv);
    let step = mul_seq(rv, splat_seq(rv.len(), t));
    &&& all_fit::<T>(v1)
    &&& dot_fits::<T>(v1, rv)
    &&& t >= 0 ==> all_fit::<T>(step) && all_fit::<T>(add_seq(r0, step))
}

/// returns the closest point to p on the line the ray r0 with direction rv;
/// rv is projected onto as it is, unit or not, so the result is the nearest
/// point of the ray for a direction of squared length one (`lemma_ray_nearest`)
pub fn closest_point_on_ray<T: Number, V: VecN<T>>(r0: V, rv: V, p: V) -> (r: V)
    requires
        ray_fits::<T>(r0.comps(), rv.comps(), p.comps()),
    ensures
        r.comps() == closest_on_ray_of(r0.comps(), rv.comps(), p.comps()),
{
    proof {
        r0.lemma_comps();
        rv.lemma_comps();
        p.lemma_comps();
    }
    let v1 = zip_sub(p, r0);
    let t = dot(v1, rv);
    if t.less(T::zero()) {
        r0
    } else {
        zip_add(r0, zip_mul(rv, V::splat(t)))
    }
}

/// The differences, the two dot products and, where the nearest point lies
/// between the ends, the scaled direction give integers that `T` holds.
pub open spec fn line_fits<T: Number>(l1: Seq<int>, l2: Seq<int>, p: Seq<int>) -> bool {
    let v1 = sub_seq(p, l1);
    let d = sub_seq(l2, l1);
    let n = dot_of(d, v1);
    &&& all_fit::<T>(v1)
    &&& all_fit::<T>(d)
    &&& dot_fits::<T>(d, v1)
    &&& dot_fits::<T>(d, d)
    &&& 0 < n < mag2_of(d) ==> all_fit::<T>(mul_seq(d, splat_seq(d.len(), n)))
}

/// returns the closest point on the line l1-l2 to point p, each component
/// rounded toward l1: less than one unit, in every component, from the point
/// of the segment nearest to p (`lemma_line_nearest`); a segment whose ends
/// are one point gives that point
pub fn closest_point_on_line<T: Number, V: VecN<T>>(l1: V, l2: V, p: V) -> (r: V)
    requires
        line_fits::<T>(l1.comps(), l2.comps(), p.comps()),
    ensures
        r.comps() == closest_on_line_of(l1.comps(), l2.comps(), p.comps()),
        l1 != l2 ==> near_line_point(
            r.comps(),
            l1.comps(),
            sub_seq(l2.comps(), l1.comps()),
            line_param_of(l1.comps(), l2.comps(), p.comps()),
            line_den_of(l1.comps(), l2.comps()),
        ),
{
    proof {
        l1.lemma_comps();
        l2.lemma_comps();
        p.lemma_comps();
        lemma_line_rounding(l1, l2, p);
    }
    let v1 = zip_sub(p, l1);
    let d = zip_sub(l2, l1);
    let n = dot(d, v1);
    let den = dot(d, d);
    if !T::zero().less(n) {
        l1
    } else if !n.less(den) {
        l2
    } else {
        let num = zip_mul(d, V::splat(n));
        let dens = V::splat(den);
        proof {
            num.lemma_comps();
            T::lemma_range();
            assert forall|i: int| 0 <= i < V::dim() implies fits::<T>(
                #[trigger] div_seq(num.comps(), dens.comps())[i],
            ) by {
                lemma_div_trunc_shrinks(num.comps()[i], den.val());
                assert(fits::<T>(num.comps()[i]));
            }
        }
        let q = zip_div(num, dens);
        proof {
            assert forall|i: int| 0 <= i < V::dim() implies fits::<T>(
                #[trigger] add_seq(l1.comps(), q.comps())[i],
            ) by {
                lemma_div_trunc_part(d.comps()[i], n.val(), den.val());
                assert(q.comps()[i] == div_trunc(d.comps()[i] * n.val(), den.val()));
                assert(d.comps()[i] == l2.comps()[i] - l1.comps()[i]);
                assert(fits::<T>(l1.comps()[i]));
                assert(fits::<T>(l2.comps()[i]));
            }
        }
        zip_add(l1, q)
    }
}

/// The difference, its squared length and, where p is not the centre, the
/// scaled difference, its squares and the result give integers that `T` holds.
pub open spec fn sphere_fits<T: Number>(s: Seq<int>, r: int, p: Seq<int>) -> bool {
    let d = sub_seq(p, s);
    let e = mul_seq(d, splat_seq(d.len(), r));
    &&& all_fit::<T>(d)
    &&& dot_fits::<T>(d, d)
    &&& mag2_of(d) != 0 ==> {
        &&& all_fit::<T>(e)
        &&& all_fit::<T>(mul_seq(e, e))
        &&& all_fit::<T>(closest_on_sphere_of(s, r, p))
    }
}

/// returns the closest point from p on sphere or circle s with radius r, each
/// component rounded toward the centre: every component of the step from the
/// centre is that of `(p - s) * r / |p - s|`, rounded toward zero
/// (`lemma_sphere_rounding`), so the result lies no farther from the centre
/// than r and, made one unit longer in every component, farther; the centre
/// itself where p is the centre
pub fn closest_point_on_sphere<T: Number, V: VecN<T>>(s: V, r: T, p: V) -> (c: V)
    requires
        sphere_fits::<T>(s.comps(), r.val(), p.comps()),
    ensures
        c.comps() == closest_on_sphere_of(s.comps(), r.val(), p.comps()),
        dist2_of(c.comps(), s.comps()) <= r.val() * r.val(),
        p != s ==> r.val() * r.val() < mag2_of(grow_seq(sub_seq(c.comps(), s.comps()))),
{
    proof {
        s.lemma_comps();
        p.lemma_comps();
        lemma_sphere_within_radius(s, r, p);
    }
    let zero = T::zero();
    let d = zip_sub(p, s);
    let m = mag2(d);
    if m.equal(zero) {
        return s;
    }
    proof {
        lemma_mag2_sign(d.comps());
        d.lemma_comps();
    }
    let n = V::lanes();
    let mut c = s;
    let mut i: usize = 0;
    while i < n
        invariant
            n == V::dim(),
            i <= n,
            zero.val() == 0,
            s.comps().len() == n,
            p.comps().len() == n,
            d.comps() == sub_seq(p.comps(), s.comps()),
            c.comps().len() == n,
            m.val() == mag2_of(d.comps()),
            0 < m.val(),
            sphere_fits::<T>(s.comps(), r.val(), p.comps()),
            forall|j: int|
                0 <= j < i ==> c.comps()[j] == closest_on_sphere_of(
                    s.comps(),
                    r.val(),
                    p.comps(),
                )[j],
        decreases n - i,
    {
        let x = d.lane(i);
        let ghost es = mul_seq(d.comps(), splat_seq(d.comps().len(), r.val()));
        proof {
            assert(fits::<T>(es[i as int]));
            assert(fits::<T>(mul_seq(es, es)[i as int]));
            assert(fits::<T>(closest_on_sphere_of(s.comps(), r.val(), p.comps())[i as int]));
        }
        let e = x.mul(r);
        let sq = e.mul(e);
        proof {
            assert(0 <= e.val() * e.val()) by (nonlinear_arith);
            lemma_div_trunc_shrinks(sq.val(), m.val());
            T::lemma_range();
        }
        let root = sqrt_floor(sq.div(m));
        let y = s.lane(i);
        c.set_lane(i, if e.less(zero) { y.sub(root) } else { y.add(root) });
        i += 1;
    }
    assert(c.comps() =~= closest_on_sphere_of(s.comps(), r.val(), p.comps()));
    c
}

/// The point of the box `[-1, 1]` in every dimension nearest to `p`.
pub open spec fn closest_on_unit_box<T: Number, V: VecN<T>>(p: V) -> V {
    V::from_comps(
        closest_on_aabb_of(splat_seq(V::dim(), -1), splat_seq(V::dim(), 1), p.comps()),
    )
}

/// returns the closest point to point p on the obb defined by mat which will
/// transform an aabb centred at 0 with extents -1 to 1 into an obb: p is taken
/// into the box's own space by the inverse of mat, the closest point on the
/// box is taken there, and mat takes it back; what the matrix's inverse and
/// product are is the matrix's to say
pub fn closest_point_on_obb<
    T: SignedNumber,
    V: VecN<T>,
    M: MatInverse<T> + std::ops::Mul<V, Output = V>,
>(mat: M, p: V) -> (r: V)
    requires
        M::obeys_mul_spec(),
        mat.inverse_req(),
        mat.inverse_spec().mul_req(p),
        mat.mul_req(closest_on_unit_box::<T, V>(mat.inverse_spec().mul_spec(p))),
    ensures
        r == mat.mul_spec(closest_on_unit_box::<T, V>(mat.inverse_spec().mul_spec(p))),
{
    let invm = M::inverse(&mat);
    let tp = invm * p;
    let cp = closest_point_on_aabb(V::splat(T::minus_one()), V::splat(T::one()), tp);
    proof {
        cp.lemma_comps();
    }
    mat * cp
}

} // verus!
