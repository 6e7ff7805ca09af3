use vstd::prelude::*;
use vstd::arithmetic::power::pow;
use vstd::arithmetic::div_mod::{
    lemma_div_by_multiple, lemma_div_is_ordered, lemma_div_nonincreasing, lemma_div_pos_is_pos,
    lemma_fundamental_div_mod, lemma_mod_bound,
};
use vstd::arithmetic::mul::{lemma_mul_inequality, lemma_mul_nonnegative};

verus! {

/// The smaller of two integers.
pub open spec fn min_of(a: int, b: int) -> int {
    if a < b {
        a
    } else {
        b
    }
}

/// The larger of two integers.
pub open spec fn max_of(a: int, b: int) -> int {
    if a > b {
        a
    } else {
        b
    }
}

/// `x` brought into `[min, max]`; where `min > max` the lower bound wins.
pub open spec fn clamp_of(x: int, min: int, max: int) -> int {
    max_of(min_of(x, max), min)
}

/// 1 where `a > b`, else 0.
pub open spec fn step_of(a: int, b: int) -> int {
    if a > b {
        1
    } else {
        0
    }
}

/// -1, 0 or 1 as `a` is negative, zero or positive.
pub open spec fn sign_of(a: int) -> int {
    if a < 0 {
        -1
    } else if a > 0 {
        1
    } else {
        0
    }
}

/// The magnitude of `a`.
pub open spec fn abs_of(a: int) -> int {
    if a < 0 {
        -a
    } else {
        a
    }
}

/// The quotient of `a` by `b` rounded toward zero, as machine integers divide.
/// Unspecified for `b == 0`.
pub open spec fn div_trunc(a: int, b: int) -> int {
    if a >= 0 {
        a / b
    } else {
        -((-a) / b)
    }
}

/// Dividing by a positive integer brings a value no further from zero, and not
/// across it.
pub proof fn lemma_div_trunc_shrinks(x: int, d: int)
    requires
        1 <= d,
    ensures
        x >= 0 ==> 0 <= div_trunc(x, d) <= x,
        x < 0 ==> x <= div_trunc(x, d) <= 0,
{
    if x >= 0 {
        lemma_div_pos_is_pos(x, d);
        lemma_div_nonincreasing(x, d);
    } else {
        lemma_div_pos_is_pos(-x, d);
        lemma_div_nonincreasing(-x, d);
    }
}

/// A quotient rounded toward zero, multiplied back, misses the dividend by
/// less than the divisor, and on the side of zero.
pub proof fn lemma_div_trunc_error(x: int, d: int)
    requires
        1 <= d,
    ensures
        -d < x - d * div_trunc(x, d) < d,
        x >= 0 ==> 0 <= x - d * div_trunc(x, d),
        x <= 0 ==> x - d * div_trunc(x, d) <= 0,
{
    if x >= 0 {
        lemma_fundamental_div_mod(x, d);
        lemma_mod_bound(x, d);
    } else {
        let q = (-x) / d;
        lemma_fundamental_div_mod(-x, d);
        lemma_mod_bound(-x, d);
        assert(d * (-q) == -(d * q)) by (nonlinear_arith);
    }
}

/// A part `n` of `den` parts of `x`, rounded toward zero, lies between zero
/// and `x`.
pub proof fn lemma_div_trunc_part(x: int, n: int, den: int)
    requires
        0 <= n <= den,
        1 <= den,
    ensures
        x >= 0 ==> 0 <= div_trunc(x * n, den) <= x,
        x <= 0 ==> x <= div_trunc(x * n, den) <= 0,
{
    if x >= 0 {
        lemma_mul_nonnegative(x, n);
        lemma_mul_inequality(n, den, x);
        assert(x * n == n * x && x * den == den * x) by (nonlinear_arith);
        lemma_div_pos_is_pos(x * n, den);
        lemma_div_is_ordered(x * n, x * den, den);
        lemma_div_by_multiple(x, den);
    } else {
        let y = -x;
        lemma_mul_nonnegative(y, n);
        lemma_mul_inequality(n, den, y);
        assert(y * n == n * y && y * den == den * y && x * n == -(y * n)) by (nonlinear_arith)
            requires
                y == -x,
        ;
        lemma_div_pos_is_pos(y * n, den);
        lemma_div_is_ordered(y * n, y * den, den);
        lemma_div_by_multiple(y, den);
        if x * n == 0 {
            assert(y * n == 0);
        }
    }
}

/// `r` is the square root of `n` rounded down.
pub open spec fn is_sqrt(n: int, r: int) -> bool {
    0 <= r && r * r <= n < (r + 1) * (r + 1)
}

/// The square root of `n` rounded down; zero for a negative `n`.
pub open spec fn sqrt_of(n: int) -> int {
    if n <= 0 {
        0
    } else {
        choose|r: int| is_sqrt(n, r)
    }
}

/// Every non-negative integer has a rounded-down square root.
pub proof fn lemma_sqrt_exists(n: int)
    requires
        0 <= n,
    ensures
        is_sqrt(n, sqrt_of(n)),
    decreases n,
{
    if n == 0 {
        assert(is_sqrt(0, 0));
    } else {
        lemma_sqrt_exists(n - 1);
        let r = sqrt_of(n - 1);
        if (r + 1) * (r + 1) <= n {
            assert(n < (r + 2) * (r + 2)) by (nonlinear_arith)
                requires
                    n - 1 < (r + 1) * (r + 1),
                    0 <= r,
            ;
            assert(is_sqrt(n, r + 1));
        } else {
            assert(is_sqrt(n, r));
        }
    }
}

/// The rounded-down square root is unique.
pub proof fn lemma_sqrt_unique(n: int, r: int)
    requires
        is_sqrt(n, r),
    ensures
        r == sqrt_of(n),
{
    assert(0 <= n) by (nonlinear_arith)
        requires
            r * r <= n,
    ;
    lemma_sqrt_exists(n);
    let s = sqrt_of(n);
    if r < s {
        assert((r + 1) * (r + 1) <= s * s) by (nonlinear_arith)
            requires
                0 <= r,
                r + 1 <= s,
        ;
    } else if s < r {
        assert((s + 1) * (s + 1) <= r * r) by (nonlinear_arith)
            requires
                0 <= s,
                s + 1 <= r,
        ;
    }
}

/// Linear interpolation from `e0` to `e1` by `t`.
pub open spec fn lerp_of(e0: int, e1: int, t: int) -> int {
    e0 + t * (e1 - e0)
}

/// `a` raised to the integer power `n`; for a negative `n`, one divided by
/// `a` raised to `-n`, rounded toward zero.
pub open spec fn powi_of(a: int, n: int) -> int {
    if n >= 0 {
        pow(a, n as nat)
    } else {
        div_trunc(1, pow(a, (-n) as nat))
    }
}

/// A power of a nonzero integer is nonzero.
pub proof fn lemma_pow_nonzero(a: int, e: nat)
    requires
        a != 0,
    ensures
        pow(a, e) != 0,
    decreases e,
{
    reveal(pow);
    if e > 0 {
        lemma_pow_nonzero(a, (e - 1) as nat);
        let q = pow(a, (e - 1) as nat);
        assert(a * q != 0) by (nonlinear_arith)
            requires
                a != 0,
                q != 0,
        ;
    }
}

/// One divided by a nonzero integer is -1, 0 or 1.
pub proof fn lemma_div_trunc_one(d: int)
    requires
        d != 0,
    ensures
        d == 1 ==> div_trunc(1, d) == 1,
        d == -1 ==> div_trunc(1, d) == -1,
        d != 1 && d != -1 ==> div_trunc(1, d) == 0,
{
    assert(d == 1 ==> 1int / d == 1);
    assert(d == -1 ==> 1int / d == -1) by (nonlinear_arith);
    assert(d > 1 ==> 1int / d == 0) by (nonlinear_arith);
    assert(d < -1 ==> 1int / d == 0) by (nonlinear_arith);
}

/// `n` copies of `s`.
pub open spec fn splat_seq(n: nat, s: int) -> Seq<int> {
    Seq::new(n, |i: int| s)
}

/// Componentwise sum.
pub open spec fn add_seq(a: Seq<int>, b: Seq<int>) -> Seq<int> {
    Seq::new(a.len(), |i: int| a[i] + b[i])
}

/// Componentwise difference.
pub open spec fn sub_seq(a: Seq<int>, b: Seq<int>) -> Seq<int> {
    Seq::new(a.len(), |i: int| a[i] - b[i])
}

/// Componentwise product.
pub open spec fn mul_seq(a: Seq<int>, b: Seq<int>) -> Seq<int> {
    Seq::new(a.len(), |i: int| a[i] * b[i])
}

/// Componentwise quotient, rounded toward zero.
pub open spec fn div_seq(a: Seq<int>, b: Seq<int>) -> Seq<int> {
    Seq::new(a.len(), |i: int| div_trunc(a[i], b[i]))
}

/// Componentwise negation.
pub open spec fn neg_seq(a: Seq<int>) -> Seq<int> {
    Seq::new(a.len(), |i: int| -a[i])
}

/// No component is zero.
pub open spec fn no_zero(a: Seq<int>) -> bool {
    forall|i: int| 0 <= i < a.len() ==> #[trigger] a[i] != 0
}

/// Every component is zero.
pub open spec fn all_zero(a: Seq<int>) -> bool {
    forall|i: int| 0 <= i < a.len() ==> #[trigger] a[i] == 0
}

/// Componentwise minimum.
pub open spec fn min_seq(a: Seq<int>, b: Seq<int>) -> Seq<int> {
    Seq::new(a.len(), |i: int| min_of(a[i], b[i]))
}

/// Componentwise maximum.
pub open spec fn max_seq(a: Seq<int>, b: Seq<int>) -> Seq<int> {
    Seq::new(a.len(), |i: int| max_of(a[i], b[i]))
}

/// Componentwise clamp.
pub open spec fn clamp_seq(x: Seq<int>, min: Seq<int>, max: Seq<int>) -> Seq<int> {
    Seq::new(x.len(), |i: int| clamp_of(x[i], min[i], max[i]))
}

/// Componentwise step.
pub open spec fn step_seq(a: Seq<int>, b: Seq<int>) -> Seq<int> {
    Seq::new(a.len(), |i: int| step_of(a[i], b[i]))
}

/// Componentwise sign.
pub open spec fn sign_seq(a: Seq<int>) -> Seq<int> {
    Seq::new(a.len(), |i: int| sign_of(a[i]))
}

/// Componentwise magnitude.
pub open spec fn abs_seq(a: Seq<int>) -> Seq<int> {
    Seq::new(a.len(), |i: int| abs_of(a[i]))
}

/// Componentwise rounded-down square root.
pub open spec fn sqrt_seq(a: Seq<int>) -> Seq<int> {
    Seq::new(a.len(), |i: int| sqrt_of(a[i]))
}

/// Componentwise linear interpolation by one scalar `t`.
pub open spec fn lerp_seq(e0: Seq<int>, e1: Seq<int>, t: int) -> Seq<int> {
    Seq::new(e0.len(), |i: int| lerp_of(e0[i], e1[i], t))
}

/// Componentwise integer power.
pub open spec fn powi_seq(a: Seq<int>, n: int) -> Seq<int> {
    Seq::new(a.len(), |i: int| powi_of(a[i], n))
}

/// Every component of `a` is nearer than `eps` to the same component of `b`.
pub open spec fn approx_of(a: Seq<int>, b: Seq<int>, eps: int) -> bool {
    forall|i: int| 0 <= i < a.len() ==> abs_of(#[trigger] sub_seq(a, b)[i]) < eps
}

/// The dot product: the sum of the products of paired components.
pub open spec fn dot_of(a: Seq<int>, b: Seq<int>) -> int
    decreases a.len(),
{
    if a.len() == 0 {
        0
    } else {
        dot_of(a.drop_last(), b.drop_last()) + a.last() * b.last()
    }
}

/// The dot product of the first `k + 1` components adds one product to that
/// of the first `k`.
pub proof fn lemma_dot_step(a: Seq<int>, b: Seq<int>, k: int)
    requires
        0 <= k < a.len(),
        k < b.len(),
    ensures
        dot_of(a.take(k + 1), b.take(k + 1)) == dot_of(a.take(k), b.take(k)) + a[k] * b[k],
{
    assert(a.take(k + 1).drop_last() =~= a.take(k));
    assert(b.take(k + 1).drop_last() =~= b.take(k));
}

/// The dot product of 2-dimensional vectors, written out.
pub proof fn lemma_dot_of_2(a: Seq<int>, b: Seq<int>)
    requires
        a.len() == 2,
        b.len() == 2,
    ensures
        dot_of(a, b) == a[0] * b[0] + a[1] * b[1],
{
    reveal_with_fuel(dot_of, 3);
}

/// The dot product of 3-dimensional vectors, written out.
pub proof fn lemma_dot_of_3(a: Seq<int>, b: Seq<int>)
    requires
        a.len() == 3,
        b.len() == 3,
    ensures
        dot_of(a, b) == a[0] * b[0] + a[1] * b[1] + a[2] * b[2],
{
    lemma_dot_of_2(a.drop_last(), b.drop_last());
}

/// The dot product of 4-dimensional vectors, written out.
pub proof fn lemma_dot_of_4(a: Seq<int>, b: Seq<int>)
    requires
        a.len() == 4,
        b.len() == 4,
    ensures
        dot_of(a, b) == a[0] * b[0] + a[1] * b[1] + a[2] * b[2] + a[3] * b[3],
{
    lemma_dot_of_3(a.drop_last(), b.drop_last());
}

/// The squared magnitude.
pub open spec fn mag2_of(a: Seq<int>) -> int {
    dot_of(a, a)
}

/// The magnitude, rounded down.
pub open spec fn length_of(a: Seq<int>) -> int {
    sqrt_of(mag2_of(a))
}

/// The squared distance between two points.
pub open spec fn dist2_of(a: Seq<int>, b: Seq<int>) -> int {
    mag2_of(sub_seq(a, b))
}

/// The distance between two points, rounded down.
pub open spec fn distance_of(a: Seq<int>, b: Seq<int>) -> int {
    length_of(sub_seq(a, b))
}

/// The cross product of two 3-dimensional vectors.
pub open spec fn cross_of(a: Seq<int>, b: Seq<int>) -> Seq<int> {
    seq![a[1] * b[2] - a[2] * b[1], a[2] * b[0] - a[0] * b[2], a[0] * b[1] - a[1] * b[0]]
}

/// A 2-dimensional vector turned counter-clockwise by a quarter turn.
pub open spec fn perp_of(a: Seq<int>) -> Seq<int> {
    seq![-a[1], a[0]]
}

/// The point of the box `[min, max]` nearest to `p`.
pub open spec fn closest_on_aabb_of(min: Seq<int>, max: Seq<int>, p: Seq<int>) -> Seq<int> {
    min_seq(max_seq(p, min), max)
}

/// The projection of `p - r0` onto the direction `rv`, which need not be a unit.
pub open spec fn ray_param_of(r0: Seq<int>, rv: Seq<int>, p: Seq<int>) -> int {
    dot_of(sub_seq(p, r0), rv)
}

/// The point of the ray from `r0` along `rv` that the projection of `p` selects:
/// `r0` where the projection is negative, else `r0 + rv * t`.
pub open spec fn closest_on_ray_of(r0: Seq<int>, rv: Seq<int>, p: Seq<int>) -> Seq<int> {
    let t = ray_param_of(r0, rv, p);
    if t < 0 {
        r0
    } else {
        add_seq(r0, mul_seq(rv, splat_seq(rv.len(), t)))
    }
}

/// The projection of `p - l1` onto the segment from `l1` to `l2`, in parts of
/// which the whole segment has `line_den_of`.
pub open spec fn line_num_of(l1: Seq<int>, l2: Seq<int>, p: Seq<int>) -> int {
    dot_of(sub_seq(l2, l1), sub_seq(p, l1))
}

/// The squared length of the segment from `l1` to `l2`.
pub open spec fn line_den_of(l1: Seq<int>, l2: Seq<int>) -> int {
    mag2_of(sub_seq(l2, l1))
}

/// Where on the segment the point nearest to `p` lies, in the same parts: 0 at
/// `l1`, `line_den_of` at `l2`.
pub open spec fn line_param_of(l1: Seq<int>, l2: Seq<int>, p: Seq<int>) -> int {
    clamp_of(line_num_of(l1, l2, p), 0, line_den_of(l1, l2))
}

/// The point of the segment from `l1` to `l2` nearest to `p`, each component
/// rounded toward `l1`: `l1` where the projection is not positive, `l2` where
/// it reaches the whole segment, else `l1 + (l2 - l1) * n / den`.
pub open spec fn closest_on_line_of(l1: Seq<int>, l2: Seq<int>, p: Seq<int>) -> Seq<int> {
    let d = sub_seq(l2, l1);
    let n = line_num_of(l1, l2, p);
    let den = line_den_of(l1, l2);
    if n <= 0 {
        l1
    } else if n >= den {
        l2
    } else {
        add_seq(l1, div_seq(mul_seq(d, splat_seq(d.len(), n)), splat_seq(d.len(), den)))
    }
}

/// Every component of `r` is less than one unit from the same component of
/// the point `l1 + d * k / den`.
pub open spec fn near_line_point(r: Seq<int>, l1: Seq<int>, d: Seq<int>, k: int, den: int) -> bool {
    forall|i: int| 0 <= i < r.len() ==> abs_of(den * (#[trigger] r[i] - l1[i]) - k * d[i]) < den
}

/// One component of the step from the centre of a sphere to its surface: the
/// component `d` of a direction of squared length `m`, scaled to the radius
/// `r`, rounded toward zero.
pub open spec fn sphere_offset_of(d: int, r: int, m: int) -> int {
    let e = d * r;
    if e < 0 {
        -sqrt_of((e * e) / m)
    } else {
        sqrt_of((e * e) / m)
    }
}

/// The point at distance `r` from the centre `s` in the direction of `p`, each
/// component rounded toward the centre; `s` itself where `p` is the centre.
pub open spec fn closest_on_sphere_of(s: Seq<int>, r: int, p: Seq<int>) -> Seq<int> {
    let d = sub_seq(p, s);
    let m = mag2_of(d);
    if m == 0 {
        s
    } else {
        Seq::new(s.len(), |i: int| s[i] + sphere_offset_of(d[i], r, m))
    }
}

/// Every component of `c` made one unit longer.
pub open spec fn grow_seq(c: Seq<int>) -> Seq<int> {
    Seq::new(c.len(), |i: int| abs_of(c[i]) + 1)
}

/// `x` times `u` less `y` times `w`, componentwise.
pub open spec fn comb_seq(u: Seq<int>, w: Seq<int>, x: int, y: int) -> Seq<int> {
    Seq::new(u.len(), |i: int| x * u[i] - y * w[i])
}

/// Every component of `x` lies between the same components of `min` and `max`.
pub open spec fn within(x: Seq<int>, min: Seq<int>, max: Seq<int>) -> bool {
    forall|i: int| 0 <= i < x.len() ==> min[i] <= #[trigger] x[i] <= max[i]
}

/// No component of `a` lies above the same component of `b`.
pub open spec fn le_seq(a: Seq<int>, b: Seq<int>) -> bool {
    forall|i: int| 0 <= i < a.len() ==> #[trigger] a[i] <= b[i]
}

/// The dot product does not depend on the order of its arguments.
pub proof fn lemma_dot_commutative(a: Seq<int>, b: Seq<int>)
    requires
        a.len() == b.len(),
    ensures
        dot_of(a, b) == dot_of(b, a),
    decreases a.len(),
{
    if a.len() > 0 {
        lemma_dot_commutative(a.drop_last(), b.drop_last());
        assert(a.last() * b.last() == b.last() * a.last()) by (nonlinear_arith);
    }
}

/// A squared magnitude is not negative, is zero for the zero vector alone,
/// and is no less than the square of any component.
pub proof fn lemma_mag2_sign(a: Seq<int>)
    ensures
        0 <= mag2_of(a),
        mag2_of(a) == 0 <==> all_zero(a),
        forall|i: int| 0 <= i < a.len() ==> #[trigger] a[i] * a[i] <= mag2_of(a),
    decreases a.len(),
{
    if a.len() > 0 {
        let h = a.drop_last();
        let x = a.last();
        lemma_mag2_sign(h);
        assert(x * x >= 0 && (x * x == 0 <==> x == 0)) by (nonlinear_arith);
        if all_zero(a) {
            assert forall|i: int| 0 <= i < h.len() implies #[trigger] h[i] == 0 by {
                assert(a[i] == 0);
            }
            assert(a[a.len() - 1] == 0);
        }
        if all_zero(h) && x == 0 {
            assert forall|i: int| 0 <= i < a.len() implies #[trigger] a[i] == 0 by {
                if i < h.len() {
                    assert(h[i] == 0);
                }
            }
        }
        assert forall|i: int| 0 <= i < a.len() implies #[trigger] a[i] * a[i] <= mag2_of(a) by {
            if i < h.len() {
                assert(h[i] * h[i] <= mag2_of(h));
            }
        }
    }
}

/// A vector none of whose components is longer than the same component of
/// another has no greater squared magnitude.
pub proof fn lemma_mag2_monotone(a: Seq<int>, b: Seq<int>)
    requires
        a.len() == b.len(),
        forall|i: int| 0 <= i < a.len() ==> abs_of(#[trigger] a[i]) <= abs_of(b[i]),
    ensures
        mag2_of(a) <= mag2_of(b),
    decreases a.len(),
{
    if a.len() > 0 {
        let ha = a.drop_last();
        let hb = b.drop_last();
        assert forall|i: int| 0 <= i < ha.len() implies abs_of(#[trigger] ha[i]) <= abs_of(
            hb[i],
        ) by {
            assert(abs_of(a[i]) <= abs_of(b[i]));
        }
        lemma_mag2_monotone(ha, hb);
        let x = a.last();
        let y = b.last();
        let m = abs_of(y);
        assert(abs_of(a[a.len() - 1]) <= abs_of(b[a.len() - 1]));
        assert(x * x <= y * y) by (nonlinear_arith)
            requires
                -m <= x <= m,
                y == m || y == -m,
        ;
    }
}

/// A rounded-down square root is not negative, and is zero for an integer
/// below one alone.
pub proof fn lemma_sqrt_sign(n: int)
    ensures
        0 <= sqrt_of(n),
        sqrt_of(n) == 0 <==> n <= 0,
{
    if n > 0 {
        lemma_sqrt_exists(n);
    }
}

/// The squared distance does not depend on the order of the points.
pub proof fn lemma_dist2_symmetric(a: Seq<int>, b: Seq<int>)
    requires
        a.len() == b.len(),
    ensures
        dist2_of(a, b) == dist2_of(b, a),
    decreases a.len(),
{
    let d = sub_seq(a, b);
    let e = sub_seq(b, a);
    if a.len() > 0 {
        lemma_dist2_symmetric(a.drop_last(), b.drop_last());
        assert(d.drop_last() =~= sub_seq(a.drop_last(), b.drop_last()));
        assert(e.drop_last() =~= sub_seq(b.drop_last(), a.drop_last()));
        let x = a.last() - b.last();
        assert(d.last() == x && e.last() == -x);
        assert(x * x == (-x) * (-x)) by (nonlinear_arith);
    }
}

/// Multiplication spreads over a sum and over a difference.
proof fn lemma_mul_spread(x: int, a: int, b: int)
    ensures
        x * (a + b) == x * a + x * b,
        x * (a - b) == x * a - x * b,
{
    assert(x * (a + b) == x * a + x * b) by (nonlinear_arith);
    assert(x * (a - b) == x * a - x * b) by (nonlinear_arith);
}

/// A product of three may be taken in any grouping and order.
proof fn lemma_mul_regroup(x: int, y: int, z: int)
    ensures
        x * (y * z) == (x * y) * z,
        y * (x * z) == (x * y) * z,
        (x * z) * y == (x * y) * z,
        x * y == y * x,
{
    assert(x * (y * z) == (x * y) * z) by (nonlinear_arith);
    assert(y * (x * z) == (x * y) * z) by (nonlinear_arith);
    assert((x * z) * y == (x * y) * z) by (nonlinear_arith);
    assert(x * y == y * x) by (nonlinear_arith);
}

/// The dot product of `x * u - y * w` with `z`, by those of `u` and of `w`.
pub proof fn lemma_dot_comb(u: Seq<int>, w: Seq<int>, z: Seq<int>, x: int, y: int)
    requires
        u.len() == w.len(),
        u.len() == z.len(),
    ensures
        dot_of(comb_seq(u, w, x, y), z) == x * dot_of(u, z) - y * dot_of(w, z),
    decreases u.len(),
{
    let c = comb_seq(u, w, x, y);
    if u.len() > 0 {
        let hu = u.drop_last();
        let hw = w.drop_last();
        let hz = z.drop_last();
        let u0 = u.last();
        let w0 = w.last();
        let z0 = z.last();
        lemma_dot_comb(hu, hw, hz, x, y);
        assert(c.drop_last() =~= comb_seq(hu, hw, x, y));
        assert(c.last() == x * u0 - y * w0);
        assert((x * u0 - y * w0) * z0 == x * (u0 * z0) - y * (w0 * z0)) by (nonlinear_arith);
        lemma_mul_spread(x, dot_of(hu, hz), u0 * z0);
        lemma_mul_spread(y, dot_of(hw, hz), w0 * z0);
    } else {
        assert(x * dot_of(u, z) == 0 && y * dot_of(w, z) == 0) by (nonlinear_arith)
            requires
                dot_of(u, z) == 0,
                dot_of(w, z) == 0,
        ;
    }
}

/// The squared magnitude of `x * u - y * w`, by the squared magnitudes and the
/// dot product of `u` and `w`.
pub proof fn lemma_mag2_comb(u: Seq<int>, w: Seq<int>, x: int, y: int)
    requires
        u.len() == w.len(),
    ensures
        mag2_of(comb_seq(u, w, x, y)) == (x * x) * mag2_of(u) - 2 * ((x * y) * dot_of(u, w)) + (y
            * y) * mag2_of(w),
{
    let c = comb_seq(u, w, x, y);
    let uu = mag2_of(u);
    let uw = dot_of(u, w);
    let ww = mag2_of(w);
    lemma_dot_comb(u, w, c, x, y);
    lemma_dot_commutative(u, c);
    lemma_dot_commutative(w, c);
    lemma_dot_comb(u, w, u, x, y);
    lemma_dot_comb(u, w, w, x, y);
    lemma_dot_commutative(w, u);
    // mag2(c) == x * (x * uu - y * uw) - y * (x * uw - y * ww)
    lemma_mul_spread(x, x * uu, y * uw);
    lemma_mul_spread(y, x * uw, y * ww);
    lemma_mul_regroup(x, x, uu);
    lemma_mul_regroup(x, y, uw);
    lemma_mul_regroup(y, y, ww);
}

/// `x` times the offset `b * v - a * d` is `b` times the offset
/// `x * v - k * d` and `b * k - a * x` times `d`; so stand their squared
/// magnitudes.
pub proof fn lemma_offset_split(v: Seq<int>, d: Seq<int>, x: int, k: int, b: int, a: int)
    requires
        v.len() == d.len(),
    ensures
        (x * x) * mag2_of(comb_seq(v, d, b, a)) == (b * b) * mag2_of(comb_seq(v, d, x, k)) + 2 * ((b
            * (b * k - a * x)) * (x * dot_of(v, d) - k * mag2_of(d))) + ((b * k - a * x) * (b * k
            - a * x)) * mag2_of(d),
{
    let c = b * k - a * x;
    let near = comb_seq(v, d, x, k);
    let other = comb_seq(v, d, b, a);
    let left = comb_seq(other, other, x, 0);
    let right = comb_seq(near, d, b, -c);
    assert forall|i: int| 0 <= i < v.len() implies left[i] == right[i] by {
        let vi = v[i];
        let di = d[i];
        lemma_mul_spread(x, b * vi, a * di);
        lemma_mul_spread(b, x * vi, k * di);
        lemma_mul_regroup(x, b, vi);
        lemma_mul_regroup(x, a, di);
        lemma_mul_regroup(b, k, di);
        lemma_mul_regroup(a, x, di);
        assert((-c) * di == (a * x) * di - (b * k) * di) by (nonlinear_arith)
            requires
                c == b * k - a * x,
        ;
        assert(0 * other[i] == 0);
    }
    assert(left =~= right);
    lemma_mag2_comb(other, other, x, 0);
    lemma_mag2_comb(near, d, b, -c);
    lemma_dot_comb(v, d, d, x, k);
    assert((x * 0) * dot_of(other, other) == 0 && (0 * 0) * mag2_of(other) == 0);
    assert(b * (-c) == -(b * c) && (-c) * (-c) == c * c) by (nonlinear_arith);
    let t = dot_of(near, d);
    assert((-(b * c)) * t == -((b * c) * t)) by (nonlinear_arith);
}

/// Of the points `d * a / b` with `0 <= a <= b`, none is nearer to `v` than
/// `d * k / den`, where `den` is the squared length of `d` and `k` the
/// projection of `v` onto `d`, brought into `[0, den]`. Both offsets are
/// scaled to whole numbers: by `den` on the left, by `b` on the right.
pub proof fn lemma_projection_nearest(v: Seq<int>, d: Seq<int>, a: int, b: int)
    requires
        v.len() == d.len(),
        0 < mag2_of(d),
        0 <= a <= b,
        0 < b,
    ensures
        (b * b) * mag2_of(comb_seq(v, d, mag2_of(d), clamp_of(dot_of(d, v), 0, mag2_of(d))))
            <= (mag2_of(d) * mag2_of(d)) * mag2_of(comb_seq(v, d, b, a)),
{
    let den = mag2_of(d);
    let n = dot_of(d, v);
    let k = clamp_of(n, 0, den);
    let c = b * k - a * den;
    let slope = den * n - k * den;
    lemma_dot_commutative(d, v);
    lemma_offset_split(v, d, den, k, b, a);
    assert(0 <= (c * c) * den) by (nonlinear_arith)
        requires
            0 < den,
    ;
    if n < 0 {
        assert(0 <= (b * c) * slope) by (nonlinear_arith)
            requires
                k == 0,
                c == b * k - a * den,
                slope == den * n - k * den,
                0 < den,
                n < 0,
                0 <= a,
                0 < b,
        ;
    } else if n > den {
        assert(0 <= (b * c) * slope) by (nonlinear_arith)
            requires
                k == den,
                c == b * k - a * den,
                slope == den * n - k * den,
                0 < den < n,
                0 <= a <= b,
                0 < b,
        ;
    } else {
        assert((b * c) * slope == 0) by (nonlinear_arith)
            requires
                k == n,
                slope == den * n - k * den,
        ;
    }
}

/// Of the points `rv * a / b` with `0 <= a`, for a direction `rv` of squared
/// length one, none is nearer to `v` than `rv * k`, where `k` is the
/// projection of `v` onto `rv`, or zero where that is negative.
pub proof fn lemma_unit_ray_nearest(v: Seq<int>, rv: Seq<int>, a: int, b: int)
    requires
        v.len() == rv.len(),
        mag2_of(rv) == 1,
        0 <= a,
        0 < b,
    ensures
        (b * b) * mag2_of(comb_seq(v, rv, 1, max_of(dot_of(v, rv), 0))) <= mag2_of(
            comb_seq(v, rv, b, a),
        ),
{
    let t = dot_of(v, rv);
    let k = max_of(t, 0);
    let c = b * k - a * 1;
    let slope = 1 * t - k * 1;
    lemma_offset_split(v, rv, 1, k, b, a);
    assert(0 <= c * c) by (nonlinear_arith);
    if t < 0 {
        assert(0 <= (b * c) * slope) by (nonlinear_arith)
            requires
                k == 0,
                c == b * k - a * 1,
                slope == 1 * t - k * 1,
                t < 0,
                0 <= a,
                0 < b,
        ;
    } else {
        assert((b * c) * slope == 0) by (nonlinear_arith)
            requires
                k == t,
                slope == 1 * t - k * 1,
        ;
    }
}

/// One component of the step from the centre to the surface of a sphere is
/// the exact component, rounded toward zero: its square, scaled by the
/// squared length of the direction, brackets the square of the scaled
/// component, and it points the way of the direction or is zero.
pub proof fn lemma_sphere_offset(d: int, r: int, m: int)
    requires
        0 < m,
    ensures
        (sphere_offset_of(d, r, m) * sphere_offset_of(d, r, m)) * m <= (d * r) * (d * r),
        (d * r) * (d * r) < ((abs_of(sphere_offset_of(d, r, m)) + 1) * (abs_of(
            sphere_offset_of(d, r, m),
        ) + 1)) * m,
        sign_of(sphere_offset_of(d, r, m)) == 0 || sign_of(sphere_offset_of(d, r, m)) == sign_of(
            d * r,
        ),
{
    let e = d * r;
    let sq = e * e;
    let q = sq / m;
    let root = sqrt_of(q);
    let c = sphere_offset_of(d, r, m);
    let next = (root + 1) * (root + 1);
    assert(0 <= sq) by (nonlinear_arith)
        requires
            sq == e * e,
    ;
    lemma_div_pos_is_pos(sq, m);
    lemma_fundamental_div_mod(sq, m);
    lemma_mod_bound(sq, m);
    lemma_sqrt_exists(q);
    if e == 0 {
        assert(sq == 0) by (nonlinear_arith)
            requires
                e == 0,
                sq == e * e,
        ;
        lemma_div_nonincreasing(sq, m);
        assert(is_sqrt(0, 0));
        lemma_sqrt_unique(0, 0);
    }
    assert(abs_of(c) == root);
    assert(c * c == root * root) by (nonlinear_arith)
        requires
            c == root || c == -root,
    ;
    lemma_mul_inequality(root * root, q, m);
    lemma_mul_inequality(q + 1, next, m);
    lemma_mul_regroup(q, m, 1);
    lemma_mul_spread(m, q, 1);
    lemma_mul_regroup(q + 1, m, 1);
}

/// Where the square of each component of `c`, scaled by `m`, is no more than
/// the square of the same component of `e`, the squared magnitudes stand
/// likewise.
pub proof fn lemma_mag2_scaled_bound(c: Seq<int>, e: Seq<int>, m: int)
    requires
        c.len() == e.len(),
        forall|i: int| 0 <= i < c.len() ==> ((#[trigger] c[i]) * c[i]) * m <= e[i] * e[i],
    ensures
        mag2_of(c) * m <= mag2_of(e),
    decreases c.len(),
{
    if c.len() > 0 {
        let hc = c.drop_last();
        let he = e.drop_last();
        assert forall|i: int| 0 <= i < hc.len() implies ((#[trigger] hc[i]) * hc[i]) * m <= he[i]
            * he[i] by {
            assert((c[i] * c[i]) * m <= e[i] * e[i]);
        }
        lemma_mag2_scaled_bound(hc, he, m);
        let x = c.last();
        assert((c[c.len() - 1] * c[c.len() - 1]) * m <= e[c.len() - 1] * e[c.len() - 1]);
        assert((mag2_of(hc) + x * x) * m == mag2_of(hc) * m + (x * x) * m) by (nonlinear_arith);
    } else {
        assert(mag2_of(c) * m == 0) by (nonlinear_arith)
            requires
                mag2_of(c) == 0,
        ;
    }
}

/// Where the square of each component of `e` is less than the square of the
/// same component of `c`, scaled by `m`, the squared magnitudes stand
/// likewise, for vectors that have a component.
pub proof fn lemma_mag2_scaled_above(c: Seq<int>, e: Seq<int>, m: int)
    requires
        c.len() == e.len(),
        forall|i: int| 0 <= i < c.len() ==> e[i] * e[i] < ((#[trigger] c[i]) * c[i]) * m,
    ensures
        mag2_of(e) <= mag2_of(c) * m,
        c.len() > 0 ==> mag2_of(e) < mag2_of(c) * m,
    decreases c.len(),
{
    if c.len() > 0 {
        let hc = c.drop_last();
        let he = e.drop_last();
        assert forall|i: int| 0 <= i < hc.len() implies he[i] * he[i] < ((#[trigger] hc[i])
            * hc[i]) * m by {
            assert(e[i] * e[i] < (c[i] * c[i]) * m);
        }
        lemma_mag2_scaled_above(hc, he, m);
        let x = c.last();
        assert(e[c.len() - 1] * e[c.len() - 1] < (c[c.len() - 1] * c[c.len() - 1]) * m);
        assert((mag2_of(hc) + x * x) * m == mag2_of(hc) * m + (x * x) * m) by (nonlinear_arith);
    } else {
        assert(mag2_of(c) * m == 0) by (nonlinear_arith)
            requires
                mag2_of(c) == 0,
        ;
    }
}

} // verus!
