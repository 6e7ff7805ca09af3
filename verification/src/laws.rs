use vstd::prelude::*;
use crate::dot_fits;
use crate::model::{
    abs_of, all_zero, clamp_seq, closest_on_aabb_of, closest_on_line_of, closest_on_ray_of,
    closest_on_sphere_of, comb_seq, cross_of, dist2_of, distance_of, dot_of, grow_seq, is_sqrt,
    le_seq, lemma_mag2_scaled_above,
    lemma_dist2_symmetric, lemma_div_trunc_error, lemma_dot_commutative, lemma_mag2_comb,
    lemma_mag2_monotone, lemma_mag2_scaled_bound, lemma_mag2_sign, lemma_projection_nearest,
    lemma_sphere_offset, lemma_sqrt_exists, lemma_sqrt_sign, lemma_unit_ray_nearest, length_of,
    line_den_of, line_num_of, line_param_of, mag2_of, mul_seq, near_line_point, neg_seq,
    sign_of, sphere_offset_of, splat_seq, sub_seq, within,
};
use crate::num::{lemma_comps_injective, NumberOps};
use crate::vec::{fits, Number, SignedNumber, Vec3, VecN};

verus! {

/// Zero added to a scalar, and one multiplied by it, give the scalar; minus
/// one is the negation of one.
pub proof fn lemma_identities<T: SignedNumber>(x: T)
    ensures
        T::from_int(0 + x.val()) == x,
        T::from_int(1 * x.val()) == x,
        T::from_int(-1) == T::from_int(-T::from_int(1).val()),
{
    x.lemma_val();
    T::lemma_range();
    T::lemma_from_int(1);
}

/// Commutativity: the dot product of `a` and `b` is that of `b` and `a`, and
/// the one can be computed where the other can.
pub proof fn lemma_dot_commutes<T: Number, V: VecN<T>>(a: V, b: V)
    ensures
        dot_of(a.comps(), b.comps()) == dot_of(b.comps(), a.comps()),
        dot_fits::<T>(a.comps(), b.comps()) == dot_fits::<T>(b.comps(), a.comps()),
{
    let s = a.comps();
    let t = b.comps();
    a.lemma_comps();
    b.lemma_comps();
    lemma_dot_commutative(s, t);
    assert(mul_seq(s, t) =~= mul_seq(t, s)) by {
        assert forall|i: int| 0 <= i < s.len() implies s[i] * t[i] == t[i] * s[i] by {
            assert(s[i] * t[i] == t[i] * s[i]) by (nonlinear_arith);
        }
    }
    if dot_fits::<T>(s, t) {
        assert forall|k: int| 0 <= k <= t.len() implies fits::<T>(
            #[trigger] dot_of(t.take(k), s.take(k)),
        ) by {
            lemma_dot_commutative(s.take(k), t.take(k));
            assert(fits::<T>(dot_of(s.take(k), t.take(k))));
        }
    }
    if dot_fits::<T>(t, s) {
        assert forall|k: int| 0 <= k <= s.len() implies fits::<T>(
            #[trigger] dot_of(s.take(k), t.take(k)),
        ) by {
            lemma_dot_commutative(s.take(k), t.take(k));
            assert(fits::<T>(dot_of(t.take(k), s.take(k))));
        }
    }
}

/// Non-negativity: the length of a vector is not negative, and is zero for
/// the zero vector alone.
pub proof fn lemma_length_zero<T: Number, V: VecN<T>>(v: V)
    ensures
        0 <= length_of(v.comps()),
        length_of(v.comps()) == 0 <==> v == V::from_comps(splat_seq(V::dim(), 0)),
{
    let zero = V::from_comps(splat_seq(V::dim(), 0));
    v.lemma_comps();
    T::lemma_range();
    V::lemma_from_comps(splat_seq(V::dim(), 0));
    lemma_mag2_sign(v.comps());
    lemma_sqrt_sign(mag2_of(v.comps()));
    if all_zero(v.comps()) {
        assert(v.comps() =~= zero.comps());
    }
    if v == zero {
        assert(all_zero(v.comps()));
    }
}

/// Clamp containment: where no lower bound lies above its upper bound, every
/// component of the clamped value lies within its bounds.
pub proof fn lemma_clamp_within<T: Number, V: NumberOps<T>>(x: V, min: V, max: V)
    requires
        le_seq(min.comps(), max.comps()),
    ensures
        within(clamp_seq(x.comps(), min.comps(), max.comps()), min.comps(), max.comps()),
{
    x.lemma_comps();
    min.lemma_comps();
    max.lemma_comps();
    assert forall|i: int| 0 <= i < x.comps().len() implies min.comps()[i] <= #[trigger] clamp_seq(
        x.comps(),
        min.comps(),
        max.comps(),
    )[i] <= max.comps()[i] by {
        assert(min.comps()[i] <= max.comps()[i]);
    }
}

/// Idempotence: a point that lies within a box is its own closest point on
/// the box.
pub proof fn lemma_aabb_fixes_inside<T: Number, V: VecN<T>>(aabb_min: V, aabb_max: V, p: V)
    requires
        within(p.comps(), aabb_min.comps(), aabb_max.comps()),
    ensures
        closest_on_aabb_of(aabb_min.comps(), aabb_max.comps(), p.comps()) == p.comps(),
{
    assert(closest_on_aabb_of(aabb_min.comps(), aabb_max.comps(), p.comps()) =~= p.comps());
}

/// The closest point on a box lies in the box, and no point of the box is
/// nearer to `p`.
pub proof fn lemma_aabb_nearest<T: Number, V: VecN<T>>(aabb_min: V, aabb_max: V, p: V, q: V)
    requires
        within(q.comps(), aabb_min.comps(), aabb_max.comps()),
    ensures
        within(
            closest_on_aabb_of(aabb_min.comps(), aabb_max.comps(), p.comps()),
            aabb_min.comps(),
            aabb_max.comps(),
        ),
        dist2_of(p.comps(), closest_on_aabb_of(aabb_min.comps(), aabb_max.comps(), p.comps()))
            <= dist2_of(p.comps(), q.comps()),
{
    let lo = aabb_min.comps();
    let hi = aabb_max.comps();
    let c = closest_on_aabb_of(lo, hi, p.comps());
    aabb_min.lemma_comps();
    aabb_max.lemma_comps();
    p.lemma_comps();
    q.lemma_comps();
    assert forall|i: int| 0 <= i < c.len() implies lo[i] <= #[trigger] c[i] <= hi[i] by {
        assert(lo[i] <= q.comps()[i] <= hi[i]);
    }
    let a = sub_seq(p.comps(), c);
    let b = sub_seq(p.comps(), q.comps());
    assert forall|i: int| 0 <= i < a.len() implies abs_of(#[trigger] a[i]) <= abs_of(b[i]) by {
        assert(lo[i] <= q.comps()[i] <= hi[i]);
    }
    lemma_mag2_monotone(a, b);
}

/// The length of a vector is the square root of its squared magnitude,
/// rounded down.
pub proof fn lemma_length_is_sqrt<T: Number, V: VecN<T>>(v: V)
    ensures
        is_sqrt(mag2_of(v.comps()), length_of(v.comps())),
{
    lemma_mag2_sign(v.comps());
    lemma_sqrt_exists(mag2_of(v.comps()));
}

/// Anti-symmetry: the cross product of `a` and `b` is the negation of that of
/// `b` and `a`.
pub proof fn lemma_cross_antisymmetric<T: SignedNumber>(a: Vec3<T>, b: Vec3<T>)
    ensures
        cross_of(a@, b@) == neg_seq(cross_of(b@, a@)),
{
    let s = a@;
    let t = b@;
    assert(s[1] * t[2] == t[2] * s[1] && s[2] * t[1] == t[1] * s[2]) by (nonlinear_arith);
    assert(s[2] * t[0] == t[0] * s[2] && s[0] * t[2] == t[2] * s[0]) by (nonlinear_arith);
    assert(s[0] * t[1] == t[1] * s[0] && s[1] * t[0] == t[0] * s[1]) by (nonlinear_arith);
    assert(cross_of(s, t) =~= neg_seq(cross_of(t, s)));
}

/// The distance between two points does not depend on their order.
pub proof fn lemma_distance_symmetric<T: Number, V: VecN<T>>(a: V, b: V)
    ensures
        dist2_of(a.comps(), b.comps()) == dist2_of(b.comps(), a.comps()),
        distance_of(a.comps(), b.comps()) == distance_of(b.comps(), a.comps()),
{
    a.lemma_comps();
    b.lemma_comps();
    lemma_dist2_symmetric(a.comps(), b.comps());
}

/// The ends of a segment that are two points lie apart: the squared length
/// of the segment is positive.
pub proof fn lemma_segment_length<T: Number, V: VecN<T>>(l1: V, l2: V)
    requires
        l1 != l2,
    ensures
        0 < line_den_of(l1.comps(), l2.comps()),
{
    let d = sub_seq(l2.comps(), l1.comps());
    l1.lemma_comps();
    l2.lemma_comps();
    lemma_mag2_sign(d);
    if all_zero(d) {
        assert forall|i: int| 0 <= i < l1.comps().len() implies l1.comps()[i] == l2.comps()[i] by {
            assert(d[i] == 0);
        }
        assert(l1.comps() =~= l2.comps());
        lemma_comps_injective(l1, l2);
    }
}

/// The closest point on a segment, as it is returned, lies less than one unit
/// in every component from the point `l1 + (l2 - l1) * k / den`, which
/// `lemma_line_nearest` shows to be the point of the segment nearest to `p`.
pub proof fn lemma_line_rounding<T: Number, V: VecN<T>>(l1: V, l2: V, p: V)
    ensures
        l1 != l2 ==> near_line_point(
            closest_on_line_of(l1.comps(), l2.comps(), p.comps()),
            l1.comps(),
            sub_seq(l2.comps(), l1.comps()),
            line_param_of(l1.comps(), l2.comps(), p.comps()),
            line_den_of(l1.comps(), l2.comps()),
        ),
{
    if l1 != l2 {
        let d = sub_seq(l2.comps(), l1.comps());
        let n = line_num_of(l1.comps(), l2.comps(), p.comps());
        let den = line_den_of(l1.comps(), l2.comps());
        let k = line_param_of(l1.comps(), l2.comps(), p.comps());
        let r = closest_on_line_of(l1.comps(), l2.comps(), p.comps());
        l1.lemma_comps();
        l2.lemma_comps();
        lemma_segment_length(l1, l2);
        assert forall|i: int| 0 <= i < r.len() implies abs_of(
            den * (#[trigger] r[i] - l1.comps()[i]) - k * d[i],
        ) < den by {
            if n <= 0 {
                assert(den * (r[i] - l1.comps()[i]) - k * d[i] == 0) by (nonlinear_arith)
                    requires
                        r[i] - l1.comps()[i] == 0,
                        k == 0,
                ;
            } else if n >= den {
                assert(den * (r[i] - l1.comps()[i]) - k * d[i] == 0) by (nonlinear_arith)
                    requires
                        r[i] - l1.comps()[i] == d[i],
                        k == den,
                ;
            } else {
                lemma_div_trunc_error(d[i] * n, den);
                assert(k * d[i] == d[i] * n) by (nonlinear_arith)
                    requires
                        k == n,
                ;
            }
        }
    }
}

/// No point of a segment is nearer to `p` than `l1 + (l2 - l1) * k / den`,
/// where `den` is the squared length of the segment and `k` the projection of
/// `p - l1` onto it, brought into `[0, den]`. The points of the segment are
/// `l1 + (l2 - l1) * a / b` with `0 <= a <= b`; the offsets from `p` are
/// scaled to whole numbers, by `den` on the left and by `b` on the right.
pub proof fn lemma_line_nearest<T: Number, V: VecN<T>>(l1: V, l2: V, p: V, a: int, b: int)
    requires
        l1 != l2,
        0 <= a <= b,
        0 < b,
    ensures
        (b * b) * mag2_of(
            comb_seq(
                sub_seq(p.comps(), l1.comps()),
                sub_seq(l2.comps(), l1.comps()),
                line_den_of(l1.comps(), l2.comps()),
                line_param_of(l1.comps(), l2.comps(), p.comps()),
            ),
        ) <= (line_den_of(l1.comps(), l2.comps()) * line_den_of(l1.comps(), l2.comps())) * mag2_of(
            comb_seq(sub_seq(p.comps(), l1.comps()), sub_seq(l2.comps(), l1.comps()), b, a),
        ),
{
    l1.lemma_comps();
    l2.lemma_comps();
    p.lemma_comps();
    lemma_segment_length(l1, l2);
    lemma_projection_nearest(
        sub_seq(p.comps(), l1.comps()),
        sub_seq(l2.comps(), l1.comps()),
        a,
        b,
    );
}

/// For a direction of squared length one, no point of the ray is nearer to
/// `p` than the closest point on it. The points of the ray are
/// `r0 + rv * a / b` with `0 <= a`; the offset of such a point from `p` is
/// scaled to whole numbers by `b`.
pub proof fn lemma_ray_nearest<T: Number, V: VecN<T>>(r0: V, rv: V, p: V, a: int, b: int)
    requires
        mag2_of(rv.comps()) == 1,
        0 <= a,
        0 < b,
    ensures
        (b * b) * dist2_of(p.comps(), closest_on_ray_of(r0.comps(), rv.comps(), p.comps()))
            <= mag2_of(comb_seq(sub_seq(p.comps(), r0.comps()), rv.comps(), b, a)),
{
    let v = sub_seq(p.comps(), r0.comps());
    let w = rv.comps();
    let t = dot_of(v, w);
    let c = closest_on_ray_of(r0.comps(), rv.comps(), p.comps());
    r0.lemma_comps();
    rv.lemma_comps();
    p.lemma_comps();
    lemma_unit_ray_nearest(v, w, a, b);
    if t < 0 {
        assert(sub_seq(p.comps(), c) =~= comb_seq(v, w, 1, 0));
    } else {
        assert forall|i: int| 0 <= i < v.len() implies sub_seq(p.comps(), c)[i] == comb_seq(
            v,
            w,
            1,
            t,
        )[i] by {
            assert(w[i] * t == t * w[i]) by (nonlinear_arith);
        }
        assert(sub_seq(p.comps(), c) =~= comb_seq(v, w, 1, t));
    }
}

/// Every component of the step from the centre to the closest point on a
/// sphere is the same component of `(p - s) * r / |p - s|`, rounded toward
/// zero: with `m` the squared distance of `p` from the centre, its square
/// times `m` brackets the square of the component of `(p - s) * r`, and it
/// points the way of that component or is zero.
pub proof fn lemma_sphere_rounding<T: Number, V: VecN<T>>(s: V, r: T, p: V, i: int)
    requires
        p != s,
        0 <= i < V::dim(),
    ensures
        ({
            let m = dist2_of(p.comps(), s.comps());
            let e = (p.comps()[i] - s.comps()[i]) * r.val();
            let c = closest_on_sphere_of(s.comps(), r.val(), p.comps())[i] - s.comps()[i];
            &&& (c * c) * m <= e * e < ((abs_of(c) + 1) * (abs_of(c) + 1)) * m
            &&& (sign_of(c) == 0 || sign_of(c) == sign_of(e))
        }),
{
    let d = sub_seq(p.comps(), s.comps());
    s.lemma_comps();
    p.lemma_comps();
    lemma_segment_length(s, p);
    lemma_sphere_offset(d[i], r.val(), mag2_of(d));
}

/// The closest point on a sphere lies no farther from the centre than the
/// radius, and within rounding of it: for `p` off the centre, the step from
/// the centre, made one unit longer in every component, is longer than the
/// radius.
pub proof fn lemma_sphere_within_radius<T: Number, V: VecN<T>>(s: V, r: T, p: V)
    ensures
        dist2_of(closest_on_sphere_of(s.comps(), r.val(), p.comps()), s.comps()) <= r.val()
            * r.val(),
        p != s ==> r.val() * r.val() < mag2_of(
            grow_seq(sub_seq(closest_on_sphere_of(s.comps(), r.val(), p.comps()), s.comps())),
        ),
{
    let d = sub_seq(p.comps(), s.comps());
    let m = mag2_of(d);
    let c = sub_seq(closest_on_sphere_of(s.comps(), r.val(), p.comps()), s.comps());
    let e = comb_seq(d, d, r.val(), 0);
    s.lemma_comps();
    p.lemma_comps();
    lemma_mag2_sign(d);
    assert(0 <= r.val() * r.val()) by (nonlinear_arith);
    if m == 0 {
        lemma_mag2_sign(c);
        assert(all_zero(c));
    } else {
        assert forall|i: int| 0 <= i < c.len() implies ((#[trigger] c[i]) * c[i]) * m <= e[i]
            * e[i] by {
            lemma_sphere_offset(d[i], r.val(), m);
            assert(c[i] == sphere_offset_of(d[i], r.val(), m));
            assert(e[i] == d[i] * r.val()) by (nonlinear_arith)
                requires
                    e[i] == r.val() * d[i] - 0 * d[i],
            ;
        }
        lemma_mag2_scaled_bound(c, e, m);
        lemma_mag2_comb(d, d, r.val(), 0);
        assert((r.val() * 0) * dot_of(d, d) == 0 && (0 * 0) * m == 0);
        assert(mag2_of(c) <= r.val() * r.val()) by (nonlinear_arith)
            requires
                mag2_of(c) * m <= (r.val() * r.val()) * m,
                0 < m,
        ;
        let g = grow_seq(c);
        assert forall|i: int| 0 <= i < g.len() implies e[i] * e[i] < ((#[trigger] g[i]) * g[i])
            * m by {
            lemma_sphere_offset(d[i], r.val(), m);
            assert(c[i] == sphere_offset_of(d[i], r.val(), m));
            assert(e[i] == d[i] * r.val()) by (nonlinear_arith)
                requires
                    e[i] == r.val() * d[i] - 0 * d[i],
            ;
        }
        lemma_mag2_scaled_above(g, e, m);
        assert(r.val() * r.val() < mag2_of(g)) by (nonlinear_arith)
            requires
                (r.val() * r.val()) * m < mag2_of(g) * m,
                0 < m,
        ;
    }
    if p != s {
        lemma_segment_length(s, p);
    }
}

} // verus!
