use vstd::prelude::*;
use crate::model::cross_of;
use crate::num::NumberOps;
pub use crate::vec::v2::Vec2;
pub use crate::vec::v3::Vec3;
pub use crate::vec::v4::Vec4;

/// 2-dimensional vector
pub mod v2;

/// 3-dimensional vector
pub mod v3;

/// 4-dimensional vector
pub mod v4;

verus! {

/// A scalar closed under `+ - * /`: a value that stands for one integer of a
/// bounded range, with zero and one.
pub trait Number: Copy + Sized {
    /// The integer this scalar stands for.
    spec fn val(self) -> int;

    /// The least integer the type holds.
    spec fn lo() -> int;

    /// The greatest integer the type holds.
    spec fn hi() -> int;

    /// The scalar that stands for `v`.
    spec fn from_int(v: int) -> Self;

    /// The range reaches from zero or below to at least 127.
    proof fn lemma_range()
        ensures
            Self::lo() <= 0,
            127 <= Self::hi(),
    ;

    /// A scalar's integer lies in the range, and names the scalar.
    proof fn lemma_val(self)
        ensures
            Self::lo() <= self.val() <= Self::hi(),
            Self::from_int(self.val()) == self,
    ;

    /// Every integer of the range has its scalar.
    proof fn lemma_from_int(v: int)
        requires
            Self::lo() <= v <= Self::hi(),
        ensures
            Self::from_int(v).val() == v,
    ;

    /// The additive identity.
    fn zero() -> (r: Self)
        ensures
            r.val() == 0,
    ;

    /// The multiplicative identity.
    fn one() -> (r: Self)
        ensures
            r.val() == 1,
    ;

    fn add(self, rhs: Self) -> (r: Self)
        requires
            Self::lo() <= self.val() + rhs.val() <= Self::hi(),
        ensures
            r.val() == self.val() + rhs.val(),
    ;

    fn sub(self, rhs: Self) -> (r: Self)
        requires
            Self::lo() <= self.val() - rhs.val() <= Self::hi(),
        ensures
            r.val() == self.val() - rhs.val(),
    ;

    fn mul(self, rhs: Self) -> (r: Self)
        requires
            Self::lo() <= self.val() * rhs.val() <= Self::hi(),
        ensures
            r.val() == self.val() * rhs.val(),
    ;

    /// Division rounds toward zero.
    fn div(self, rhs: Self) -> (r: Self)
        requires
            rhs.val() != 0,
            Self::lo() <= crate::model::div_trunc(self.val(), rhs.val()) <= Self::hi(),
        ensures
            r.val() == crate::model::div_trunc(self.val(), rhs.val()),
    ;

    /// Exact equality.
    fn equal(self, rhs: Self) -> (r: bool)
        ensures
            r == (self.val() == rhs.val()),
    ;

    fn less(self, rhs: Self) -> (r: bool)
        ensures
            r == (self.val() < rhs.val()),
    ;
}

/// A `Number` with negation and minus one.
pub trait SignedNumber: Number {
    fn minus_one() -> (r: Self)
        ensures
            r.val() == -1,
    ;

    fn neg(self) -> (r: Self)
        requires
            fits::<Self>(-self.val()),
        ensures
            r.val() == -self.val(),
    ;
}

/// A vector of fixed dimension: n-dimensional functionality through
/// `Self::len()` and the components by index.
pub trait VecN<T: Number>: NumberOps<T> {
    /// The dimension.
    fn len() -> (n: usize)
        ensures
            n == Self::dim(),
    ;
}

/// `T` holds the integer `v`.
pub open spec fn fits<T: Number>(v: int) -> bool {
    T::lo() <= v <= T::hi()
}

/// Every integer of `s` is one that `T` holds.
pub open spec fn all_fit<T: Number>(s: Seq<int>) -> bool {
    forall|i: int| 0 <= i < s.len() ==> fits::<T>(#[trigger] s[i])
}

/// The six products and the three differences of a cross product are all
/// integers that `T` holds.
pub open spec fn cross_fits<T: Number>(a: Seq<int>, b: Seq<int>) -> bool {
    &&& fits::<T>(a[1] * b[2])
    &&& fits::<T>(a[2] * b[1])
    &&& fits::<T>(a[2] * b[0])
    &&& fits::<T>(a[0] * b[2])
    &&& fits::<T>(a[0] * b[1])
    &&& fits::<T>(a[1] * b[0])
    &&& all_fit::<T>(cross_of(a, b))
}

/// return 3 dimensional vector cross product of a x b
pub fn cross<T: Number>(a: Vec3<T>, b: Vec3<T>) -> (r: Vec3<T>)
    requires
        cross_fits::<T>(a@, b@),
    ensures
        r@ == cross_of(a@, b@),
{
    proof {
        assert(fits::<T>(cross_of(a@, b@)[0]));
        assert(fits::<T>(cross_of(a@, b@)[1]));
        assert(fits::<T>(cross_of(a@, b@)[2]));
    }
    Vec3 {
        x: a.y.mul(b.z).sub(a.z.mul(b.y)),
        y: a.z.mul(b.x).sub(a.x.mul(b.z)),
        z: a.x.mul(b.y).sub(a.y.mul(b.x)),
    }
}

/// ie let v = vec2i(x, y);
pub fn vec2i(x: i32, y: i32) -> (r: Vec2<i32>)
    ensures
        r == (Vec2 { x, y }),
{
    Vec2 { x, y }
}

/// ie let v = vec3i(x, y, z);
pub fn vec3i(x: i32, y: i32, z: i32) -> (r: Vec3<i32>)
    ensures
        r == (Vec3 { x, y, z }),
{
    Vec3 { x, y, z }
}

/// ie let v = vec4i(x, y, z, w);
pub fn vec4i(x: i32, y: i32, z: i32, w: i32) -> (r: Vec4<i32>)
    ensures
        r == (Vec4 { x, y, z, w }),
{
    Vec4 { x, y, z, w }
}

/// ie let v = vec2u(x, y);
pub fn vec2u(x: u32, y: u32) -> (r: Vec2<u32>)
    ensures
        r == (Vec2 { x, y }),
{
    Vec2 { x, y }
}

/// ie let v = vec3u(x, y, z);
pub fn vec3u(x: u32, y: u32, z: u32) -> (r: Vec3<u32>)
    ensures
        r == (Vec3 { x, y, z }),
{
    Vec3 { x, y, z }
}

/// ie let v = vec4u(x, y, z, w);
pub fn vec4u(x: u32, y: u32, z: u32, w: u32) -> (r: Vec4<u32>)
    ensures
        r == (Vec4 { x, y, z, w }),
{
    Vec4 { x, y, z, w }
}

} // verus!
