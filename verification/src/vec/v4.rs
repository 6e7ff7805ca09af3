use vstd::prelude::*;
use vstd::pervasive::unreached;
use vstd::std_specs::cmp::PartialEqSpecImpl;
use vstd::std_specs::ops::{AddSpecImpl, DivSpecImpl, MulSpecImpl, NegSpecImpl, SubSpecImpl};
use crate::model::{
    add_seq, div_seq, dot_of, lemma_dot_of_4, mul_seq, neg_seq, no_zero, splat_seq, sub_seq,
};
use crate::num::{negate, zip_add, zip_div, zip_mul, zip_sub, NumberOps};
use crate::vec::{all_fit, Number, SignedNumber, VecN};

verus! {

/// 4-dimensional vector: `Vec4::<i32>::new(1, 2, 3, 4)`
#[derive(Debug)]
pub struct Vec4<T: Number> {
    pub x: T,
    pub y: T,
    pub z: T,
    pub w: T,
}

impl<T: Number> Clone for Vec4<T> {
    fn clone(&self) -> (r: Self)
        ensures
            r == *self,
    {
        *self
    }
}

impl<T: Number> Copy for Vec4<T> {
}

impl<T: Number> View for Vec4<T> {
    type V = Seq<int>;

    /// The integers the components stand for, in declaration order.
    open spec fn view(&self) -> Seq<int> {
        self.comps()
    }
}

impl<T: Number> Vec4<T> {
    /// The vector of the components given.
    pub fn new(x: T, y: T, z: T, w: T) -> (r: Self)
        ensures
            r == (Vec4 { x, y, z, w }),
    {
        Vec4 { x, y, z, w }
    }

    /// Every component zero.
    pub fn zero() -> (r: Self)
        ensures
            r@ == seq![0int, 0, 0, 0],
    {
        Vec4 { x: T::zero(), y: T::zero(), z: T::zero(), w: T::zero() }
    }

    /// Every component one.
    pub fn one() -> (r: Self)
        ensures
            r@ == seq![1int, 1, 1, 1],
    {
        Vec4 { x: T::one(), y: T::one(), z: T::one(), w: T::one() }
    }

    /// The unit vector along x: the leading components of (1, 0, 0, 0).
    pub fn unit_x() -> (r: Self)
        ensures
            r@ == seq![1int, 0, 0, 0],
    {
        Vec4 { x: T::one(), y: T::zero(), z: T::zero(), w: T::zero() }
    }

    /// The unit vector along y: the leading components of (0, 1, 0, 0).
    pub fn unit_y() -> (r: Self)
        ensures
            r@ == seq![0int, 1, 0, 0],
    {
        Vec4 { x: T::zero(), y: T::one(), z: T::zero(), w: T::zero() }
    }

    /// The unit vector along z: the leading components of (0, 0, 1, 0).
    pub fn unit_z() -> (r: Self)
        ensures
            r@ == seq![0int, 0, 1, 0],
    {
        Vec4 { x: T::zero(), y: T::zero(), z: T::one(), w: T::zero() }
    }

    /// The colour red: the leading components of (1, 0, 0, 1).
    pub fn red() -> (r: Self)
        ensures
            r@ == seq![1int, 0, 0, 1],
    {
        Vec4 { x: T::one(), y: T::zero(), z: T::zero(), w: T::one() }
    }

    /// The colour green: the leading components of (0, 1, 0, 1).
    pub fn green() -> (r: Self)
        ensures
            r@ == seq![0int, 1, 0, 1],
    {
        Vec4 { x: T::zero(), y: T::one(), z: T::zero(), w: T::one() }
    }

    /// The colour blue: the leading components of (0, 0, 1, 1).
    pub fn blue() -> (r: Self)
        ensures
            r@ == seq![0int, 0, 1, 1],
    {
        Vec4 { x: T::zero(), y: T::zero(), z: T::one(), w: T::one() }
    }

    /// The colour cyan: the leading components of (0, 1, 1, 1).
    pub fn cyan() -> (r: Self)
        ensures
            r@ == seq![0int, 1, 1, 1],
    {
        Vec4 { x: T::zero(), y: T::one(), z: T::one(), w: T::one() }
    }

    /// The colour magenta: the leading components of (1, 0, 1, 1).
    pub fn magenta() -> (r: Self)
        ensures
            r@ == seq![1int, 0, 1, 1],
    {
        Vec4 { x: T::one(), y: T::zero(), z: T::one(), w: T::one() }
    }

    /// The colour yellow: the leading components of (1, 1, 0, 1).
    pub fn yellow() -> (r: Self)
        ensures
            r@ == seq![1int, 1, 0, 1],
    {
        Vec4 { x: T::one(), y: T::one(), z: T::zero(), w: T::one() }
    }

    /// The colour black: the leading components of (0, 0, 0, 1).
    pub fn black() -> (r: Self)
        ensures
            r@ == seq![0int, 0, 0, 1],
    {
        Vec4 { x: T::zero(), y: T::zero(), z: T::zero(), w: T::one() }
    }

    /// The colour white: every component one.
    pub fn white() -> (r: Self)
        ensures
            r@ == seq![1int, 1, 1, 1],
    {
        Self::one()
    }

    /// The component at `i`, or `None` where `i` is not below the dimension.
    pub fn get(&self, i: usize) -> (r: Option<T>)
        ensures
            match r {
                Some(c) => i < 4 && c.val() == self@[i as int],
                None => i >= 4,
            },
    {
        if i < 4 {
            Some(self.lane(i))
        } else {
            None
        }
    }

    /// Replaces the vector by its componentwise sum with `other`.
    pub fn add_assign(&mut self, other: Self)
        requires
            all_fit::<T>(add_seq(old(self)@, other@)),
        ensures
            final(self)@ == add_seq(old(self)@, other@),
    {
        *self = zip_add(*self, other);
    }

    /// Replaces each component by its sum with the scalar `other`.
    pub fn add_assign_scalar(&mut self, other: T)
        requires
            all_fit::<T>(add_seq(old(self)@, splat_seq(4, other.val()))),
        ensures
            final(self)@ == add_seq(old(self)@, splat_seq(4, other.val())),
    {
        *self = zip_add(*self, Self::splat(other));
    }

    /// Replaces the vector by its componentwise difference with `other`.
    pub fn sub_assign(&mut self, other: Self)
        requires
            all_fit::<T>(sub_seq(old(self)@, other@)),
        ensures
            final(self)@ == sub_seq(old(self)@, other@),
    {
        *self = zip_sub(*self, other);
    }

    /// Replaces each component by its difference with the scalar `other`.
    pub fn sub_assign_scalar(&mut self, other: T)
        requires
            all_fit::<T>(sub_seq(old(self)@, splat_seq(4, other.val()))),
        ensures
            final(self)@ == sub_seq(old(self)@, splat_seq(4, other.val())),
    {
        *self = zip_sub(*self, Self::splat(other));
    }

    /// Replaces the vector by its componentwise product with `other`.
    pub fn mul_assign(&mut self, other: Self)
        requires
            all_fit::<T>(mul_seq(old(self)@, other@)),
        ensures
            final(self)@ == mul_seq(old(self)@, other@),
    {
        *self = zip_mul(*self, other);
    }

    /// Replaces each component by its product with the scalar `other`.
    pub fn mul_assign_scalar(&mut self, other: T)
        requires
            all_fit::<T>(mul_seq(old(self)@, splat_seq(4, other.val()))),
        ensures
            final(self)@ == mul_seq(old(self)@, splat_seq(4, other.val())),
    {
        *self = zip_mul(*self, Self::splat(other));
    }

    /// Replaces the vector by its componentwise quotient with `other`.
    pub fn div_assign(&mut self, other: Self)
        requires
            no_zero(other@),
            all_fit::<T>(div_seq(old(self)@, other@)),
        ensures
            final(self)@ == div_seq(old(self)@, other@),
    {
        *self = zip_div(*self, other);
    }

    /// Replaces each component by its quotient with the scalar `other`.
    pub fn div_assign_scalar(&mut self, other: T)
        requires
            other.val() != 0,
            all_fit::<T>(div_seq(old(self)@, splat_seq(4, other.val()))),
        ensures
            final(self)@ == div_seq(old(self)@, splat_seq(4, other.val())),
    {
        *self = zip_div(*self, Self::splat(other));
    }
}

impl<T: Number> NumberOps<T> for Vec4<T> {
    open spec fn comps(self) -> Seq<int> {
        seq![self.x.val(), self.y.val(), self.z.val(), self.w.val()]
    }

    open spec fn dim() -> nat {
        4
    }

    open spec fn from_comps(s: Seq<int>) -> Self {
        Vec4 { x: T::from_int(s[0]), y: T::from_int(s[1]), z: T::from_int(s[2]), w: T::from_int(s[3]) }
    }

    proof fn lemma_comps(self) {
        self.x.lemma_val();
        self.y.lemma_val();
        self.z.lemma_val();
        self.w.lemma_val();
    }

    proof fn lemma_from_comps(s: Seq<int>) {
        assert(crate::vec::fits::<T>(s[0]));
        T::lemma_from_int(s[0]);
        assert(crate::vec::fits::<T>(s[1]));
        T::lemma_from_int(s[1]);
        assert(crate::vec::fits::<T>(s[2]));
        T::lemma_from_int(s[2]);
        assert(crate::vec::fits::<T>(s[3]));
        T::lemma_from_int(s[3]);
        assert(Self::from_comps(s).comps() =~= s);
    }

    fn lanes() -> (n: usize) {
        4
    }

    fn lane(&self, i: usize) -> (r: T) {
        match i {
            0 => self.x,
            1 => self.y,
            2 => self.z,
            3 => self.w,
            _ => unreached(),
        }
    }

    fn set_lane(&mut self, i: usize, v: T) {
        match i {
            0 => {
                self.x = v;
            },
            1 => {
                self.y = v;
            },
            2 => {
                self.z = v;
            },
            3 => {
                self.w = v;
            },
            _ => {
                unreached::<()>();
            },
        }
        assert(self.comps() =~= old(self).comps().update(i as int, v.val()));
    }

    fn splat(v: T) -> (r: Self) {
        let r = Vec4 { x: v, y: v, z: v, w: v };
        assert(r.comps() =~= splat_seq(4, v.val()));
        r
    }
}

/// for n-dimensional functionality Self::len()
impl<T: Number> VecN<T> for Vec4<T> {
    fn len() -> (n: usize) {
        4
    }
}

/// for n-dimensional functionality v[n]; an index that is not below the
/// dimension is a contract violation, and stops a caller that makes it anyway
impl<T: Number> std::ops::Index<usize> for Vec4<T> {
    type Output = T;

    fn index(&self, i: usize) -> (r: &T)
        ensures
            r.val() == self@[i as int],
    {
        match i {
            0 => &self.x,
            1 => &self.y,
            2 => &self.z,
            3 => &self.w,
            _ => unreached(),
        }
    }
}

impl<T: Number> vstd::std_specs::core::IndexSpecImpl<usize> for Vec4<T> {
    open spec fn index_req(&self, i: &usize) -> bool {
        *i < 4
    }
}

impl<T: Number> std::ops::Add for Vec4<T> {
    type Output = Self;

    fn add(self, other: Self) -> (r: Self) {
        let r = zip_add(self, other);
        proof {
            r.lemma_comps();
        }
        r
    }
}

impl<T: Number> AddSpecImpl for Vec4<T> {
    open spec fn obeys_add_spec() -> bool {
        true
    }

    open spec fn add_req(self, other: Self) -> bool {
        &&& all_fit::<T>(add_seq(self@, other@))
    }

    open spec fn add_spec(self, other: Self) -> Self {
        Self::from_comps(add_seq(self@, other@))
    }
}

impl<T: Number> std::ops::Add<T> for Vec4<T> {
    type Output = Self;

    fn add(self, other: T) -> (r: Self) {
        let r = zip_add(self, Self::splat(other));
        proof {
            r.lemma_comps();
        }
        r
    }
}

impl<T: Number> AddSpecImpl<T> for Vec4<T> {
    open spec fn obeys_add_spec() -> bool {
        true
    }

    open spec fn add_req(self, other: T) -> bool {
        &&& all_fit::<T>(add_seq(self@, splat_seq(4, other.val())))
    }

    open spec fn add_spec(self, other: T) -> Self {
        Self::from_comps(add_seq(self@, splat_seq(4, other.val())))
    }
}

impl<T: Number> std::ops::Sub for Vec4<T> {
    type Output = Self;

    fn sub(self, other: Self) -> (r: Self) {
        let r = zip_sub(self, other);
        proof {
            r.lemma_comps();
        }
        r
    }
}

impl<T: Number> SubSpecImpl for Vec4<T> {
    open spec fn obeys_sub_spec() -> bool {
        true
    }

    open spec fn sub_req(self, other: Self) -> bool {
        &&& all_fit::<T>(sub_seq(self@, other@))
    }

    open spec fn sub_spec(self, other: Self) -> Self {
        Self::from_comps(sub_seq(self@, other@))
    }
}

impl<T: Number> std::ops::Sub<T> for Vec4<T> {
    type Output = Self;

    fn sub(self, other: T) -> (r: Self) {
        let r = zip_sub(self, Self::splat(other));
        proof {
            r.lemma_comps();
        }
        r
    }
}

impl<T: Number> SubSpecImpl<T> for Vec4<T> {
    open spec fn obeys_sub_spec() -> bool {
        true
    }

    open spec fn sub_req(self, other: T) -> bool {
        &&& all_fit::<T>(sub_seq(self@, splat_seq(4, other.val())))
    }

    open spec fn sub_spec(self, other: T) -> Self {
        Self::from_comps(sub_seq(self@, splat_seq(4, other.val())))
    }
}

impl<T: Number> std::ops::Mul for Vec4<T> {
    type Output = Self;

    fn mul(self, other: Self) -> (r: Self) {
        let r = zip_mul(self, other);
        proof {
            r.lemma_comps();
        }
        r
    }
}

impl<T: Number> MulSpecImpl for Vec4<T> {
    open spec fn obeys_mul_spec() -> bool {
        true
    }

    open spec fn mul_req(self, other: Self) -> bool {
        &&& all_fit::<T>(mul_seq(self@, other@))
    }

    open spec fn mul_spec(self, other: Self) -> Self {
        Self::from_comps(mul_seq(self@, other@))
    }
}

impl<T: Number> std::ops::Mul<T> for Vec4<T> {
    type Output = Self;

    fn mul(self, other: T) -> (r: Self) {
        let r = zip_mul(self, Self::splat(other));
        proof {
            r.lemma_comps();
        }
        r
    }
}

impl<T: Number> MulSpecImpl<T> for Vec4<T> {
    open spec fn obeys_mul_spec() -> bool {
        true
    }

    open spec fn mul_req(self, other: T) -> bool {
        &&& all_fit::<T>(mul_seq(self@, splat_seq(4, other.val())))
    }

    open spec fn mul_spec(self, other: T) -> Self {
        Self::from_comps(mul_seq(self@, splat_seq(4, other.val())))
    }
}

impl<T: Number> std::ops::Div for Vec4<T> {
    type Output = Self;

    fn div(self, other: Self) -> (r: Self) {
        let r = zip_div(self, other);
        proof {
            r.lemma_comps();
        }
        r
    }
}

impl<T: Number> DivSpecImpl for Vec4<T> {
    open spec fn obeys_div_spec() -> bool {
        true
    }

    open spec fn div_req(self, other: Self) -> bool {
        &&& no_zero(other@)
        &&& all_fit::<T>(div_seq(self@, other@))
    }

    open spec fn div_spec(self, other: Self) -> Self {
        Self::from_comps(div_seq(self@, other@))
    }
}

impl<T: Number> std::ops::Div<T> for Vec4<T> {
    type Output = Self;

    fn div(self, other: T) -> (r: Self) {
        let r = zip_div(self, Self::splat(other));
        proof {
            r.lemma_comps();
        }
        r
    }
}

impl<T: Number> DivSpecImpl<T> for Vec4<T> {
    open spec fn obeys_div_spec() -> bool {
        true
    }

    open spec fn div_req(self, other: T) -> bool {
        &&& other.val() != 0
        &&& all_fit::<T>(div_seq(self@, splat_seq(4, other.val())))
    }

    open spec fn div_spec(self, other: T) -> Self {
        Self::from_comps(div_seq(self@, splat_seq(4, other.val())))
    }
}

impl<T: SignedNumber> std::ops::Neg for Vec4<T> {
    type Output = Self;

    fn neg(self) -> (r: Self) {
        let r = negate(self);
        proof {
            r.lemma_comps();
        }
        r
    }
}

impl<T: SignedNumber> NegSpecImpl for Vec4<T> {
    open spec fn obeys_neg_spec() -> bool {
        true
    }

    open spec fn neg_req(self) -> bool {
        all_fit::<T>(neg_seq(self@))
    }

    open spec fn neg_spec(self) -> Self {
        Self::from_comps(neg_seq(self@))
    }
}

impl<T: Number> Eq for Vec4<T> {
}

impl<T: Number> PartialEq for Vec4<T> {
    fn eq(&self, other: &Self) -> (r: bool) {
        self.x.equal(other.x) && self.y.equal(other.y) && self.z.equal(other.z) && self.w.equal(other.w)
    }
}

/// Two vectors are equal where every pair of components is.
impl<T: Number> PartialEqSpecImpl for Vec4<T> {
    open spec fn obeys_eq_spec() -> bool {
        true
    }

    open spec fn eq_spec(&self, other: &Self) -> bool {
        self.x.val() == other.x.val() && self.y.val() == other.y.val() && self.z.val() == other.z.val() && self.w.val() == other.w.val()
    }
}

/// dot product of two 4-dimensional vectors: the sum of the products of
/// their paired components
pub fn dot<T: Number>(a: Vec4<T>, b: Vec4<T>) -> (r: T)
    requires
        crate::dot_fits::<T>(a@, b@),
    ensures
        r.val() == dot_of(a@, b@),
        r.val() == a.x.val() * b.x.val() + a.y.val() * b.y.val() + a.z.val() * b.z.val() + a.w.val() * b.w.val(),
{
    proof {
        lemma_dot_of_4(a@, b@);
    }
    crate::dot(a, b)
}

} // verus!
