use vstd::prelude::*;
use crate::model::{add_seq, div_seq, mul_seq, neg_seq, no_zero, splat_seq, sub_seq};
use crate::vec::{all_fit, fits, Number, SignedNumber};

verus! {

/// What the numeric operations are written against: a scalar or a vector,
/// seen as its components in order. A scalar has one component. Every
/// operation runs on each component independently.
pub trait NumberOps<T: Number>: Copy + Sized {
    /// The integers the components stand for, in order.
    spec fn comps(self) -> Seq<int>;

    /// The number of components.
    spec fn dim() -> nat;

    /// The value whose components stand for `s`.
    spec fn from_comps(s: Seq<int>) -> Self;

    /// A value has `dim()` components, each in the scalar's range, and they
    /// name the value.
    proof fn lemma_comps(self)
        ensures
            self.comps().len() == Self::dim(),
            all_fit::<T>(self.comps()),
            Self::from_comps(self.comps()) == self,
    ;

    /// Every sequence of `dim()` integers of the scalar's range has its value.
    proof fn lemma_from_comps(s: Seq<int>)
        requires
            s.len() == Self::dim(),
            all_fit::<T>(s),
        ensures
            Self::from_comps(s).comps() == s,
    ;

    /// The number of components.
    fn lanes() -> (n: usize)
        ensures
            n == Self::dim(),
    ;

    /// The component at `i`.
    fn lane(&self, i: usize) -> (r: T)
        requires
            i < Self::dim(),
        ensures
            r.val() == self.comps()[i as int],
    ;

    /// Replaces the component at `i`.
    fn set_lane(&mut self, i: usize, v: T)
        requires
            i < Self::dim(),
        ensures
            final(self).comps() == old(self).comps().update(i as int, v.val()),
    ;

    /// The value whose components all equal `v`.
    fn splat(v: T) -> (r: Self)
        ensures
            r.comps() == splat_seq(Self::dim(), v.val()),
    ;
}

impl<T: Number> NumberOps<T> for T {
    open spec fn comps(self) -> Seq<int> {
        seq![self.val()]
    }

    open spec fn dim() -> nat {
        1
    }

    open spec fn from_comps(s: Seq<int>) -> Self {
        T::from_int(s[0])
    }

    proof fn lemma_comps(self) {
        self.lemma_val();
    }

    proof fn lemma_from_comps(s: Seq<int>) {
        assert(fits::<T>(s[0]));
        T::lemma_from_int(s[0]);
        assert(seq![T::from_int(s[0]).val()] =~= s);
    }

    fn lanes() -> (n: usize) {
        1
    }

    fn lane(&self, i: usize) -> (r: T) {
        *self
    }

    fn set_lane(&mut self, i: usize, v: T) {
        *self = v;
        assert(seq![v.val()] =~= old(self).comps().update(i as int, v.val()));
    }

    fn splat(v: T) -> (r: Self) {
        assert(seq![v.val()] =~= splat_seq(1, v.val()));
        v
    }
}

/// Two values with the same components are the same value.
pub proof fn lemma_comps_injective<T: Number, V: NumberOps<T>>(a: V, b: V)
    requires
        a.comps() == b.comps(),
    ensures
        a == b,
{
    a.lemma_comps();
    b.lemma_comps();
}

/// Componentwise sum.
pub fn zip_add<T: Number, V: NumberOps<T>>(a: V, b: V) -> (r: V)
    requires
        all_fit::<T>(add_seq(a.comps(), b.comps())),
    ensures
        r.comps() == add_seq(a.comps(), b.comps()),
{
    let n = V::lanes();
    let mut r = a;
    let mut i: usize = 0;
    proof {
        a.lemma_comps();
        b.lemma_comps();
    }
    while i < n
        invariant
            n == V::dim(),
            i <= n,
            a.comps().len() == n,
            b.comps().len() == n,
            r.comps().len() == n,
            all_fit::<T>(add_seq(a.comps(), b.comps())),
            forall|j: int| 0 <= j < i ==> r.comps()[j] == add_seq(a.comps(), b.comps())[j],
        decreases n - i,
    {
        let x = a.lane(i);
        let y = b.lane(i);
        assert(fits::<T>(add_seq(a.comps(), b.comps())[i as int]));
        r.set_lane(i, x.add(y));
        i += 1;
    }
    assert(r.comps() =~= add_seq(a.comps(), b.comps()));
    r
}

/// Componentwise difference.
pub fn zip_sub<T: Number, V: NumberOps<T>>(a: V, b: V) -> (r: V)
    requires
        all_fit::<T>(sub_seq(a.comps(), b.comps())),
    ensures
        r.comps() == sub_seq(a.comps(), b.comps()),
{
    let n = V::lanes();
    let mut r = a;
    let mut i: usize = 0;
    proof {
        a.lemma_comps();
        b.lemma_comps();
    }
    while i < n
        invariant
            n == V::dim(),
            i <= n,
            a.comps().len() == n,
            b.comps().len() == n,
            r.comps().len() == n,
            all_fit::<T>(sub_seq(a.comps(), b.comps())),
            forall|j: int| 0 <= j < i ==> r.comps()[j] == sub_seq(a.comps(), b.comps())[j],
        decreases n - i,
    {
        let x = a.lane(i);
        let y = b.lane(i);
        assert(fits::<T>(sub_seq(a.comps(), b.comps())[i as int]));
        r.set_lane(i, x.sub(y));
        i += 1;
    }
    assert(r.comps() =~= sub_seq(a.comps(), b.comps()));
    r
}

/// Componentwise product.
pub fn zip_mul<T: Number, V: NumberOps<T>>(a: V, b: V) -> (r: V)
    requires
        all_fit::<T>(mul_seq(a.comps(), b.comps())),
    ensures
        r.comps() == mul_seq(a.comps(), b.comps()),
{
    let n = V::lanes();
    let mut r = a;
    let mut i: usize = 0;
    proof {
        a.lemma_comps();
        b.lemma_comps();
    }
    while i < n
        invariant
            n == V::dim(),
            i <= n,
            a.comps().len() == n,
            b.comps().len() == n,
            r.comps().len() == n,
            all_fit::<T>(mul_seq(a.comps(), b.comps())),
            forall|j: int| 0 <= j < i ==> r.comps()[j] == mul_seq(a.comps(), b.comps())[j],
        decreases n - i,
    {
        let x = a.lane(i);
        let y = b.lane(i);
        assert(fits::<T>(mul_seq(a.comps(), b.comps())[i as int]));
        r.set_lane(i, x.mul(y));
        i += 1;
    }
    assert(r.comps() =~= mul_seq(a.comps(), b.comps()));
    r
}

/// Componentwise quotient, rounded toward zero.
pub fn zip_div<T: Number, V: NumberOps<T>>(a: V, b: V) -> (r: V)
    requires
        no_zero(b.comps()),
        all_fit::<T>(div_seq(a.comps(), b.comps())),
    ensures
        r.comps() == div_seq(a.comps(), b.comps()),
{
    let n = V::lanes();
    let mut r = a;
    let mut i: usize = 0;
    proof {
        a.lemma_comps();
        b.lemma_comps();
    }
    while i < n
        invariant
            n == V::dim(),
            i <= n,
            a.comps().len() == n,
            b.comps().len() == n,
            r.comps().len() == n,
        no_zero(b.comps()),
            all_fit::<T>(div_seq(a.comps(), b.comps())),
            forall|j: int| 0 <= j < i ==> r.comps()[j] == div_seq(a.comps(), b.comps())[j],
        decreases n - i,
    {
        let x = a.lane(i);
        let y = b.lane(i);
        assert(fits::<T>(div_seq(a.comps(), b.comps())[i as int]));
        r.set_lane(i, x.div(y));
        i += 1;
    }
    assert(r.comps() =~= div_seq(a.comps(), b.comps()));
    r
}

/// Componentwise negation.
pub fn negate<T: SignedNumber, V: NumberOps<T>>(a: V) -> (r: V)
    requires
        all_fit::<T>(neg_seq(a.comps())),
    ensures
        r.comps() == neg_seq(a.comps()),
{
    let n = V::lanes();
    let mut r = a;
    let mut i: usize = 0;
    proof {
        a.lemma_comps();
    }
    while i < n
        invariant
            n == V::dim(),
            i <= n,
            a.comps().len() == n,
            r.comps().len() == n,
            all_fit::<T>(neg_seq(a.comps())),
            forall|j: int| 0 <= j < i ==> r.comps()[j] == neg_seq(a.comps())[j],
        decreases n - i,
    {
        let x = a.lane(i);
        assert(fits::<T>(neg_seq(a.comps())[i as int]));
        r.set_lane(i, x.neg());
        i += 1;
    }
    assert(r.comps() =~= neg_seq(a.comps()));
    r
}

} // verus!
