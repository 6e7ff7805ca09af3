use vstd::prelude::*;

verus! {

/// What the oriented-box query asks of a matrix besides its product with a
/// point: an inverse. The matrix says on which values it has one, and names it.
pub trait MatInverse<T>: Sized {
    /// The matrix has an inverse that the scalar type holds.
    spec fn inverse_req(&self) -> bool;

    /// The inverse.
    spec fn inverse_spec(&self) -> Self;

    fn inverse(&self) -> (r: Self)
        requires
            self.inverse_req(),
        ensures
            r == self.inverse_spec(),
    ;
}

} // verus!
