use vstd::prelude::*;
use crate::grid::{mapped, zipped, Grid};

verus! {

/// What a backend owns: its tensor handles, its devices, and the grid that
/// each handle stands for.
pub trait Backend: Sized {
    /// Handle of an integer tensor.
    type IntTensor;

    /// Handle of a boolean tensor.
    type BoolTensor;

    /// Handle of a float tensor.
    type FloatTensor;

    /// A float value, as far as contracts speak of one.
    type FloatElem;

    /// Where a tensor lives.
    type Device;

    /// The grid that an integer tensor stands for.
    spec fn int_model(t: &Self::IntTensor) -> Grid<i64>;

    /// The grid that a boolean tensor stands for.
    spec fn bool_model(t: &Self::BoolTensor) -> Grid<bool>;

    /// The grid that a float tensor stands for.
    spec fn float_model(t: &Self::FloatTensor) -> Grid<Self::FloatElem>;

    /// The device that an integer tensor lives on.
    spec fn int_place(t: &Self::IntTensor) -> Self::Device;

    /// The device that a float tensor lives on.
    spec fn float_place(t: &Self::FloatTensor) -> Self::Device;

    /// The grid of every integer tensor is well-formed.
    proof fn lemma_int_wf(t: &Self::IntTensor)
        ensures
            Self::int_model(t).wf(),
    ;
}

/// The operations on float tensors that integer power is built on. What a
/// power and a conversion give on single values is the backend's to say.
pub trait FloatTensorOps: Backend {
    /// `x` raised to `y` in the backend's float arithmetic.
    spec fn float_pow(x: Self::FloatElem, y: Self::FloatElem) -> Self::FloatElem;

    /// The integer that a float value converts to on this backend.
    spec fn float_to_int(x: Self::FloatElem) -> i64;

    /// The tensor with every value converted to an integer.
    fn float_into_int(tensor: Self::FloatTensor) -> (r: Self::IntTensor)
        ensures
            Self::int_model(&r) == mapped(
                Self::float_model(&tensor),
                |x: Self::FloatElem| Self::float_to_int(x),
            ),
            Self::int_place(&r) == Self::float_place(&tensor),
    ;

    /// The values of `lhs` raised to the values of `rhs`.
    fn float_powf(lhs: Self::FloatTensor, rhs: Self::FloatTensor) -> (r: Self::FloatTensor)
        requires
            Self::float_model(&lhs).shape == Self::float_model(&rhs).shape,
        ensures
            Self::float_model(&r) == zipped(
                Self::float_model(&lhs),
                Self::float_model(&rhs),
                |x: Self::FloatElem, y: Self::FloatElem| Self::float_pow(x, y),
            ),
            Self::float_place(&r) == Self::float_place(&lhs),
    ;
}

} // verus!
