use vstd::prelude::*;
use std::ops::Range;
use crate::arange::{arange_grid, arange_values, lemma_arange_loaded};
use crate::backend::FloatTensorOps;
use crate::error::TensorError;
use crate::grid::{
    blended,
    box_shape,
    constant,
    count,
    dims_swapped,
    filled_where,
    gather_fits,
    gathered,
    in_bounds,
    inside,
    joinable,
    joined,
    joined_extent,
    joined_shape,
    line_sums,
    magnitude,
    mapped,
    overwritten,
    quotient,
    repeated,
    scatter_fits,
    scattered,
    select_added,
    select_fits,
    selected,
    unshifted,
    window,
    wrap,
    zipped,
    Grid,
};
use crate::extremes::{
    is_argmax,
    is_argmin,
    is_line_max,
    is_line_min,
    is_max_of,
    is_min_of,
    lemma_count_single,
    lemma_flat_extreme,
    lemma_gather_arg_extreme,
};
use crate::layout::{loaded, reshaped, total, values_of};
use crate::ranges::{
    band_hi,
    band_lo,
    band_ranges,
    highs,
    lemma_piece_start,
    lows,
    piece_count,
    piece_start,
    ranges_fit,
};
use crate::shape::{Data, Shape};

verus! {

/// The grids of a sequence of tensor handles, in order, where `model` gives
/// the grid of one handle.
pub open spec fn models_of<T>(tensors: Seq<T>, model: spec_fn(T) -> Grid<i64>) -> Seq<Grid<i64>> {
    Seq::new(tensors.len(), |k: int| model(tensors[k]))
}

/// Operations on integer tensors.
///
/// A backend implements the operations declared without a body on its own
/// tensor handles. The operations that come with a body are built from those
/// and behave the same on every backend. Elements are 64-bit integers and
/// arithmetic wraps around.
///
/// Every contract speaks of the grid of a handle (`int_model`, `bool_model`,
/// `float_model`): its extents and its value at each multi-index. A handle
/// lives on one device (`int_place`).
///
/// An operation whose result is a `Result` refuses operands that do not fit,
/// and its contract says which error it returns for which operands. The
/// other operations demand fitting operands of their caller.
pub trait IntTensorOps: FloatTensorOps {
    /// The float value that an integer converts to on this backend.
    spec fn int_to_float(x: i64) -> Self::FloatElem;

    /// The tensor with every value converted to floating point.
    fn int_into_float(tensor: Self::IntTensor) -> (r: Self::FloatTensor)
        ensures
            Self::float_model(&r) == mapped(
                Self::int_model(&tensor),
                |x: i64| Self::int_to_float(x),
            ),
            Self::float_place(&r) == Self::int_place(&tensor),
    ;

    /// A tensor of the given shape on the given device; its values are
    /// whatever the backend left there.
    fn int_empty(shape: Shape, device: &Self::Device) -> (r: Self::IntTensor)
        requires
            count(shape@) <= usize::MAX,
        ensures
            Self::int_model(&r).shape == shape@,
            Self::int_place(&r) == *device,
    ;

    /// The shape of a tensor.
    fn int_shape(tensor: &Self::IntTensor) -> (s: Shape)
        ensures
            s@ == Self::int_model(tensor).shape,
    ;

    /// A host-side snapshot of the tensor: its shape and its values in
    /// row-major order.
    fn int_into_data(tensor: Self::IntTensor) -> (d: Data)
        ensures
            d.shape@ == Self::int_model(&tensor).shape,
            d.value@ == values_of(Self::int_model(&tensor)),
    ;

    /// A second handle for the same tensor.
    fn int_clone(tensor: &Self::IntTensor) -> (r: Self::IntTensor)
        ensures
            Self::int_model(&r) == Self::int_model(tensor),
            Self::int_place(&r) == Self::int_place(tensor),
    ;

    /// A snapshot of the tensor that leaves the handle usable.
    fn int_to_data(tensor: &Self::IntTensor) -> (d: Data)
        ensures
            d.shape@ == Self::int_model(tensor).shape,
            d.value@ == values_of(Self::int_model(tensor)),
    {
        Self::int_into_data(Self::int_clone(tensor))
    }

    /// The tensor on `device` that a snapshot describes.
    fn int_from_data(data: Data, device: &Self::Device) -> (r: Self::IntTensor)
        requires
            data.value@.len() == count(data.shape@),
        ensures
            Self::int_model(&r) == loaded(data.value@, data.shape@),
            Self::int_place(&r) == *device,
    ;

    /// The device of a tensor.
    fn int_device(tensor: &Self::IntTensor) -> (d: Self::Device)
        ensures
            d == Self::int_place(tensor),
    ;

    /// The same tensor on another device.
    fn int_to_device(tensor: Self::IntTensor, device: &Self::Device) -> (r: Self::IntTensor)
        ensures
            Self::int_model(&r) == Self::int_model(&tensor),
            Self::int_place(&r) == *device,
    ;

    /// The values of the tensor, kept in row-major order, under a new shape.
    /// Refused with `ShapeMismatch` unless the new shape has as many positions.
    fn int_reshape(tensor: Self::IntTensor, shape: Shape) -> (r: Result<
        Self::IntTensor,
        TensorError,
    >)
        ensures
            match r {
                Ok(t) => count(shape@) == count(Self::int_model(&tensor).shape) && Self::int_model(
                    &t,
                ) == reshaped(Self::int_model(&tensor), shape@) && Self::int_place(&t)
                    == Self::int_place(&tensor),
                Err(e) => count(shape@) != count(Self::int_model(&tensor).shape) && e
                    == TensorError::ShapeMismatch,
            },
    ;

    /// The part of the tensor inside the given ranges, one range per leading
    /// dimension. Refused with `OutOfRange` unless every range lies inside
    /// its extent.
    fn int_slice(tensor: Self::IntTensor, ranges: Vec<Range<usize>>) -> (r: Result<
        Self::IntTensor,
        TensorError,
    >)
        ensures
            match r {
                Ok(t) => ranges_fit(ranges@, Self::int_model(&tensor).shape) && Self::int_model(&t)
                    == window(
                    Self::int_model(&tensor),
                    lows(ranges@, Self::int_model(&tensor).shape),
                    highs(ranges@, Self::int_model(&tensor).shape),
                ) && Self::int_place(&t) == Self::int_place(&tensor),
                Err(e) => !ranges_fit(ranges@, Self::int_model(&tensor).shape) && e
                    == TensorError::OutOfRange,
            },
    ;

    /// The tensor with the part inside the given ranges replaced by `value`.
    /// Refused with `OutOfRange` unless every range lies inside its extent,
    /// and otherwise with `ShapeMismatch` unless `value` has the extents of
    /// the selected part.
    fn int_slice_assign(
        tensor: Self::IntTensor,
        ranges: Vec<Range<usize>>,
        value: Self::IntTensor,
    ) -> (r: Result<Self::IntTensor, TensorError>)
        ensures
            match r {
                Ok(t) => ranges_fit(ranges@, Self::int_model(&tensor).shape) && Self::int_model(
                    &value,
                ).shape == box_shape(
                    lows(ranges@, Self::int_model(&tensor).shape),
                    highs(ranges@, Self::int_model(&tensor).shape),
                ) && Self::int_model(&t) == overwritten(
                    Self::int_model(&tensor),
                    lows(ranges@, Self::int_model(&tensor).shape),
                    highs(ranges@, Self::int_model(&tensor).shape),
                    Self::int_model(&value),
                ) && Self::int_place(&t) == Self::int_place(&tensor),
                Err(e) => if !ranges_fit(ranges@, Self::int_model(&tensor).shape) {
                    e == TensorError::OutOfRange
                } else {
                    Self::int_model(&value).shape != box_shape(
                        lows(ranges@, Self::int_model(&tensor).shape),
                        highs(ranges@, Self::int_model(&tensor).shape),
                    ) && e == TensorError::ShapeMismatch
                },
            },
    ;

    /// The tensor with the values of `source` wherever the mask is set.
    fn int_mask_where(
        tensor: Self::IntTensor,
        mask: Self::BoolTensor,
        source: Self::IntTensor,
    ) -> (r: Self::IntTensor)
        requires
            Self::bool_model(&mask).shape == Self::int_model(&tensor).shape,
            Self::int_model(&source).shape == Self::int_model(&tensor).shape,
        ensures
            Self::int_model(&r) == blended(
                Self::int_model(&tensor),
                Self::bool_model(&mask),
                Self::int_model(&source),
            ),
            Self::int_place(&r) == Self::int_place(&tensor),
    ;

    /// The tensor with `value` wherever the mask is set.
    fn int_mask_fill(tensor: Self::IntTensor, mask: Self::BoolTensor, value: i64) -> (r:
        Self::IntTensor)
        requires
            Self::bool_model(&mask).shape == Self::int_model(&tensor).shape,
        ensures
            Self::int_model(&r) == filled_where(
                Self::int_model(&tensor),
                Self::bool_model(&mask),
                value,
            ),
            Self::int_place(&r) == Self::int_place(&tensor),
    ;

    /// For each position of `indices`, the value of the tensor found by
    /// replacing the coordinate along `dim` with the index stored there.
    fn int_gather(dim: usize, tensor: Self::IntTensor, indices: Self::IntTensor) -> (r:
        Self::IntTensor)
        requires
            gather_fits(dim as int, Self::int_model(&tensor), Self::int_model(&indices)),
        ensures
            Self::int_model(&r) == gathered(
                dim as int,
                Self::int_model(&tensor),
                Self::int_model(&indices),
            ),
            Self::int_place(&r) == Self::int_place(&tensor),
    ;

    /// The tensor after adding each value to the position that its index
    /// names along `dim`. Values sent to the same position add up.
    fn int_scatter(
        dim: usize,
        tensor: Self::IntTensor,
        indices: Self::IntTensor,
        value: Self::IntTensor,
    ) -> (r: Self::IntTensor)
        requires
            scatter_fits(
                dim as int,
                Self::int_model(&tensor),
                Self::int_model(&indices),
                Self::int_model(&value),
            ),
        ensures
            Self::int_model(&r) == scattered(
                dim as int,
                Self::int_model(&tensor),
                Self::int_model(&indices),
                Self::int_model(&value),
            ),
            Self::int_place(&r) == Self::int_place(&tensor),
    ;

    /// The slices of the tensor along `dim` that the index list names, in
    /// the order of the list.
    fn int_select(tensor: Self::IntTensor, dim: usize, indices: Self::IntTensor) -> (r:
        Self::IntTensor)
        requires
            select_fits(Self::int_model(&tensor), dim as int, Self::int_model(&indices)),
            count(
                Self::int_model(&tensor).shape.update(
                    dim as int,
                    Self::int_model(&indices).shape[0],
                ),
            ) <= usize::MAX,
        ensures
            Self::int_model(&r) == selected(
                Self::int_model(&tensor),
                dim as int,
                Self::int_model(&indices),
            ),
            Self::int_place(&r) == Self::int_place(&tensor),
    ;

    /// The tensor after adding each slice of `value` to the slice that its
    /// entry in the index list names along `dim`. Slices sent to the same
    /// place add up.
    fn int_select_assign(
        tensor: Self::IntTensor,
        dim: usize,
        indices: Self::IntTensor,
        value: Self::IntTensor,
    ) -> (r: Self::IntTensor)
        requires
            select_fits(Self::int_model(&tensor), dim as int, Self::int_model(&indices)),
            Self::int_model(&value).shape == Self::int_model(&tensor).shape.update(
                dim as int,
                Self::int_model(&indices).shape[0],
            ),
        ensures
            Self::int_model(&r) == select_added(
                Self::int_model(&tensor),
                dim as int,
                Self::int_model(&indices),
                Self::int_model(&value),
            ),
            Self::int_place(&r) == Self::int_place(&tensor),
    ;

    /// The tensors laid one after another along `dim`. Refused with
    /// `InvalidArgument` when there is no tensor, with `OutOfRange` when the
    /// first tensor has no dimension `dim`, and with `ShapeMismatch` when the
    /// tensors differ in rank or in an extent other than that along `dim`.
    fn int_cat(tensors: Vec<Self::IntTensor>, dim: usize) -> (r: Result<
        Self::IntTensor,
        TensorError,
    >)
        requires
            tensors@.len() > 0 && dim < Self::int_model(&tensors@[0]).shape.len() && joinable(
                models_of(tensors@, |t: Self::IntTensor| Self::int_model(&t)),
                dim as int,
            ) ==> joined_extent(models_of(tensors@, |t: Self::IntTensor| Self::int_model(&t)), dim as int, tensors@.len() as int)
                <= usize::MAX && count(joined_shape(models_of(tensors@, |t: Self::IntTensor| Self::int_model(&t)), dim as int))
                <= usize::MAX,
        ensures
            match r {
                Ok(t) => tensors@.len() > 0 && dim < Self::int_model(&tensors@[0]).shape.len()
                    && joinable(models_of(tensors@, |t: Self::IntTensor| Self::int_model(&t)), dim as int) && Self::int_model(&t)
                    == joined(models_of(tensors@, |t: Self::IntTensor| Self::int_model(&t)), dim as int) && Self::int_place(&t)
                    == Self::int_place(&tensors@[0]),
                Err(e) => if tensors@.len() == 0 {
                    e == TensorError::InvalidArgument
                } else if dim >= Self::int_model(&tensors@[0]).shape.len() {
                    e == TensorError::OutOfRange
                } else {
                    !joinable(models_of(tensors@, |t: Self::IntTensor| Self::int_model(&t)), dim as int) && e
                        == TensorError::ShapeMismatch
                },
            },
    ;

    /// Where the two tensors hold equal values.
    fn int_equal(lhs: Self::IntTensor, rhs: Self::IntTensor) -> (r: Self::BoolTensor)
        requires
            Self::int_model(&lhs).shape == Self::int_model(&rhs).shape,
        ensures
            Self::bool_model(&r) == zipped(
                Self::int_model(&lhs),
                Self::int_model(&rhs),
                |x: i64, y: i64| x == y,
            ),
    ;

    /// Where the tensor holds `rhs`.
    fn int_equal_elem(lhs: Self::IntTensor, rhs: i64) -> (r: Self::BoolTensor)
        ensures
            Self::bool_model(&r) == mapped(Self::int_model(&lhs), |x: i64| x == rhs),
    ;

    /// Where `lhs` holds a greater value than `rhs`.
    fn int_greater(lhs: Self::IntTensor, rhs: Self::IntTensor) -> (r: Self::BoolTensor)
        requires
            Self::int_model(&lhs).shape == Self::int_model(&rhs).shape,
        ensures
            Self::bool_model(&r) == zipped(
                Self::int_model(&lhs),
                Self::int_model(&rhs),
                |x: i64, y: i64| x > y,
            ),
    ;

    /// Where the tensor holds a value greater than `rhs`.
    fn int_greater_elem(lhs: Self::IntTensor, rhs: i64) -> (r: Self::BoolTensor)
        ensures
            Self::bool_model(&r) == mapped(Self::int_model(&lhs), |x: i64| x > rhs),
    ;

    /// Where `lhs` holds a value greater than or equal to that of `rhs`.
    fn int_greater_equal(lhs: Self::IntTensor, rhs: Self::IntTensor) -> (r: Self::BoolTensor)
        requires
            Self::int_model(&lhs).shape == Self::int_model(&rhs).shape,
        ensures
            Self::bool_model(&r) == zipped(
                Self::int_model(&lhs),
                Self::int_model(&rhs),
                |x: i64, y: i64| x >= y,
            ),
    ;

    /// Where the tensor holds a value greater than or equal to `rhs`.
    fn int_greater_equal_elem(lhs: Self::IntTensor, rhs: i64) -> (r: Self::BoolTensor)
        ensures
            Self::bool_model(&r) == mapped(Self::int_model(&lhs), |x: i64| x >= rhs),
    ;

    /// Where `lhs` holds a lower value than `rhs`.
    fn int_lower(lhs: Self::IntTensor, rhs: Self::IntTensor) -> (r: Self::BoolTensor)
        requires
            Self::int_model(&lhs).shape == Self::int_model(&rhs).shape,
        ensures
            Self::bool_model(&r) == zipped(
                Self::int_model(&lhs),
                Self::int_model(&rhs),
                |x: i64, y: i64| x < y,
            ),
    ;

    /// Where the tensor holds a value lower than `rhs`.
    fn int_lower_elem(lhs: Self::IntTensor, rhs: i64) -> (r: Self::BoolTensor)
        ensures
            Self::bool_model(&r) == mapped(Self::int_model(&lhs), |x: i64| x < rhs),
    ;

    /// Where `lhs` holds a value lower than or equal to that of `rhs`.
    fn int_lower_equal(lhs: Self::IntTensor, rhs: Self::IntTensor) -> (r: Self::BoolTensor)
        requires
            Self::int_model(&lhs).shape == Self::int_model(&rhs).shape,
        ensures
            Self::bool_model(&r) == zipped(
                Self::int_model(&lhs),
                Self::int_model(&rhs),
                |x: i64, y: i64| x <= y,
            ),
    ;

    /// Where the tensor holds a value lower than or equal to `rhs`.
    fn int_lower_equal_elem(lhs: Self::IntTensor, rhs: i64) -> (r: Self::BoolTensor)
        ensures
            Self::bool_model(&r) == mapped(Self::int_model(&lhs), |x: i64| x <= rhs),
    ;

    /// Elementwise sum.
    fn int_add(lhs: Self::IntTensor, rhs: Self::IntTensor) -> (r: Self::IntTensor)
        requires
            Self::int_model(&lhs).shape == Self::int_model(&rhs).shape,
        ensures
            Self::int_model(&r) == zipped(
                Self::int_model(&lhs),
                Self::int_model(&rhs),
                |x: i64, y: i64| wrap(x + y),
            ),
            Self::int_place(&r) == Self::int_place(&lhs),
    ;

    /// Every value plus `rhs`.
    fn int_add_scalar(lhs: Self::IntTensor, rhs: i64) -> (r: Self::IntTensor)
        ensures
            Self::int_model(&r) == mapped(Self::int_model(&lhs), |x: i64| wrap(x + rhs)),
            Self::int_place(&r) == Self::int_place(&lhs),
    ;

    /// Elementwise difference.
    fn int_sub(lhs: Self::IntTensor, rhs: Self::IntTensor) -> (r: Self::IntTensor)
        requires
            Self::int_model(&lhs).shape == Self::int_model(&rhs).shape,
        ensures
            Self::int_model(&r) == zipped(
                Self::int_model(&lhs),
                Self::int_model(&rhs),
                |x: i64, y: i64| wrap(x - y),
            ),
            Self::int_place(&r) == Self::int_place(&lhs),
    ;

    /// Every value minus `rhs`.
    fn int_sub_scalar(lhs: Self::IntTensor, rhs: i64) -> (r: Self::IntTensor)
        ensures
            Self::int_model(&r) == mapped(Self::int_model(&lhs), |x: i64| wrap(x - rhs)),
            Self::int_place(&r) == Self::int_place(&lhs),
    ;

    /// Elementwise product.
    fn int_mul(lhs: Self::IntTensor, rhs: Self::IntTensor) -> (r: Self::IntTensor)
        requires
            Self::int_model(&lhs).shape == Self::int_model(&rhs).shape,
        ensures
            Self::int_model(&r) == zipped(
                Self::int_model(&lhs),
                Self::int_model(&rhs),
                |x: i64, y: i64| wrap(x * y),
            ),
            Self::int_place(&r) == Self::int_place(&lhs),
    ;

    /// Every value times `rhs`.
    fn int_mul_scalar(lhs: Self::IntTensor, rhs: i64) -> (r: Self::IntTensor)
        ensures
            Self::int_model(&r) == mapped(Self::int_model(&lhs), |x: i64| wrap(x * rhs)),
            Self::int_place(&r) == Self::int_place(&lhs),
    ;

    /// Elementwise quotient, rounded toward zero. What stands where the
    /// divisor is zero is the backend's choice.
    fn int_div(lhs: Self::IntTensor, rhs: Self::IntTensor) -> (r: Self::IntTensor)
        requires
            Self::int_model(&lhs).shape == Self::int_model(&rhs).shape,
        ensures
            Self::int_model(&r).shape == Self::int_model(&lhs).shape,
            forall|idx: Seq<int>|
                in_bounds(Self::int_model(&lhs).shape, idx) && Self::int_model(&rhs).at(idx) != 0
                    ==> #[trigger] Self::int_model(&r).at(idx) == wrap(
                    quotient(
                        Self::int_model(&lhs).at(idx) as int,
                        Self::int_model(&rhs).at(idx) as int,
                    ),
                ),
            Self::int_place(&r) == Self::int_place(&lhs),
    ;

    /// Every value divided by `rhs`, rounded toward zero. What stands in the
    /// result when `rhs` is zero is the backend's choice.
    fn int_div_scalar(lhs: Self::IntTensor, rhs: i64) -> (r: Self::IntTensor)
        ensures
            Self::int_model(&r).shape == Self::int_model(&lhs).shape,
            rhs != 0 ==> Self::int_model(&r) == mapped(
                Self::int_model(&lhs),
                |x: i64| wrap(quotient(x as int, rhs as int)),
            ),
            Self::int_place(&r) == Self::int_place(&lhs),
    ;

    /// A tensor of zeros.
    fn int_zeros(shape: Shape, device: &Self::Device) -> (r: Self::IntTensor)
        requires
            count(shape@) <= usize::MAX,
        ensures
            Self::int_model(&r) == constant(shape@, 0i64),
            Self::int_place(&r) == *device,
    ;

    /// A tensor of ones.
    fn int_ones(shape: Shape, device: &Self::Device) -> (r: Self::IntTensor)
        requires
            count(shape@) <= usize::MAX,
        ensures
            Self::int_model(&r) == constant(shape@, 1i64),
            Self::int_place(&r) == *device,
    ;

    /// The sum of all values, as a tensor with one dimension and one value.
    fn int_sum(tensor: Self::IntTensor) -> (r: Self::IntTensor)
        ensures
            Self::int_model(&r) == constant(seq![1int], wrap(total(Self::int_model(&tensor)))),
            Self::int_place(&r) == Self::int_place(&tensor),
    ;

    /// Each line along `dim` collapsed to the sum of its values.
    fn int_sum_dim(tensor: Self::IntTensor, dim: usize) -> (r: Self::IntTensor)
        requires
            dim < Self::int_model(&tensor).shape.len(),
            count(Self::int_model(&tensor).shape.update(dim as int, 1)) <= usize::MAX,
        ensures
            Self::int_model(&r) == line_sums(Self::int_model(&tensor), dim as int),
            Self::int_place(&r) == Self::int_place(&tensor),
    ;

    /// Each line along `dim` collapsed to the sum of its values divided by
    /// the extent of that dimension, rounded toward zero. What stands in the
    /// result when the extent is zero is the backend's choice.
    fn int_mean_dim(tensor: Self::IntTensor, dim: usize) -> (r: Self::IntTensor)
        requires
            dim < Self::int_model(&tensor).shape.len(),
            count(Self::int_model(&tensor).shape.update(dim as int, 1)) <= usize::MAX,
        ensures
            Self::int_model(&r).shape == Self::int_model(&tensor).shape.update(dim as int, 1),
            Self::int_model(&tensor).shape[dim as int] != 0 ==> Self::int_model(&r) == mapped(
                line_sums(Self::int_model(&tensor), dim as int),
                |x: i64| wrap(quotient(x as int, Self::int_model(&tensor).shape[dim as int])),
            ),
            Self::int_place(&r) == Self::int_place(&tensor),
    ;

    /// For each line along `dim`, a position of a largest value on it.
    fn int_argmax(tensor: Self::IntTensor, dim: usize) -> (r: Self::IntTensor)
        requires
            dim < Self::int_model(&tensor).shape.len(),
            Self::int_model(&tensor).shape[dim as int] >= 1,
        ensures
            is_argmax(Self::int_model(&tensor), dim as int, Self::int_model(&r)),
            Self::int_place(&r) == Self::int_place(&tensor),
    ;

    /// For each line along `dim`, a position of a smallest value on it.
    fn int_argmin(tensor: Self::IntTensor, dim: usize) -> (r: Self::IntTensor)
        requires
            dim < Self::int_model(&tensor).shape.len(),
            Self::int_model(&tensor).shape[dim as int] >= 1,
        ensures
            is_argmin(Self::int_model(&tensor), dim as int, Self::int_model(&r)),
            Self::int_place(&r) == Self::int_place(&tensor),
    ;

    /// Every value replaced by its absolute value.
    fn int_abs(tensor: Self::IntTensor) -> (r: Self::IntTensor)
        ensures
            Self::int_model(&r) == mapped(
                Self::int_model(&tensor),
                |x: i64| wrap(magnitude(x as int)),
            ),
            Self::int_place(&r) == Self::int_place(&tensor),
    ;

    /// The tensor with two of its dimensions exchanged.
    fn int_swap_dims(tensor: Self::IntTensor, dim1: usize, dim2: usize) -> (r: Self::IntTensor)
        requires
            dim1 < Self::int_model(&tensor).shape.len(),
            dim2 < Self::int_model(&tensor).shape.len(),
        ensures
            Self::int_model(&r) == dims_swapped(
                Self::int_model(&tensor),
                dim1 as int,
                dim2 as int,
            ),
            Self::int_place(&r) == Self::int_place(&tensor),
    ;

    /// The tensor, whose extent along `dim` must be one, laid `times` times
    /// one after another along `dim`. Refused with `OutOfRange` when the
    /// tensor has no dimension `dim`, and with `InvalidArgument` when its
    /// extent along `dim` is not one.
    fn int_repeat(tensor: Self::IntTensor, dim: usize, times: usize) -> (r: Result<
        Self::IntTensor,
        TensorError,
    >)
        requires
            dim < Self::int_model(&tensor).shape.len() && Self::int_model(&tensor).shape[dim as int]
                == 1 ==> count(Self::int_model(&tensor).shape.update(dim as int, times as int))
                <= usize::MAX,
        ensures
            match r {
                Ok(t) => dim < Self::int_model(&tensor).shape.len() && Self::int_model(
                    &tensor,
                ).shape[dim as int] == 1 && Self::int_model(&t) == repeated(
                    Self::int_model(&tensor),
                    dim as int,
                    times as int,
                ) && Self::int_place(&t) == Self::int_place(&tensor),
                Err(e) => if dim >= Self::int_model(&tensor).shape.len() {
                    e == TensorError::OutOfRange
                } else {
                    Self::int_model(&tensor).shape[dim as int] != 1 && e
                        == TensorError::InvalidArgument
                },
            },
    {
        let ghost source = Self::int_model(&tensor);
        let mut shape = Self::int_shape(&tensor);
        if dim >= shape.dims.len() {
            return Err(TensorError::OutOfRange);
        }
        proof {
            assert(shape@[dim as int] == shape.dims@[dim as int]);
        }
        if shape.dims[dim] != 1 {
            return Err(TensorError::InvalidArgument);
        }
        shape.dims.set(dim, times);
        let ghost target = source.shape.update(dim as int, times as int);
        proof {
            assert(shape@ =~= target);
        }
        let device = Self::int_device(&tensor);
        let mut output = Self::int_empty(shape, &device);
        let whole = Self::int_shape(&output);
        let mut i: usize = 0;
        while i < times
            invariant
                i <= times,
                dim < source.shape.len(),
                source.shape[dim as int] == 1,
                source == Self::int_model(&tensor),
                target == source.shape.update(dim as int, times as int),
                whole@ == target,
                Self::int_model(&output).shape == target,
                Self::int_place(&output) == Self::int_place(&tensor),
                forall|idx: Seq<int>|
                    in_bounds(target, idx) && idx[dim as int] < i ==> #[trigger] Self::int_model(
                        &output,
                    ).at(idx) == source.at(idx.update(dim as int, 0)),
            decreases times - i,
        {
            let ranges = band_ranges(&whole, dim, i, i + 1);
            let ghost before = Self::int_model(&output);
            let ghost lo = band_lo(target, dim as int, i as int);
            let ghost hi = band_hi(target, dim as int, i + 1);
            proof {
                Self::lemma_int_wf(&output);
                assert(source.shape =~= box_shape(lo, hi));
            }
            match Self::int_slice_assign(output, ranges, Self::int_clone(&tensor)) {
                Ok(next) => {
                    proof {
                        assert forall|idx: Seq<int>|
                            in_bounds(target, idx) && idx[dim as int] < i + 1 implies #[trigger] Self::int_model(
                            &next,
                        ).at(idx) == source.at(idx.update(dim as int, 0)) by {
                            assert(idx[dim as int] >= 0);
                            if idx[dim as int] == i {
                                assert(inside(lo, hi, idx));
                                assert(unshifted(idx, lo) =~= idx.update(dim as int, 0));
                            } else {
                                assert(!inside(lo, hi, idx));
                                assert(before.at(idx) == source.at(idx.update(dim as int, 0)));
                            }
                        }
                    }
                    output = next;
                },
                Err(e) => {
                    return Err(e);
                },
            }
            i = i + 1;
        }
        proof {
            Self::lemma_int_wf(&output);
            let built = Self::int_model(&output);
            assert forall|idx: Seq<int>| built.cells.dom().contains(idx) implies built.cells[idx]
                == source.at(idx.update(dim as int, 0)) by {
                assert(in_bounds(target, idx));
                assert(idx[dim as int] < target[dim as int]);
                assert(built.at(idx) == source.at(idx.update(dim as int, 0)));
            }
            assert(Self::int_model(&output).cells =~= repeated(
                source,
                dim as int,
                times as int,
            ).cells);
        }
        Ok(output)
    }

    /// The part of the tensor that holds positions `start..start + length`
    /// along `dim` and every position along the other dimensions. Refused
    /// with `OutOfRange` when the tensor has no dimension `dim` or the
    /// positions reach past its extent along `dim`.
    fn int_narrow(tensor: Self::IntTensor, dim: usize, start: usize, length: usize) -> (r: Result<
        Self::IntTensor,
        TensorError,
    >)
        ensures
            match r {
                Ok(t) => dim < Self::int_model(&tensor).shape.len() && start + length
                    <= Self::int_model(&tensor).shape[dim as int] && Self::int_model(&t) == window(
                    Self::int_model(&tensor),
                    band_lo(Self::int_model(&tensor).shape, dim as int, start as int),
                    band_hi(Self::int_model(&tensor).shape, dim as int, start + length),
                ) && Self::int_place(&t) == Self::int_place(&tensor),
                Err(e) => (dim >= Self::int_model(&tensor).shape.len() || start + length
                    > Self::int_model(&tensor).shape[dim as int]) && e == TensorError::OutOfRange,
            },
    {
        let shape = Self::int_shape(&tensor);
        if dim >= shape.dims.len() {
            return Err(TensorError::OutOfRange);
        }
        proof {
            assert(shape@[dim as int] == shape.dims@[dim as int]);
        }
        let extent = shape.dims[dim];
        if start > extent || length > extent - start {
            return Err(TensorError::OutOfRange);
        }
        let ranges = band_ranges(&shape, dim, start, start + length);
        Self::int_slice(tensor, ranges)
    }

    /// The tensor split along `dim` in `chunks` parts, in the order of their
    /// positions. The widths of the parts differ by at most one, the wider
    /// parts first; where the extent is smaller than `chunks`, each part has
    /// width one and there are as many parts as the extent. Refused with
    /// `OutOfRange` when the tensor has no dimension `dim`, and with
    /// `InvalidArgument` when `chunks` is zero.
    fn int_chunk(tensor: Self::IntTensor, chunks: usize, dim: usize) -> (r: Result<
        Vec<Self::IntTensor>,
        TensorError,
    >)
        ensures
            match r {
                Ok(parts) => dim < Self::int_model(&tensor).shape.len() && chunks > 0
                    && parts@.len() == piece_count(
                    Self::int_model(&tensor).shape[dim as int],
                    chunks as int,
                ) && forall|k: int|
                    0 <= k < parts@.len() ==> Self::int_model(&#[trigger] parts@[k]) == window(
                        Self::int_model(&tensor),
                        band_lo(
                            Self::int_model(&tensor).shape,
                            dim as int,
                            piece_start(
                                Self::int_model(&tensor).shape[dim as int],
                                chunks as int,
                                k,
                            ),
                        ),
                        band_hi(
                            Self::int_model(&tensor).shape,
                            dim as int,
                            piece_start(
                                Self::int_model(&tensor).shape[dim as int],
                                chunks as int,
                                k + 1,
                            ),
                        ),
                    ) && Self::int_place(&parts@[k]) == Self::int_place(&tensor),
                Err(e) => if dim >= Self::int_model(&tensor).shape.len() {
                    e == TensorError::OutOfRange
                } else {
                    chunks == 0 && e == TensorError::InvalidArgument
                },
            },
    {
        let ghost source = Self::int_model(&tensor);
        let shape = Self::int_shape(&tensor);
        if dim >= shape.dims.len() {
            return Err(TensorError::OutOfRange);
        }
        if chunks == 0 {
            return Err(TensorError::InvalidArgument);
        }
        proof {
            assert(shape@[dim as int] == shape.dims@[dim as int]);
        }
        let size = shape.dims[dim];
        let base = size / chunks;
        let extra = size % chunks;
        let pieces = if size < chunks {
            size
        } else {
            chunks
        };
        let mut parts: Vec<Self::IntTensor> = Vec::new();
        let mut start: usize = 0;
        let mut k: usize = 0;
        while k < pieces
            invariant
                k <= pieces,
                pieces == piece_count(size as int, chunks as int),
                chunks > 0,
                base == size / chunks,
                extra == size % chunks,
                dim < source.shape.len(),
                size == source.shape[dim as int],
                source == Self::int_model(&tensor),
                start == piece_start(size as int, chunks as int, k as int),
                parts@.len() == k,
                forall|j: int|
                    0 <= j < k ==> Self::int_model(&#[trigger] parts@[j]) == window(
                        source,
                        band_lo(
                            source.shape,
                            dim as int,
                            piece_start(size as int, chunks as int, j),
                        ),
                        band_hi(
                            source.shape,
                            dim as int,
                            piece_start(size as int, chunks as int, j + 1),
                        ),
                    ) && Self::int_place(&parts@[j]) == Self::int_place(&tensor),
            decreases pieces - k,
        {
            proof {
                lemma_piece_start(size as int, chunks as int, k as int);
            }
            let width = if k < extra {
                base + 1
            } else {
                base
            };
            match Self::int_narrow(Self::int_clone(&tensor), dim, start, width) {
                Ok(part) => {
                    parts.push(part);
                },
                Err(e) => {
                    return Err(e);
                },
            }
            start = start + width;
            k = k + 1;
        }
        proof {
            if pieces == 0 {
                assert(piece_start(size as int, chunks as int, 0) == 0);
            }
        }
        Ok(parts)
    }

    /// The values of `lhs` raised to the values of `rhs`: both are converted
    /// to floating point, the power is taken there, and the result is
    /// converted back. Large magnitudes lose precision on the way.
    fn int_powi(lhs: Self::IntTensor, rhs: Self::IntTensor) -> (r: Self::IntTensor)
        requires
            Self::int_model(&lhs).shape == Self::int_model(&rhs).shape,
        ensures
            Self::int_model(&r) == zipped(
                Self::int_model(&lhs),
                Self::int_model(&rhs),
                |x: i64, y: i64|
                    Self::float_to_int(
                        Self::float_pow(Self::int_to_float(x), Self::int_to_float(y)),
                    ),
            ),
            Self::int_place(&r) == Self::int_place(&lhs),
    {
        let r = Self::float_into_int(
            Self::float_powf(Self::int_into_float(lhs), Self::int_into_float(rhs)),
        );
        proof {
            assert(Self::int_model(&r).cells =~= zipped(
                Self::int_model(&lhs),
                Self::int_model(&rhs),
                |x: i64, y: i64|
                    Self::float_to_int(
                        Self::float_pow(Self::int_to_float(x), Self::int_to_float(y)),
                    ),
            ).cells);
        }
        r
    }

    /// The values of `lhs` raised to the values of the float tensor `rhs`:
    /// `lhs` is converted to floating point, the power is taken there, and
    /// the result is converted to integers.
    fn int_powf(lhs: Self::IntTensor, rhs: Self::FloatTensor) -> (r: Self::IntTensor)
        requires
            Self::int_model(&lhs).shape == Self::float_model(&rhs).shape,
        ensures
            Self::int_model(&r) == zipped(
                Self::int_model(&lhs),
                Self::float_model(&rhs),
                |x: i64, y: Self::FloatElem|
                    Self::float_to_int(Self::float_pow(Self::int_to_float(x), y)),
            ),
            Self::int_place(&r) == Self::int_place(&lhs),
    {
        let r = Self::float_into_int(Self::float_powf(Self::int_into_float(lhs), rhs));
        proof {
            assert(Self::int_model(&r).cells =~= zipped(
                Self::int_model(&lhs),
                Self::float_model(&rhs),
                |x: i64, y: Self::FloatElem|
                    Self::float_to_int(Self::float_pow(Self::int_to_float(x), y)),
            ).cells);
        }
        r
    }

    /// Every value below `min` raised to `min`.
    fn int_clamp_min(tensor: Self::IntTensor, min: i64) -> (r: Self::IntTensor)
        ensures
            Self::int_model(&r) == mapped(
                Self::int_model(&tensor),
                |x: i64|
                    if x < min {
                        min
                    } else {
                        x
                    },
            ),
            Self::int_place(&r) == Self::int_place(&tensor),
    {
        let mask = Self::int_lower_elem(Self::int_clone(&tensor), min);
        let r = Self::int_mask_fill(tensor, mask, min);
        proof {
            Self::lemma_int_wf(&tensor);
            assert(Self::int_model(&r).cells =~= mapped(
                Self::int_model(&tensor),
                |x: i64|
                    if x < min {
                        min
                    } else {
                        x
                    },
            ).cells);
        }
        r
    }

    /// Every value above `max` lowered to `max`.
    fn int_clamp_max(tensor: Self::IntTensor, max: i64) -> (r: Self::IntTensor)
        ensures
            Self::int_model(&r) == mapped(
                Self::int_model(&tensor),
                |x: i64|
                    if x > max {
                        max
                    } else {
                        x
                    },
            ),
            Self::int_place(&r) == Self::int_place(&tensor),
    {
        let mask = Self::int_greater_elem(Self::int_clone(&tensor), max);
        let r = Self::int_mask_fill(tensor, mask, max);
        proof {
            Self::lemma_int_wf(&tensor);
            assert(Self::int_model(&r).cells =~= mapped(
                Self::int_model(&tensor),
                |x: i64|
                    if x > max {
                        max
                    } else {
                        x
                    },
            ).cells);
        }
        r
    }

    /// Every value above `max` lowered to `max`, and then every value below
    /// `min` raised to `min`.
    fn int_clamp(tensor: Self::IntTensor, min: i64, max: i64) -> (r: Self::IntTensor)
        ensures
            Self::int_model(&r) == mapped(Self::int_model(&tensor), |x: i64| clamped(x, min, max)),
            Self::int_place(&r) == Self::int_place(&tensor),
    {
        let r = Self::int_clamp_min(Self::int_clamp_max(tensor, max), min);
        proof {
            assert(Self::int_model(&r).cells =~= mapped(
                Self::int_model(&tensor),
                |x: i64| clamped(x, min, max),
            ).cells);
        }
        r
    }

    /// Every value negated.
    fn int_neg(tensor: Self::IntTensor) -> (r: Self::IntTensor)
        ensures
            Self::int_model(&r) == mapped(Self::int_model(&tensor), |x: i64| wrap(-x)),
            Self::int_place(&r) == Self::int_place(&tensor),
    {
        let r = Self::int_mul_scalar(tensor, -1);
        proof {
            assert(Self::int_model(&r).cells =~= mapped(
                Self::int_model(&tensor),
                |x: i64| wrap(-x),
            ).cells);
        }
        r
    }

    /// A tensor that holds `fill_value` everywhere.
    fn int_full(shape: Shape, fill_value: i64, device: &Self::Device) -> (r: Self::IntTensor)
        requires
            count(shape@) <= usize::MAX,
        ensures
            Self::int_model(&r) == constant(shape@, fill_value),
            Self::int_place(&r) == *device,
    {
        let ghost extents = shape@;
        let r = Self::int_add_scalar(Self::int_zeros(shape, device), fill_value);
        proof {
            assert(wrap(0 + fill_value) == fill_value);
            assert(Self::int_model(&r).cells =~= constant(extents, fill_value).cells);
        }
        r
    }

    /// The sum of all values divided by their number, rounded toward zero, as
    /// a tensor with one dimension and one value. What it holds for a tensor
    /// without values is the backend's choice.
    fn int_mean(tensor: Self::IntTensor) -> (r: Self::IntTensor)
        ensures
            Self::int_model(&r).shape == seq![1int],
            wrap(count(Self::int_model(&tensor).shape)) != 0 ==> Self::int_model(&r) == constant(
                seq![1int],
                wrap(
                    quotient(
                        wrap(total(Self::int_model(&tensor))) as int,
                        wrap(count(Self::int_model(&tensor).shape)) as int,
                    ),
                ),
            ),
            Self::int_place(&r) == Self::int_place(&tensor),
    {
        proof {
            Self::lemma_int_wf(&tensor);
        }
        let num_elems = Self::int_shape(&tensor).num_elements();
        let divisor = count_as_elem(num_elems);
        let r = Self::int_div_scalar(Self::int_sum(tensor), divisor);
        proof {
            if divisor != 0 {
                assert(Self::int_model(&r).cells =~= constant(
                    seq![1int],
                    wrap(
                        quotient(
                            wrap(total(Self::int_model(&tensor))) as int,
                            wrap(count(Self::int_model(&tensor).shape)) as int,
                        ),
                    ),
                ).cells);
            }
        }
        r
    }

    /// For each line along `dim`, the largest value on it: the value found,
    /// along `dim` itself, at the position that `int_argmax` gives for that
    /// line.
    fn int_max_dim(tensor: Self::IntTensor, dim: usize) -> (r: Self::IntTensor)
        requires
            dim < Self::int_model(&tensor).shape.len(),
            Self::int_model(&tensor).shape[dim as int] >= 1,
        ensures
            is_line_max(Self::int_model(&tensor), dim as int, Self::int_model(&r)),
            Self::int_place(&r) == Self::int_place(&tensor),
    {
        let index = Self::int_argmax(Self::int_clone(&tensor), dim);
        proof {
            lemma_gather_arg_extreme(
                Self::int_model(&tensor),
                dim as int,
                Self::int_model(&index),
                true,
            );
        }
        Self::int_gather(dim, tensor, index)
    }

    /// For each line along `dim`, the largest value on it together with a
    /// position where it stands. The values are those gathered from the
    /// positions.
    fn int_max_dim_with_indices(tensor: Self::IntTensor, dim: usize) -> (r: (
        Self::IntTensor,
        Self::IntTensor,
    ))
        requires
            dim < Self::int_model(&tensor).shape.len(),
            Self::int_model(&tensor).shape[dim as int] >= 1,
        ensures
            is_line_max(Self::int_model(&tensor), dim as int, Self::int_model(&r.0)),
            is_argmax(Self::int_model(&tensor), dim as int, Self::int_model(&r.1)),
            Self::int_model(&r.0) == gathered(
                dim as int,
                Self::int_model(&tensor),
                Self::int_model(&r.1),
            ),
            Self::int_place(&r.0) == Self::int_place(&tensor),
            Self::int_place(&r.1) == Self::int_place(&tensor),
    {
        let index = Self::int_argmax(Self::int_clone(&tensor), dim);
        proof {
            lemma_gather_arg_extreme(
                Self::int_model(&tensor),
                dim as int,
                Self::int_model(&index),
                true,
            );
        }
        let values = Self::int_gather(dim, tensor, Self::int_clone(&index));
        (values, index)
    }

    /// The largest value of the tensor, as a tensor with one dimension and
    /// one value. Refused with `InvalidArgument` when the tensor holds no
    /// value.
    fn int_max(tensor: Self::IntTensor) -> (r: Result<Self::IntTensor, TensorError>)
        ensures
            match r {
                Ok(t) => count(Self::int_model(&tensor).shape) > 0 && is_max_of(
                    Self::int_model(&tensor),
                    Self::int_model(&t),
                ) && Self::int_place(&t) == Self::int_place(&tensor),
                Err(e) => count(Self::int_model(&tensor).shape) == 0 && e
                    == TensorError::InvalidArgument,
            },
    {
        proof {
            Self::lemma_int_wf(&tensor);
        }
        let shape = Self::int_shape(&tensor);
        let n = shape.num_elements();
        if n == 0 {
            return Err(TensorError::InvalidArgument);
        }
        let mut dims: Vec<usize> = Vec::new();
        dims.push(n);
        let line = Shape::new(dims);
        proof {
            assert(line@ =~= seq![n as int]);
            lemma_count_single(n as int);
        }
        match Self::int_reshape(tensor, line) {
            Ok(flat) => {
                let r = Self::int_max_dim(flat, 0);
                proof {
                    lemma_flat_extreme(Self::int_model(&tensor), Self::int_model(&r), true);
                }
                Ok(r)
            },
            Err(e) => Err(e),
        }
    }

    /// For each line along `dim`, the smallest value on it: the value found,
    /// along `dim` itself, at the position that `int_argmin` gives for that
    /// line.
    fn int_min_dim(tensor: Self::IntTensor, dim: usize) -> (r: Self::IntTensor)
        requires
            dim < Self::int_model(&tensor).shape.len(),
            Self::int_model(&tensor).shape[dim as int] >= 1,
        ensures
            is_line_min(Self::int_model(&tensor), dim as int, Self::int_model(&r)),
            Self::int_place(&r) == Self::int_place(&tensor),
    {
        let index = Self::int_argmin(Self::int_clone(&tensor), dim);
        proof {
            lemma_gather_arg_extreme(
                Self::int_model(&tensor),
                dim as int,
                Self::int_model(&index),
                false,
            );
        }
        Self::int_gather(dim, tensor, index)
    }

    /// For each line along `dim`, the smallest value on it together with a
    /// position where it stands. The values are those gathered from the
    /// positions.
    fn int_min_dim_with_indices(tensor: Self::IntTensor, dim: usize) -> (r: (
        Self::IntTensor,
        Self::IntTensor,
    ))
        requires
            dim < Self::int_model(&tensor).shape.len(),
            Self::int_model(&tensor).shape[dim as int] >= 1,
        ensures
            is_line_min(Self::int_model(&tensor), dim as int, Self::int_model(&r.0)),
            is_argmin(Self::int_model(&tensor), dim as int, Self::int_model(&r.1)),
            Self::int_model(&r.0) == gathered(
                dim as int,
                Self::int_model(&tensor),
                Self::int_model(&r.1),
            ),
            Self::int_place(&r.0) == Self::int_place(&tensor),
            Self::int_place(&r.1) == Self::int_place(&tensor),
    {
        let index = Self::int_argmin(Self::int_clone(&tensor), dim);
        proof {
            lemma_gather_arg_extreme(
                Self::int_model(&tensor),
                dim as int,
                Self::int_model(&index),
                false,
            );
        }
        let values = Self::int_gather(dim, tensor, Self::int_clone(&index));
        (values, index)
    }

    /// The smallest value of the tensor, as a tensor with one dimension and
    /// one value. Refused with `InvalidArgument` when the tensor holds no
    /// value.
    fn int_min(tensor: Self::IntTensor) -> (r: Result<Self::IntTensor, TensorError>)
        ensures
            match r {
                Ok(t) => count(Self::int_model(&tensor).shape) > 0 && is_min_of(
                    Self::int_model(&tensor),
                    Self::int_model(&t),
                ) && Self::int_place(&t) == Self::int_place(&tensor),
                Err(e) => count(Self::int_model(&tensor).shape) == 0 && e
                    == TensorError::InvalidArgument,
            },
    {
        proof {
            Self::lemma_int_wf(&tensor);
        }
        let shape = Self::int_shape(&tensor);
        let n = shape.num_elements();
        if n == 0 {
            return Err(TensorError::InvalidArgument);
        }
        let mut dims: Vec<usize> = Vec::new();
        dims.push(n);
        let line = Shape::new(dims);
        proof {
            assert(line@ =~= seq![n as int]);
            lemma_count_single(n as int);
        }
        match Self::int_reshape(tensor, line) {
            Ok(flat) => {
                let r = Self::int_min_dim(flat, 0);
                proof {
                    lemma_flat_extreme(Self::int_model(&tensor), Self::int_model(&r), false);
                }
                Ok(r)
            },
            Err(e) => Err(e),
        }
    }

    /// The tensor with its last two dimensions exchanged.
    fn int_transpose(tensor: Self::IntTensor) -> (r: Self::IntTensor)
        requires
            Self::int_model(&tensor).shape.len() >= 2,
        ensures
            Self::int_model(&r) == dims_swapped(
                Self::int_model(&tensor),
                Self::int_model(&tensor).shape.len() - 2,
                Self::int_model(&tensor).shape.len() - 1,
            ),
            Self::int_place(&r) == Self::int_place(&tensor),
    {
        let rank = Self::int_shape(&tensor).rank();
        Self::int_swap_dims(tensor, rank - 2, rank - 1)
    }

    /// The tensor with one dimension that holds `range.start`, `range.start +
    /// step`, and so on up to, and without, `range.end`. An empty range gives
    /// a tensor without values.
    fn int_arange_step(range: Range<i64>, step: usize, device: &Self::Device) -> (r:
        Self::IntTensor)
        requires
            step >= 1,
        ensures
            Self::int_model(&r) == arange_grid(range.start as int, range.end as int, step as int),
            Self::int_place(&r) == *device,
    {
        let value = arange_values(range.start, range.end, step);
        let mut dims: Vec<usize> = Vec::new();
        dims.push(value.len());
        let shape = Shape::new(dims);
        proof {
            assert(shape@ =~= seq![value@.len() as int]);
            lemma_count_single(value@.len() as int);
            lemma_arange_loaded(range.start as int, range.end as int, step as int);
        }
        let data = Data::new(value, shape);
        Self::int_from_data(data, device)
    }

    /// The tensor with one dimension that holds the integers from
    /// `range.start` up to, and without, `range.end`.
    fn int_arange(range: Range<i64>, device: &Self::Device) -> (r: Self::IntTensor)
        ensures
            Self::int_model(&r) == arange_grid(range.start as int, range.end as int, 1),
            Self::int_place(&r) == *device,
    {
        Self::int_arange_step(range, 1, device)
    }
}

/// `x` lowered to `max` if above it, and then raised to `min` if below it.
pub open spec fn clamped(x: i64, min: i64, max: i64) -> i64 {
    let y = if x > max {
        max
    } else {
        x
    };
    if y < min {
        min
    } else {
        y
    }
}

/// A count of positions as an element value.
pub fn count_as_elem(n: usize) -> (r: i64)
    ensures
        r == wrap(n as int),
{
    let w: u64 = n as u64;
    if w <= 0x7fff_ffff_ffff_ffff {
        w as i64
    } else {
        let low: u64 = w - 0x8000_0000_0000_0000;
        (low as i64) + i64::MIN
    }
}

} // verus!
