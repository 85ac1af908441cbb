//! The built operations, run on a plain host backend that keeps every tensor
//! as a row-major vector.

use std::ops::Range;
use tensor_ops::arange::arange_values;
use tensor_ops::backend::{Backend, FloatTensorOps};
use tensor_ops::error::TensorError;
use tensor_ops::grid::Grid;
use tensor_ops::ops::{count_as_elem, IntTensorOps};
use tensor_ops::ranges::band_ranges;
use tensor_ops::shape::{Data, Shape};

#[derive(Clone, Debug, PartialEq)]
struct Dense {
    dims: Vec<usize>,
    values: Vec<i64>,
    device: u8,
}

#[derive(Clone, Debug, PartialEq)]
struct Mask {
    dims: Vec<usize>,
    values: Vec<bool>,
}

#[derive(Clone, Debug, PartialEq)]
struct Floats {
    dims: Vec<usize>,
    values: Vec<f64>,
    device: u8,
}

struct Host;

fn total(dims: &[usize]) -> usize {
    dims.iter().product()
}

fn position(dims: &[usize], idx: &[usize]) -> usize {
    let mut k = 0;
    for d in 0..dims.len() {
        assert!(idx[d] < dims[d]);
        k = k * dims[d] + idx[d];
    }
    k
}

fn index_at(dims: &[usize], mut k: usize) -> Vec<usize> {
    let mut idx = vec![0; dims.len()];
    for d in (0..dims.len()).rev() {
        idx[d] = k % dims[d];
        k /= dims[d];
    }
    idx
}

fn tabulate(dims: Vec<usize>, device: u8, f: impl Fn(&[usize]) -> i64) -> Dense {
    let values = (0..total(&dims)).map(|k| f(&index_at(&dims, k))).collect();
    Dense { dims, values, device }
}

fn get(t: &Dense, idx: &[usize]) -> i64 {
    t.values[position(&t.dims, idx)]
}

fn with(idx: &[usize], dim: usize, p: usize) -> Vec<usize> {
    let mut out = idx.to_vec();
    out[dim] = p;
    out
}

fn compare(lhs: &Dense, rhs: &Dense, f: impl Fn(i64, i64) -> bool) -> Mask {
    assert_eq!(lhs.dims, rhs.dims);
    let values = lhs.values.iter().zip(rhs.values.iter()).map(|(a, b)| f(*a, *b)).collect();
    Mask { dims: lhs.dims.clone(), values }
}

fn compare_elem(lhs: &Dense, f: impl Fn(i64) -> bool) -> Mask {
    Mask { dims: lhs.dims.clone(), values: lhs.values.iter().map(|a| f(*a)).collect() }
}

fn zip(lhs: &Dense, rhs: &Dense, f: impl Fn(i64, i64) -> i64) -> Dense {
    assert_eq!(lhs.dims, rhs.dims);
    let values = lhs.values.iter().zip(rhs.values.iter()).map(|(a, b)| f(*a, *b)).collect();
    Dense { dims: lhs.dims.clone(), values, device: lhs.device }
}

fn map(lhs: &Dense, f: impl Fn(i64) -> i64) -> Dense {
    Dense {
        dims: lhs.dims.clone(),
        values: lhs.values.iter().map(|a| f(*a)).collect(),
        device: lhs.device,
    }
}

fn corners(dims: &[usize], ranges: &[Range<usize>]) -> Option<(Vec<usize>, Vec<usize>)> {
    if ranges.len() > dims.len() {
        return None;
    }
    let mut lo = vec![0; dims.len()];
    let mut hi = dims.to_vec();
    for d in 0..ranges.len() {
        if ranges[d].start > ranges[d].end || ranges[d].end > dims[d] {
            return None;
        }
        lo[d] = ranges[d].start;
        hi[d] = ranges[d].end;
    }
    Some((lo, hi))
}

fn arg_extreme(t: &Dense, dim: usize, better: impl Fn(i64, i64) -> bool) -> Dense {
    assert!(t.dims[dim] >= 1);
    tabulate(with(&t.dims, dim, 1), t.device, |idx| {
        let mut best = 0;
        for p in 1..t.dims[dim] {
            if better(get(t, &with(idx, dim, p)), get(t, &with(idx, dim, best))) {
                best = p;
            }
        }
        best as i64
    })
}

impl Backend for Host {
    type IntTensor = Dense;
    type BoolTensor = Mask;
    type FloatTensor = Floats;
    type FloatElem = f64;
    type Device = u8;

    fn int_model(_: &Dense) -> Grid<i64> {
        unreachable!()
    }

    fn bool_model(_: &Mask) -> Grid<bool> {
        unreachable!()
    }

    fn float_model(_: &Floats) -> Grid<f64> {
        unreachable!()
    }

    fn int_place(_: &Dense) -> u8 {
        unreachable!()
    }

    fn float_place(_: &Floats) -> u8 {
        unreachable!()
    }

    fn lemma_int_wf(_: &Dense) {
    }
}

impl FloatTensorOps for Host {
    fn float_pow(_: f64, _: f64) -> f64 {
        unreachable!()
    }

    fn float_to_int(_: f64) -> i64 {
        unreachable!()
    }

    fn float_into_int(tensor: Floats) -> Dense {
        Dense {
            dims: tensor.dims,
            values: tensor.values.iter().map(|x| *x as i64).collect(),
            device: tensor.device,
        }
    }

    fn float_powf(lhs: Floats, rhs: Floats) -> Floats {
        assert_eq!(lhs.dims, rhs.dims);
        let values = lhs.values.iter().zip(rhs.values.iter()).map(|(x, y)| x.powf(*y)).collect();
        Floats { dims: lhs.dims, values, device: lhs.device }
    }
}

impl IntTensorOps for Host {
    fn int_to_float(_: i64) -> f64 {
        unreachable!()
    }

    fn int_into_float(tensor: Dense) -> Floats {
        Floats {
            dims: tensor.dims,
            values: tensor.values.iter().map(|x| *x as f64).collect(),
            device: tensor.device,
        }
    }

    fn int_empty(shape: Shape, device: &u8) -> Dense {
        tabulate(shape.dims, *device, |_| -1)
    }

    fn int_shape(tensor: &Dense) -> Shape {
        Shape::new(tensor.dims.clone())
    }

    fn int_into_data(tensor: Dense) -> Data {
        Data::new(tensor.values, Shape::new(tensor.dims))
    }

    fn int_clone(tensor: &Dense) -> Dense {
        tensor.clone()
    }

    fn int_from_data(data: Data, device: &u8) -> Dense {
        assert_eq!(data.value.len(), total(&data.shape.dims));
        Dense { dims: data.shape.dims, values: data.value, device: *device }
    }

    fn int_device(tensor: &Dense) -> u8 {
        tensor.device
    }

    fn int_to_device(tensor: Dense, device: &u8) -> Dense {
        Dense { device: *device, ..tensor }
    }

    fn int_reshape(tensor: Dense, shape: Shape) -> Result<Dense, TensorError> {
        if total(&shape.dims) != tensor.values.len() {
            return Err(TensorError::ShapeMismatch);
        }
        Ok(Dense { dims: shape.dims, values: tensor.values, device: tensor.device })
    }

    fn int_slice(tensor: Dense, ranges: Vec<Range<usize>>) -> Result<Dense, TensorError> {
        let (lo, hi) = corners(&tensor.dims, &ranges).ok_or(TensorError::OutOfRange)?;
        let dims = (0..lo.len()).map(|d| hi[d] - lo[d]).collect();
        Ok(tabulate(dims, tensor.device, |idx| {
            let at: Vec<usize> = (0..idx.len()).map(|d| idx[d] + lo[d]).collect();
            get(&tensor, &at)
        }))
    }

    fn int_slice_assign(
        tensor: Dense,
        ranges: Vec<Range<usize>>,
        value: Dense,
    ) -> Result<Dense, TensorError> {
        let (lo, hi) = corners(&tensor.dims, &ranges).ok_or(TensorError::OutOfRange)?;
        let dims: Vec<usize> = (0..lo.len()).map(|d| hi[d] - lo[d]).collect();
        if value.dims != dims {
            return Err(TensorError::ShapeMismatch);
        }
        Ok(tabulate(tensor.dims.clone(), tensor.device, |idx| {
            if (0..idx.len()).all(|d| lo[d] <= idx[d] && idx[d] < hi[d]) {
                let at: Vec<usize> = (0..idx.len()).map(|d| idx[d] - lo[d]).collect();
                get(&value, &at)
            } else {
                get(&tensor, idx)
            }
        }))
    }

    fn int_mask_where(tensor: Dense, mask: Mask, source: Dense) -> Dense {
        assert_eq!(tensor.dims, mask.dims);
        assert_eq!(tensor.dims, source.dims);
        let values = (0..tensor.values.len())
            .map(|k| if mask.values[k] { source.values[k] } else { tensor.values[k] })
            .collect();
        Dense { values, ..tensor }
    }

    fn int_mask_fill(tensor: Dense, mask: Mask, value: i64) -> Dense {
        assert_eq!(tensor.dims, mask.dims);
        let values = (0..tensor.values.len())
            .map(|k| if mask.values[k] { value } else { tensor.values[k] })
            .collect();
        Dense { values, ..tensor }
    }

    fn int_gather(dim: usize, tensor: Dense, indices: Dense) -> Dense {
        tabulate(indices.dims.clone(), tensor.device, |idx| {
            get(&tensor, &with(idx, dim, get(&indices, idx) as usize))
        })
    }

    fn int_scatter(dim: usize, tensor: Dense, indices: Dense, value: Dense) -> Dense {
        assert_eq!(indices.dims, value.dims);
        let mut out = tensor.clone();
        for k in 0..value.values.len() {
            let idx = index_at(&value.dims, k);
            let at = position(&tensor.dims, &with(&idx, dim, indices.values[k] as usize));
            out.values[at] = out.values[at].wrapping_add(value.values[k]);
        }
        out
    }

    fn int_select(tensor: Dense, dim: usize, indices: Dense) -> Dense {
        assert_eq!(indices.dims.len(), 1);
        tabulate(with(&tensor.dims, dim, indices.dims[0]), tensor.device, |idx| {
            get(&tensor, &with(idx, dim, indices.values[idx[dim]] as usize))
        })
    }

    fn int_select_assign(tensor: Dense, dim: usize, indices: Dense, value: Dense) -> Dense {
        assert_eq!(value.dims, with(&tensor.dims, dim, indices.dims[0]));
        let mut out = tensor.clone();
        for k in 0..value.values.len() {
            let idx = index_at(&value.dims, k);
            let at = position(&tensor.dims, &with(&idx, dim, indices.values[idx[dim]] as usize));
            out.values[at] = out.values[at].wrapping_add(value.values[k]);
        }
        out
    }

    fn int_cat(tensors: Vec<Dense>, dim: usize) -> Result<Dense, TensorError> {
        if tensors.is_empty() {
            return Err(TensorError::InvalidArgument);
        }
        let first = &tensors[0];
        if dim >= first.dims.len() {
            return Err(TensorError::OutOfRange);
        }
        for t in &tensors {
            if t.dims.len() != first.dims.len() {
                return Err(TensorError::ShapeMismatch);
            }
            if (0..t.dims.len()).any(|d| d != dim && t.dims[d] != first.dims[d]) {
                return Err(TensorError::ShapeMismatch);
            }
        }
        let extent = tensors.iter().map(|t| t.dims[dim]).sum();
        Ok(tabulate(with(&first.dims, dim, extent), first.device, |idx| {
            let mut p = idx[dim];
            for t in &tensors {
                if p < t.dims[dim] {
                    return get(t, &with(idx, dim, p));
                }
                p -= t.dims[dim];
            }
            unreachable!()
        }))
    }

    fn int_equal(lhs: Dense, rhs: Dense) -> Mask {
        compare(&lhs, &rhs, |a, b| a == b)
    }

    fn int_equal_elem(lhs: Dense, rhs: i64) -> Mask {
        compare_elem(&lhs, |a| a == rhs)
    }

    fn int_greater(lhs: Dense, rhs: Dense) -> Mask {
        compare(&lhs, &rhs, |a, b| a > b)
    }

    fn int_greater_elem(lhs: Dense, rhs: i64) -> Mask {
        compare_elem(&lhs, |a| a > rhs)
    }

    fn int_greater_equal(lhs: Dense, rhs: Dense) -> Mask {
        compare(&lhs, &rhs, |a, b| a >= b)
    }

    fn int_greater_equal_elem(lhs: Dense, rhs: i64) -> Mask {
        compare_elem(&lhs, |a| a >= rhs)
    }

    fn int_lower(lhs: Dense, rhs: Dense) -> Mask {
        compare(&lhs, &rhs, |a, b| a < b)
    }

    fn int_lower_elem(lhs: Dense, rhs: i64) -> Mask {
        compare_elem(&lhs, |a| a < rhs)
    }

    fn int_lower_equal(lhs: Dense, rhs: Dense) -> Mask {
        compare(&lhs, &rhs, |a, b| a <= b)
    }

    fn int_lower_equal_elem(lhs: Dense, rhs: i64) -> Mask {
        compare_elem(&lhs, |a| a <= rhs)
    }

    fn int_add(lhs: Dense, rhs: Dense) -> Dense {
        zip(&lhs, &rhs, |a, b| a.wrapping_add(b))
    }

    fn int_add_scalar(lhs: Dense, rhs: i64) -> Dense {
        map(&lhs, |a| a.wrapping_add(rhs))
    }

    fn int_sub(lhs: Dense, rhs: Dense) -> Dense {
        zip(&lhs, &rhs, |a, b| a.wrapping_sub(b))
    }

    fn int_sub_scalar(lhs: Dense, rhs: i64) -> Dense {
        map(&lhs, |a| a.wrapping_sub(rhs))
    }

    fn int_mul(lhs: Dense, rhs: Dense) -> Dense {
        zip(&lhs, &rhs, |a, b| a.wrapping_mul(b))
    }

    fn int_mul_scalar(lhs: Dense, rhs: i64) -> Dense {
        map(&lhs, |a| a.wrapping_mul(rhs))
    }

    fn int_div(lhs: Dense, rhs: Dense) -> Dense {
        zip(&lhs, &rhs, |a, b| if b == 0 { 0 } else { a.wrapping_div(b) })
    }

    fn int_div_scalar(lhs: Dense, rhs: i64) -> Dense {
        map(&lhs, |a| if rhs == 0 { 0 } else { a.wrapping_div(rhs) })
    }

    fn int_zeros(shape: Shape, device: &u8) -> Dense {
        tabulate(shape.dims, *device, |_| 0)
    }

    fn int_ones(shape: Shape, device: &u8) -> Dense {
        tabulate(shape.dims, *device, |_| 1)
    }

    fn int_sum(tensor: Dense) -> Dense {
        let sum = tensor.values.iter().fold(0i64, |a, b| a.wrapping_add(*b));
        Dense { dims: vec![1], values: vec![sum], device: tensor.device }
    }

    fn int_sum_dim(tensor: Dense, dim: usize) -> Dense {
        tabulate(with(&tensor.dims, dim, 1), tensor.device, |idx| {
            (0..tensor.dims[dim])
                .fold(0i64, |a, p| a.wrapping_add(get(&tensor, &with(idx, dim, p))))
        })
    }

    fn int_mean_dim(tensor: Dense, dim: usize) -> Dense {
        let extent = tensor.dims[dim] as i64;
        let sums = Self::int_sum_dim(tensor, dim);
        map(&sums, |a| if extent == 0 { 0 } else { a.wrapping_div(extent) })
    }

    fn int_argmax(tensor: Dense, dim: usize) -> Dense {
        arg_extreme(&tensor, dim, |a, b| a > b)
    }

    fn int_argmin(tensor: Dense, dim: usize) -> Dense {
        arg_extreme(&tensor, dim, |a, b| a < b)
    }

    fn int_abs(tensor: Dense) -> Dense {
        map(&tensor, |a| a.wrapping_abs())
    }

    fn int_swap_dims(tensor: Dense, dim1: usize, dim2: usize) -> Dense {
        let mut dims = tensor.dims.clone();
        dims.swap(dim1, dim2);
        tabulate(dims, tensor.device, |idx| {
            let mut at = idx.to_vec();
            at.swap(dim1, dim2);
            get(&tensor, &at)
        })
    }
}

fn tensor(dims: Vec<usize>, values: Vec<i64>) -> Dense {
    assert_eq!(total(&dims), values.len());
    Dense { dims, values, device: 0 }
}

fn two_by_three() -> Dense {
    tensor(vec![2, 3], vec![1, 2, 3, 4, 5, 6])
}

#[test]
fn sum_along_last_dimension() {
    let r = Host::int_sum_dim(two_by_three(), 1);
    assert_eq!(r.dims, vec![2, 1]);
    assert_eq!(r.values, vec![6, 15]);
}

#[test]
fn arange_step_three() {
    let r = Host::int_arange_step(0..10, 3, &7);
    assert_eq!(r.dims, vec![4]);
    assert_eq!(r.values, vec![0, 3, 6, 9]);
    assert_eq!(r.device, 7);
}

#[test]
fn arange_without_step() {
    let r = Host::int_arange(-2..3, &0);
    assert_eq!(r.dims, vec![5]);
    assert_eq!(r.values, vec![-2, -1, 0, 1, 2]);
}

#[test]
fn arange_of_empty_range_has_no_values() {
    let r = Host::int_arange_step(5..5, 2, &0);
    assert_eq!(r.dims, vec![0]);
    assert_eq!(r.values, Vec::<i64>::new());
    let r = Host::int_arange(9..3, &0);
    assert_eq!(r.dims, vec![0]);
}

#[test]
fn arange_values_edges() {
    assert_eq!(arange_values(0, 10, 3), vec![0, 3, 6, 9]);
    assert_eq!(arange_values(0, 9, 3), vec![0, 3, 6]);
    assert_eq!(arange_values(0, 1, 100), vec![0]);
    assert_eq!(arange_values(3, 3, 1), Vec::<i64>::new());
    assert_eq!(arange_values(i64::MAX - 2, i64::MAX, 2), vec![i64::MAX - 2]);
    assert_eq!(arange_values(i64::MAX - 1, i64::MAX, usize::MAX), vec![i64::MAX - 1]);
    assert_eq!(
        arange_values(i64::MIN, i64::MAX, (1usize << 63) + 5).len(),
        2
    );
    assert_eq!(arange_values(i64::MIN, i64::MAX, (1usize << 63) + 5)[1], 5);
}

#[test]
fn cat_along_first_dimension() {
    let a = tensor(vec![2, 2], vec![1, 2, 3, 4]);
    let b = tensor(vec![3, 2], vec![5, 6, 7, 8, 9, 10]);
    let r = Host::int_cat(vec![a, b], 0).unwrap();
    assert_eq!(r.dims, vec![5, 2]);
    assert_eq!(r.values, vec![1, 2, 3, 4, 5, 6, 7, 8, 9, 10]);
}

#[test]
fn cat_refuses_other_extents() {
    let a = tensor(vec![2, 2], vec![1, 2, 3, 4]);
    let b = tensor(vec![3, 3], vec![0; 9]);
    assert_eq!(Host::int_cat(vec![a, b], 0), Err(TensorError::ShapeMismatch));
    assert_eq!(Host::int_cat(vec![], 0), Err(TensorError::InvalidArgument));
    assert_eq!(Host::int_cat(vec![two_by_three()], 2), Err(TensorError::OutOfRange));
}

#[test]
fn slice_then_assign_restores() {
    let t = two_by_three();
    let part = Host::int_slice(t.clone(), vec![0..2, 1..3]).unwrap();
    assert_eq!(part.dims, vec![2, 2]);
    assert_eq!(part.values, vec![2, 3, 5, 6]);
    let back = Host::int_slice_assign(t.clone(), vec![0..2, 1..3], part).unwrap();
    assert_eq!(back, t);
}

#[test]
fn slice_refuses_ranges_past_the_extent() {
    assert_eq!(Host::int_slice(two_by_three(), vec![0..3]), Err(TensorError::OutOfRange));
    assert_eq!(
        Host::int_slice_assign(two_by_three(), vec![0..1], tensor(vec![1, 2], vec![0, 0])),
        Err(TensorError::ShapeMismatch)
    );
}

#[test]
fn data_round_trip() {
    let t = two_by_three();
    let data = Host::int_to_data(&t);
    assert_eq!(data.shape.dims, vec![2, 3]);
    assert_eq!(data.value, vec![1, 2, 3, 4, 5, 6]);
    let again = Host::int_from_data(data, &0);
    assert_eq!(again, t);
    let data = Host::int_into_data(again);
    assert_eq!(data.value, vec![1, 2, 3, 4, 5, 6]);
    assert_eq!(data.shape.dims, vec![2, 3]);
}

#[test]
fn negation_twice_is_identity() {
    let t = tensor(vec![4], vec![0, 5, -7, i64::MIN]);
    let once = Host::int_neg(t.clone());
    assert_eq!(once.values, vec![0, -5, 7, i64::MIN]);
    assert_eq!(Host::int_neg(once), t);
}

#[test]
fn clamp_keeps_values_in_range() {
    let t = tensor(vec![5], vec![-10, -1, 0, 3, 10]);
    assert_eq!(Host::int_clamp(t.clone(), -1, 3).values, vec![-1, -1, 0, 3, 3]);
    assert_eq!(Host::int_clamp_min(t.clone(), 0).values, vec![0, 0, 0, 3, 10]);
    assert_eq!(Host::int_clamp_max(t.clone(), 0).values, vec![-10, -1, 0, 0, 0]);
}

#[test]
fn clamp_with_crossed_bounds_ends_at_min() {
    let t = tensor(vec![3], vec![0, 3, 9]);
    assert_eq!(Host::int_clamp(t, 5, 1).values, vec![5, 5, 5]);
}

#[test]
fn repeat_singleton_dimension() {
    let t = tensor(vec![2, 1, 2], vec![1, 2, 3, 4]);
    let r = Host::int_repeat(t.clone(), 1, 3).unwrap();
    assert_eq!(r.dims, vec![2, 3, 2]);
    assert_eq!(r.values, vec![1, 2, 1, 2, 1, 2, 3, 4, 3, 4, 3, 4]);
    for i in 0..3 {
        let part = Host::int_narrow(r.clone(), 1, i, 1).unwrap();
        assert_eq!(part, t);
    }
    let none = Host::int_repeat(t, 1, 0).unwrap();
    assert_eq!(none.dims, vec![2, 0, 2]);
    assert_eq!(none.values, Vec::<i64>::new());
}

#[test]
fn repeat_refuses_wider_dimension() {
    assert_eq!(Host::int_repeat(two_by_three(), 1, 2), Err(TensorError::InvalidArgument));
    assert_eq!(Host::int_repeat(two_by_three(), 2, 2), Err(TensorError::OutOfRange));
}

#[test]
fn max_and_min_of_all_values() {
    let t = tensor(vec![2, 3], vec![4, -2, 9, 0, 9, -5]);
    let max = Host::int_max(t.clone()).unwrap();
    assert_eq!(max.dims, vec![1]);
    assert_eq!(max.values, vec![9]);
    let min = Host::int_min(t).unwrap();
    assert_eq!(min.dims, vec![1]);
    assert_eq!(min.values, vec![-5]);
}

#[test]
fn max_of_nothing_is_refused() {
    let t = tensor(vec![0, 3], vec![]);
    assert_eq!(Host::int_max(t.clone()), Err(TensorError::InvalidArgument));
    assert_eq!(Host::int_min(t), Err(TensorError::InvalidArgument));
}

#[test]
fn max_along_each_dimension() {
    let t = tensor(vec![2, 3], vec![4, -2, 9, 0, 9, -5]);
    let last = Host::int_max_dim(t.clone(), 1);
    assert_eq!(last.dims, vec![2, 1]);
    assert_eq!(last.values, vec![9, 9]);
    let first = Host::int_max_dim(t.clone(), 0);
    assert_eq!(first.dims, vec![1, 3]);
    assert_eq!(first.values, vec![4, 9, 9]);
    let low = Host::int_min_dim(t.clone(), 0);
    assert_eq!(low.values, vec![0, -2, -5]);
    let low = Host::int_min_dim(t, 1);
    assert_eq!(low.values, vec![-2, -5]);
}

#[test]
fn gathered_argmax_is_max_along_dimension() {
    let t = tensor(vec![2, 3], vec![4, -2, 9, 0, 9, -5]);
    for dim in 0..2 {
        let (values, index) = Host::int_max_dim_with_indices(t.clone(), dim);
        assert_eq!(index, Host::int_argmax(t.clone(), dim));
        assert_eq!(Host::int_gather(dim, t.clone(), index), values);
        assert_eq!(values, Host::int_max_dim(t.clone(), dim));
        let (values, index) = Host::int_min_dim_with_indices(t.clone(), dim);
        assert_eq!(index, Host::int_argmin(t.clone(), dim));
        assert_eq!(Host::int_gather(dim, t.clone(), index), values);
        assert_eq!(values, Host::int_min_dim(t.clone(), dim));
    }
    let (values, index) = Host::int_max_dim_with_indices(t, 1);
    assert_eq!(values.values, vec![9, 9]);
    assert_eq!(index.values, vec![2, 1]);
}

#[test]
fn mean_rounds_toward_zero() {
    assert_eq!(Host::int_mean(tensor(vec![2, 2], vec![1, 2, 3, 4])).values, vec![2]);
    assert_eq!(Host::int_mean(tensor(vec![2], vec![-3, -4])).values, vec![-3]);
    assert_eq!(Host::int_mean(tensor(vec![2], vec![-3, -4])).dims, vec![1]);
}

#[test]
fn full_holds_the_value_everywhere() {
    let r = Host::int_full(Shape::new(vec![2, 2]), -4, &3);
    assert_eq!(r.dims, vec![2, 2]);
    assert_eq!(r.values, vec![-4; 4]);
    assert_eq!(r.device, 3);
}

#[test]
fn transpose_swaps_last_two_dimensions() {
    let r = Host::int_transpose(two_by_three());
    assert_eq!(r.dims, vec![3, 2]);
    assert_eq!(r.values, vec![1, 4, 2, 5, 3, 6]);
    let t = tensor(vec![1, 2, 2], vec![1, 2, 3, 4]);
    assert_eq!(Host::int_transpose(t).values, vec![1, 3, 2, 4]);
}

#[test]
fn narrow_takes_a_band() {
    let r = Host::int_narrow(two_by_three(), 1, 1, 2).unwrap();
    assert_eq!(r.dims, vec![2, 2]);
    assert_eq!(r.values, vec![2, 3, 5, 6]);
    let none = Host::int_narrow(two_by_three(), 0, 2, 0).unwrap();
    assert_eq!(none.dims, vec![0, 3]);
}

#[test]
fn narrow_refuses_bands_past_the_extent() {
    assert_eq!(Host::int_narrow(two_by_three(), 1, 2, 2), Err(TensorError::OutOfRange));
    assert_eq!(Host::int_narrow(two_by_three(), 2, 0, 1), Err(TensorError::OutOfRange));
    assert_eq!(
        Host::int_narrow(two_by_three(), 1, usize::MAX, 2),
        Err(TensorError::OutOfRange)
    );
}

#[test]
fn chunk_splits_as_evenly_as_possible() {
    let t = tensor(vec![7], vec![0, 1, 2, 3, 4, 5, 6]);
    let parts = Host::int_chunk(t.clone(), 3, 0).unwrap();
    assert_eq!(parts.len(), 3);
    assert_eq!(parts[0].values, vec![0, 1, 2]);
    assert_eq!(parts[1].values, vec![3, 4]);
    assert_eq!(parts[2].values, vec![5, 6]);
    let parts = Host::int_chunk(two_by_three(), 3, 1).unwrap();
    assert_eq!(parts.len(), 3);
    assert_eq!(parts[1].dims, vec![2, 1]);
    assert_eq!(parts[1].values, vec![2, 5]);
    let parts = Host::int_chunk(two_by_three(), 5, 0).unwrap();
    assert_eq!(parts.len(), 2);
    assert_eq!(parts[0].values, vec![1, 2, 3]);
    assert_eq!(parts[1].values, vec![4, 5, 6]);
    let parts = Host::int_chunk(t, 1, 0).unwrap();
    assert_eq!(parts.len(), 1);
    assert_eq!(parts[0].values, vec![0, 1, 2, 3, 4, 5, 6]);
}

#[test]
fn chunk_refuses_bad_arguments() {
    assert_eq!(Host::int_chunk(two_by_three(), 0, 0), Err(TensorError::InvalidArgument));
    assert_eq!(Host::int_chunk(two_by_three(), 2, 2), Err(TensorError::OutOfRange));
}

#[test]
fn to_data_leaves_the_handle() {
    let t = two_by_three();
    let data = Host::int_to_data(&t);
    assert_eq!(data.value, t.values);
    assert_eq!(Host::int_shape(&t).dims, vec![2, 3]);
}

#[test]
fn count_as_element() {
    assert_eq!(count_as_elem(0), 0);
    assert_eq!(count_as_elem(12), 12);
    assert_eq!(count_as_elem(usize::MAX), usize::MAX as i64);
}

#[test]
fn shape_counts_positions() {
    assert_eq!(Shape::new(vec![2, 3, 4]).num_elements(), 24);
    assert_eq!(Shape::new(vec![]).num_elements(), 1);
    assert_eq!(Shape::new(vec![usize::MAX, 0, usize::MAX]).num_elements(), 0);
    assert_eq!(Shape::new(vec![5]).rank(), 1);
}

#[test]
fn band_ranges_select_one_dimension() {
    let ranges = band_ranges(&Shape::new(vec![2, 3, 4]), 1, 1, 2);
    assert_eq!(ranges, vec![0..2, 1..2, 0..4]);
}

#[test]
fn scatter_adds_up_collisions() {
    let t = tensor(vec![3], vec![10, 20, 30]);
    let indices = tensor(vec![3], vec![1, 1, 0]);
    let value = tensor(vec![3], vec![1, 2, 3]);
    assert_eq!(Host::int_scatter(0, t, indices, value).values, vec![13, 23, 30]);
}

#[test]
fn power_with_integer_exponents() {
    let base = tensor(vec![2, 2], vec![2, 3, -2, 7]);
    let exponent = tensor(vec![2, 2], vec![3, 2, 3, 0]);
    let r = Host::int_powi(base, exponent);
    assert_eq!(r.dims, vec![2, 2]);
    assert_eq!(r.values, vec![8, 9, -8, 1]);
}

#[test]
fn power_with_float_exponents() {
    let base = tensor(vec![3], vec![4, 9, 10]);
    let exponent = Floats { dims: vec![3], values: vec![0.5, 0.5, 2.0], device: 0 };
    let r = Host::int_powf(base, exponent);
    assert_eq!(r.dims, vec![3]);
    assert_eq!(r.values, vec![2, 3, 100]);
}

#[test]
fn checked_count_reports_overflow() {
    assert_eq!(Shape::new(vec![2, 3, 4]).checked_num_elements(), Some(24));
    assert_eq!(Shape::new(vec![usize::MAX, 2]).checked_num_elements(), None);
    assert_eq!(Shape::new(vec![usize::MAX, 2, 0]).checked_num_elements(), Some(0));
    assert_eq!(Shape::new(vec![usize::MAX]).checked_num_elements(), Some(usize::MAX));
}
