use vstd::prelude::*;
use vstd::arithmetic::div_mod::{
    lemma_div_pos_is_pos,
    lemma_fundamental_div_mod,
    lemma_fundamental_div_mod_converse,
    lemma_mod_bound,
    lemma_multiply_divide_lt,
};
use crate::grid::{count, in_bounds, Grid};

verus! {

/// Row-major position of `idx` in a tensor with extents `shape`: the last
/// dimension varies fastest.
pub open spec fn flat_index(shape: Seq<int>, idx: Seq<int>) -> int
    decreases shape.len(),
{
    if shape.len() == 0 {
        0
    } else {
        flat_index(shape.drop_last(), idx.drop_last()) * shape.last() + idx.last()
    }
}

/// The multi-index at row-major position `k` of a tensor with extents `shape`.
pub open spec fn unflatten(shape: Seq<int>, k: int) -> Seq<int>
    decreases shape.len(),
{
    if shape.len() == 0 {
        Seq::empty()
    } else {
        unflatten(shape.drop_last(), k / shape.last()).push(k % shape.last())
    }
}

/// A multi-index inside the extents has a row-major position below the count.
pub proof fn lemma_flat_index_bounds(shape: Seq<int>, idx: Seq<int>)
    requires
        in_bounds(shape, idx),
    ensures
        0 <= flat_index(shape, idx) < count(shape),
    decreases shape.len(),
{
    if shape.len() > 0 {
        let rest = shape.drop_last();
        let head = idx.drop_last();
        assert(in_bounds(rest, head)) by {
            assert forall|d: int| 0 <= d < rest.len() implies 0 <= #[trigger] head[d] < rest[d] by {
                assert(head[d] == idx[d]);
            }
        }
        lemma_flat_index_bounds(rest, head);
        let f = flat_index(rest, head);
        let c = count(rest);
        let n = shape.last();
        let i = idx.last();
        assert(0 <= i < n) by {
            assert(0 <= idx[shape.len() - 1] < shape[shape.len() - 1]);
        }
        assert(0 <= f * n + i < c * n) by (nonlinear_arith)
            requires
                0 <= f < c,
                0 <= i < n,
        ;
    }
}

/// A row-major position below the count names a multi-index inside the extents.
pub proof fn lemma_unflatten_bounds(shape: Seq<int>, k: int)
    requires
        0 <= k < count(shape),
        forall|d: int| 0 <= d < shape.len() ==> 0 <= #[trigger] shape[d],
    ensures
        in_bounds(shape, unflatten(shape, k)),
    decreases shape.len(),
{
    if shape.len() > 0 {
        let rest = shape.drop_last();
        let n = shape.last();
        let c = count(rest);
        assert(0 <= n);
        assert(n != 0 && 0 < c) by (nonlinear_arith)
            requires
                0 <= k < c * n,
                0 <= n,
        ;
        assert(k < n * c) by (nonlinear_arith)
            requires
                k < c * n,
        ;
        lemma_multiply_divide_lt(k, n, c);
        lemma_div_pos_is_pos(k, n);
        lemma_mod_bound(k, n);
        assert forall|d: int| 0 <= d < rest.len() implies 0 <= #[trigger] rest[d] by {
            assert(rest[d] == shape[d]);
        }
        lemma_unflatten_bounds(rest, k / n);
        let head = unflatten(rest, k / n);
        let idx = unflatten(shape, k);
        assert(idx == head.push(k % n));
        assert forall|d: int| 0 <= d < shape.len() implies 0 <= #[trigger] idx[d] < shape[d] by {
            if d < rest.len() {
                assert(idx[d] == head[d]);
                assert(rest[d] == shape[d]);
            }
        }
    } else {
        assert(unflatten(shape, k).len() == 0);
    }
}

/// Flattening the multi-index at position `k` gives `k` back.
pub proof fn lemma_flat_of_unflatten(shape: Seq<int>, k: int)
    requires
        0 <= k < count(shape),
        forall|d: int| 0 <= d < shape.len() ==> 0 <= #[trigger] shape[d],
    ensures
        flat_index(shape, unflatten(shape, k)) == k,
    decreases shape.len(),
{
    if shape.len() > 0 {
        let rest = shape.drop_last();
        let n = shape.last();
        let c = count(rest);
        assert(0 <= n);
        assert(n != 0 && 0 < c) by (nonlinear_arith)
            requires
                0 <= k < c * n,
                0 <= n,
        ;
        assert(k < n * c) by (nonlinear_arith)
            requires
                k < c * n,
        ;
        lemma_multiply_divide_lt(k, n, c);
        lemma_div_pos_is_pos(k, n);
        assert forall|d: int| 0 <= d < rest.len() implies 0 <= #[trigger] rest[d] by {
            assert(rest[d] == shape[d]);
        }
        lemma_flat_of_unflatten(rest, k / n);
        let head = unflatten(rest, k / n);
        let idx = unflatten(shape, k);
        assert(idx.drop_last() =~= head);
        assert(idx.last() == k % n);
        lemma_fundamental_div_mod(k, n);
        assert((k / n) * n == n * (k / n)) by (nonlinear_arith);
    } else {
        assert(count(shape) == 1);
    }
}

/// The multi-index at the row-major position of `idx` is `idx`.
pub proof fn lemma_unflatten_of_flat(shape: Seq<int>, idx: Seq<int>)
    requires
        in_bounds(shape, idx),
    ensures
        unflatten(shape, flat_index(shape, idx)) == idx,
    decreases shape.len(),
{
    if shape.len() > 0 {
        let rest = shape.drop_last();
        let head = idx.drop_last();
        assert(in_bounds(rest, head)) by {
            assert forall|d: int| 0 <= d < rest.len() implies 0 <= #[trigger] head[d] < rest[d] by {
                assert(head[d] == idx[d]);
            }
        }
        lemma_unflatten_of_flat(rest, head);
        let n = shape.last();
        let i = idx.last();
        assert(0 <= i < n) by {
            assert(0 <= idx[shape.len() - 1] < shape[shape.len() - 1]);
        }
        let f = flat_index(rest, head);
        lemma_fundamental_div_mod_converse(f * n + i, n, f, i);
        assert(unflatten(shape, f * n + i) =~= idx);
    } else {
        assert(idx =~= Seq::<int>::empty());
    }
}

/// The values of `g` in row-major order.
pub open spec fn values_of<T>(g: Grid<T>) -> Seq<T> {
    Seq::new(count(g.shape) as nat, |k: int| g.at(unflatten(g.shape, k)))
}

/// The grid of the given extents whose values, in row-major order, are `values`.
pub open spec fn loaded<T>(values: Seq<T>, shape: Seq<int>) -> Grid<T> {
    Grid::from_fn(shape, |idx: Seq<int>| values[flat_index(shape, idx)])
}

/// The values of `g`, kept in row-major order, under other extents.
pub open spec fn reshaped<T>(g: Grid<T>, shape: Seq<int>) -> Grid<T> {
    Grid::from_fn(shape, |idx: Seq<int>| g.at(unflatten(g.shape, flat_index(shape, idx))))
}

/// Sum of the first `k` values of `g` in row-major order.
pub open spec fn flat_sum(g: Grid<i64>, k: int) -> int
    decreases k,
{
    if k <= 0 {
        0
    } else {
        flat_sum(g, k - 1) + g.at(unflatten(g.shape, k - 1))
    }
}

/// Sum of all values of `g`.
pub open spec fn total(g: Grid<i64>) -> int {
    flat_sum(g, count(g.shape))
}

} // verus!
