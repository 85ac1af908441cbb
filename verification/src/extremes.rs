use vstd::prelude::*;
use crate::grid::{count, gather_fits, gathered, in_bounds, lemma_grid_ext, Grid};
use crate::layout::{
    flat_index,
    lemma_flat_index_bounds,
    lemma_unflatten_bounds,
    lemma_unflatten_of_flat,
    reshaped,
    unflatten,
};

verus! {

/// `x` does not come before `y` in the chosen direction: it is no larger
/// when the largest value is sought, no smaller when the smallest is.
pub open spec fn not_beyond(x: i64, y: i64, largest: bool) -> bool {
    if largest {
        x <= y
    } else {
        x >= y
    }
}

/// `p` is a position, on the line of `g` through `idx` along `dim`, of an
/// extreme value of that line.
pub open spec fn arg_extreme_at(g: Grid<i64>, dim: int, idx: Seq<int>, p: int, largest: bool) -> bool {
    &&& 0 <= p < g.shape[dim]
    &&& forall|o: int|
        0 <= o < g.shape[dim] ==> not_beyond(
            #[trigger] g.at(idx.update(dim, o)),
            g.at(idx.update(dim, p)),
            largest,
        )
}

/// `v` is the extreme value on the line of `g` through `idx` along `dim`.
pub open spec fn line_extreme_at(g: Grid<i64>, dim: int, idx: Seq<int>, v: i64, largest: bool) -> bool {
    &&& exists|q: int| 0 <= q < g.shape[dim] && #[trigger] g.at(idx.update(dim, q)) == v
    &&& forall|o: int|
        0 <= o < g.shape[dim] ==> not_beyond(#[trigger] g.at(idx.update(dim, o)), v, largest)
}

/// `r` holds, for each line of `g` along `dim`, a position of an extreme
/// value on that line: a largest one, or a smallest one.
pub open spec fn is_arg_extreme(g: Grid<i64>, dim: int, r: Grid<i64>, largest: bool) -> bool {
    &&& r.shape == g.shape.update(dim, 1)
    &&& forall|idx: Seq<int>|
        in_bounds(r.shape, idx) ==> arg_extreme_at(g, dim, idx, #[trigger] r.at(idx) as int, largest)
}

/// `r` holds, for each line of `g` along `dim`, the extreme value on it.
pub open spec fn is_line_extreme(g: Grid<i64>, dim: int, r: Grid<i64>, largest: bool) -> bool {
    &&& r.shape == g.shape.update(dim, 1)
    &&& forall|idx: Seq<int>|
        in_bounds(r.shape, idx) ==> line_extreme_at(g, dim, idx, #[trigger] r.at(idx), largest)
}

/// `r` has one dimension and one value, the extreme value of `g`.
pub open spec fn is_extreme_of(g: Grid<i64>, r: Grid<i64>, largest: bool) -> bool {
    &&& r.shape == seq![1int]
    &&& exists|idx: Seq<int>| in_bounds(g.shape, idx) && #[trigger] g.at(idx) == r.at(seq![0int])
    &&& forall|idx: Seq<int>|
        in_bounds(g.shape, idx) ==> not_beyond(#[trigger] g.at(idx), r.at(seq![0int]), largest)
}

/// `r` holds, for each line of `g` along `dim`, a position of a largest value.
pub open spec fn is_argmax(g: Grid<i64>, dim: int, r: Grid<i64>) -> bool {
    is_arg_extreme(g, dim, r, true)
}

/// `r` holds, for each line of `g` along `dim`, a position of a smallest value.
pub open spec fn is_argmin(g: Grid<i64>, dim: int, r: Grid<i64>) -> bool {
    is_arg_extreme(g, dim, r, false)
}

/// `r` holds, for each line of `g` along `dim`, the largest value on it.
pub open spec fn is_line_max(g: Grid<i64>, dim: int, r: Grid<i64>) -> bool {
    is_line_extreme(g, dim, r, true)
}

/// `r` holds, for each line of `g` along `dim`, the smallest value on it.
pub open spec fn is_line_min(g: Grid<i64>, dim: int, r: Grid<i64>) -> bool {
    is_line_extreme(g, dim, r, false)
}

/// `r` has one dimension and one value, the largest value of `g`.
pub open spec fn is_max_of(g: Grid<i64>, r: Grid<i64>) -> bool {
    is_extreme_of(g, r, true)
}

/// `r` has one dimension and one value, the smallest value of `g`.
pub open spec fn is_min_of(g: Grid<i64>, r: Grid<i64>) -> bool {
    is_extreme_of(g, r, false)
}

/// Positions of extreme values can be gathered from along the same
/// dimension, and what is gathered are the extreme values.
pub proof fn lemma_gather_arg_extreme(g: Grid<i64>, dim: int, a: Grid<i64>, largest: bool)
    requires
        0 <= dim < g.shape.len(),
        is_arg_extreme(g, dim, a, largest),
    ensures
        gather_fits(dim, g, a),
        is_line_extreme(g, dim, gathered(dim, g, a), largest),
{
    let r = gathered(dim, g, a);
    assert forall|idx: Seq<int>| in_bounds(a.shape, idx) implies 0 <= #[trigger] a.at(idx)
        < g.shape[dim] by {
        assert(arg_extreme_at(g, dim, idx, a.at(idx) as int, largest));
    }
    assert forall|idx: Seq<int>| in_bounds(r.shape, idx) implies line_extreme_at(
        g,
        dim,
        idx,
        #[trigger] r.at(idx),
        largest,
    ) by {
        let q = a.at(idx) as int;
        assert(arg_extreme_at(g, dim, idx, q, largest));
        assert(r.at(idx) == g.at(idx.update(dim, q)));
    }
}

/// The extreme values along a dimension are determined by the grid.
pub proof fn lemma_line_extreme_unique(
    g: Grid<i64>,
    dim: int,
    r1: Grid<i64>,
    r2: Grid<i64>,
    largest: bool,
)
    requires
        r1.wf(),
        r2.wf(),
        is_line_extreme(g, dim, r1, largest),
        is_line_extreme(g, dim, r2, largest),
    ensures
        r1 == r2,
{
    assert forall|idx: Seq<int>| in_bounds(r1.shape, idx) implies #[trigger] r1.at(idx) == r2.at(
        idx,
    ) by {
        let v1 = r1.at(idx);
        let v2 = r2.at(idx);
        assert(in_bounds(r2.shape, idx));
        assert(line_extreme_at(g, dim, idx, v1, largest));
        assert(line_extreme_at(g, dim, idx, v2, largest));
        let q1 = choose|q: int| 0 <= q < g.shape[dim] && #[trigger] g.at(idx.update(dim, q)) == v1;
        let q2 = choose|q: int| 0 <= q < g.shape[dim] && #[trigger] g.at(idx.update(dim, q)) == v2;
        assert(not_beyond(g.at(idx.update(dim, q1)), v2, largest));
        assert(not_beyond(g.at(idx.update(dim, q2)), v1, largest));
    }
    lemma_grid_ext(r1, r2);
}

/// The extents of one dimension have as many positions as the extent.
pub proof fn lemma_count_single(n: int)
    ensures
        count(seq![n]) == n,
{
    let s = seq![n];
    assert(s.drop_last() =~= Seq::<int>::empty());
    assert(count(s.drop_last()) == 1);
    assert(s.last() == n);
    assert(count(s) == count(s.drop_last()) * s.last());
}

/// The extreme value along the one dimension of a flattened grid is the
/// extreme value of the grid.
pub proof fn lemma_flat_extreme(g: Grid<i64>, r: Grid<i64>, largest: bool)
    requires
        g.wf(),
        count(g.shape) >= 1,
        is_line_extreme(reshaped(g, seq![count(g.shape)]), 0, r, largest),
    ensures
        is_extreme_of(g, r, largest),
{
    let n = count(g.shape);
    let line = seq![n];
    let f = reshaped(g, line);
    let origin = seq![0int];
    assert(r.shape =~= seq![1int]);
    assert(in_bounds(r.shape, origin));
    let top = r.at(origin);
    assert forall|k: int| 0 <= k < n implies in_bounds(line, #[trigger] origin.update(0, k))
        && flat_index(line, origin.update(0, k)) == k && f.at(origin.update(0, k)) == g.at(
        unflatten(g.shape, k),
    ) by {
        let at = origin.update(0, k);
        assert(line.drop_last() =~= Seq::<int>::empty());
        assert(flat_index(line.drop_last(), at.drop_last()) == 0);
        assert(flat_index(line, at) == flat_index(line.drop_last(), at.drop_last()) * line.last()
            + at.last());
    }
    assert(line_extreme_at(f, 0, origin, top, largest));
    let q = choose|q: int| 0 <= q < f.shape[0] && #[trigger] f.at(origin.update(0, q)) == top;
    assert(in_bounds(line, origin.update(0, q)));
    lemma_unflatten_bounds(g.shape, q);
    assert(g.at(unflatten(g.shape, q)) == top);
    assert forall|idx: Seq<int>| in_bounds(g.shape, idx) implies not_beyond(
        #[trigger] g.at(idx),
        top,
        largest,
    ) by {
        lemma_flat_index_bounds(g.shape, idx);
        lemma_unflatten_of_flat(g.shape, idx);
        let k = flat_index(g.shape, idx);
        assert(in_bounds(line, origin.update(0, k)));
        assert(not_beyond(f.at(origin.update(0, k)), top, largest));
    }
}

} // verus!
