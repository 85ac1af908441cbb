use vstd::prelude::*;
use std::ops::Range;
use crate::extremes::{
    is_arg_extreme,
    is_line_extreme,
    lemma_gather_arg_extreme,
    lemma_line_extreme_unique,
};
use crate::grid::{
    box_shape,
    count,
    gathered,
    in_bounds,
    inside,
    lemma_from_fn_wf,
    mapped,
    overwritten,
    repeated,
    shifted,
    unshifted,
    window,
    wrap,
    Grid,
};
use crate::layout::{
    lemma_flat_index_bounds,
    lemma_flat_of_unflatten,
    lemma_unflatten_bounds,
    lemma_unflatten_of_flat,
    loaded,
    values_of,
};
use crate::ops::clamped;
use crate::ranges::{band_hi, band_lo, highs, lows, ranges_fit};

verus! {

/// Reading the part of a tensor inside some ranges and writing it back into
/// the same ranges leaves the tensor as it was; the part read has the
/// extents that the write asks for.
pub proof fn law_slice_assign_restores<T>(g: Grid<T>, ranges: Seq<Range<usize>>)
    requires
        g.wf(),
        ranges_fit(ranges, g.shape),
    ensures
        window(g, lows(ranges, g.shape), highs(ranges, g.shape)).shape == box_shape(
            lows(ranges, g.shape),
            highs(ranges, g.shape),
        ),
        overwritten(
            g,
            lows(ranges, g.shape),
            highs(ranges, g.shape),
            window(g, lows(ranges, g.shape), highs(ranges, g.shape)),
        ) == g,
{
    let lo = lows(ranges, g.shape);
    let hi = highs(ranges, g.shape);
    let part = window(g, lo, hi);
    let back = overwritten(g, lo, hi, part);
    assert forall|idx: Seq<int>| g.cells.dom().contains(idx) implies back.cells[idx]
        == g.cells[idx] by {
        assert(in_bounds(g.shape, idx));
        if inside(lo, hi, idx) {
            let inner = unshifted(idx, lo);
            assert(in_bounds(box_shape(lo, hi), inner)) by {
                assert forall|d: int| 0 <= d < inner.len() implies 0 <= #[trigger] inner[d]
                    < box_shape(lo, hi)[d] by {
                    assert(lo[d] <= idx[d] < hi[d]);
                }
            }
            assert(shifted(inner, lo) =~= idx);
        }
    }
    assert(back.cells =~= g.cells);
}

/// A tensor loaded from the snapshot of a tensor is that tensor, and its
/// snapshot is the same snapshot.
pub proof fn law_data_round_trip<T>(g: Grid<T>)
    requires
        g.wf(),
    ensures
        loaded(values_of(g), g.shape) == g,
        values_of(loaded(values_of(g), g.shape)) == values_of(g),
{
    let again = loaded(values_of(g), g.shape);
    assert forall|idx: Seq<int>| g.cells.dom().contains(idx) implies again.cells[idx]
        == g.cells[idx] by {
        assert(in_bounds(g.shape, idx));
        lemma_flat_index_bounds(g.shape, idx);
        lemma_unflatten_of_flat(g.shape, idx);
    }
    assert(again.cells =~= g.cells);
}

/// The snapshot of a tensor that was loaded from values holds those values.
pub proof fn law_snapshot_of_loaded<T>(values: Seq<T>, shape: Seq<int>)
    requires
        forall|d: int| 0 <= d < shape.len() ==> 0 <= #[trigger] shape[d],
        values.len() == count(shape),
    ensures
        values_of(loaded(values, shape)) == values,
{
    let again = values_of(loaded(values, shape));
    assert forall|k: int| 0 <= k < values.len() implies again[k] == values[k] by {
        lemma_unflatten_bounds(shape, k);
        lemma_flat_of_unflatten(shape, k);
    }
    assert(again =~= values);
}

/// Negating twice gives the tensor back, also where a value has no
/// negative of its own and wraps around.
pub proof fn law_double_negation(g: Grid<i64>)
    requires
        g.wf(),
    ensures
        mapped(mapped(g, |x: i64| wrap(-x)), |x: i64| wrap(-x)) == g,
{
    let once = mapped(g, |x: i64| wrap(-x));
    let twice = mapped(once, |x: i64| wrap(-x));
    assert forall|idx: Seq<int>| g.cells.dom().contains(idx) implies twice.cells[idx]
        == g.cells[idx] by {
        assert(in_bounds(g.shape, idx));
        let x = g.cells[idx];
        assert(once.at(idx) == wrap(-x));
        assert(wrap(-wrap(-x)) == x);
    }
    assert(twice.cells =~= g.cells);
}

/// After a clamp between `min` and `max`, where `min` is not above `max`,
/// every value lies between them; and a value that lay between them
/// already is unchanged.
pub proof fn law_clamp_range(g: Grid<i64>, min: i64, max: i64, idx: Seq<int>)
    requires
        in_bounds(g.shape, idx),
    ensures
        min <= max ==> min <= mapped(g, |x: i64| clamped(x, min, max)).at(idx) <= max,
        min <= g.at(idx) <= max ==> mapped(g, |x: i64| clamped(x, min, max)).at(idx) == g.at(idx),
{
}

/// In a tensor repeated along a dimension, each of the parts that follow
/// one another along that dimension is the tensor that was repeated.
pub proof fn law_repeat_slices<T>(g: Grid<T>, dim: int, times: int, i: int)
    requires
        g.wf(),
        0 <= dim < g.shape.len(),
        g.shape[dim] == 1,
        0 <= i < times,
    ensures
        window(
            repeated(g, dim, times),
            band_lo(g.shape.update(dim, times), dim, i),
            band_hi(g.shape.update(dim, times), dim, i + 1),
        ) == g,
{
    let target = g.shape.update(dim, times);
    let lo = band_lo(target, dim, i);
    let hi = band_hi(target, dim, i + 1);
    let part = window(repeated(g, dim, times), lo, hi);
    assert(part.shape =~= g.shape);
    assert forall|idx: Seq<int>| g.cells.dom().contains(idx) implies part.cells[idx]
        == g.cells[idx] by {
        assert(in_bounds(g.shape, idx));
        let outer = shifted(idx, lo);
        assert(0 <= idx[dim] < g.shape[dim]);
        assert(in_bounds(target, outer)) by {
            assert forall|d: int| 0 <= d < target.len() implies 0 <= #[trigger] outer[d]
                < target[d] by {
                assert(0 <= idx[d] < g.shape[d]);
            }
        }
        assert(outer.update(dim, 0) =~= idx);
    }
    assert(part.cells =~= g.cells);
}

/// Gathering the values at the positions of the extreme values along a
/// dimension gives exactly the extreme values along that dimension.
pub proof fn law_arg_extreme_gathers_extreme(
    g: Grid<i64>,
    dim: int,
    positions: Grid<i64>,
    values: Grid<i64>,
    largest: bool,
)
    requires
        0 <= dim < g.shape.len(),
        positions.wf(),
        values.wf(),
        is_arg_extreme(g, dim, positions, largest),
        is_line_extreme(g, dim, values, largest),
    ensures
        gathered(dim, g, positions) == values,
{
    lemma_gather_arg_extreme(g, dim, positions, largest);
    lemma_from_fn_wf(
        positions.shape,
        |idx: Seq<int>| g.at(idx.update(dim, positions.at(idx) as int)),
    );
    lemma_line_extreme_unique(g, dim, gathered(dim, g, positions), values, largest);
}

} // verus!
