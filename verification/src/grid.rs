use vstd::prelude::*;

verus! {

/// The mathematical content of a tensor: its extents and one value for each
/// multi-index inside them. Nothing is said about how the values are stored.
pub struct Grid<T> {
    pub shape: Seq<int>,
    pub cells: Map<Seq<int>, T>,
}

/// `idx` names a position of a tensor with extents `shape`.
pub open spec fn in_bounds(shape: Seq<int>, idx: Seq<int>) -> bool {
    &&& idx.len() == shape.len()
    &&& forall|d: int| 0 <= d < shape.len() ==> 0 <= #[trigger] idx[d] < shape[d]
}

/// The number of positions of a tensor with extents `shape`.
pub open spec fn count(shape: Seq<int>) -> int
    decreases shape.len(),
{
    if shape.len() == 0 {
        1
    } else {
        count(shape.drop_last()) * shape.last()
    }
}

/// Every extent is a size that a machine word holds.
pub open spec fn extents_ok(shape: Seq<int>) -> bool {
    forall|d: int| 0 <= d < shape.len() ==> 0 <= #[trigger] shape[d] <= usize::MAX
}

impl<T> Grid<T> {
    pub open spec fn at(self, idx: Seq<int>) -> T {
        self.cells[idx]
    }

    /// The grid has a value at exactly the positions inside its extents, and
    /// its positions can be counted in a machine word.
    pub open spec fn wf(self) -> bool {
        &&& extents_ok(self.shape)
        &&& count(self.shape) <= usize::MAX
        &&& forall|idx: Seq<int>| #[trigger] self.cells.dom().contains(idx) <==> in_bounds(self.shape, idx)
    }

    /// The grid with extents `shape` whose value at `idx` is `f(idx)`.
    pub open spec fn from_fn(shape: Seq<int>, f: spec_fn(Seq<int>) -> T) -> Grid<T> {
        Grid { shape, cells: Map::new(|idx: Seq<int>| in_bounds(shape, idx), f) }
    }

    /// Same extents, and the same value at every position.
    pub open spec fn agrees(self, other: Grid<T>) -> bool {
        &&& self.shape == other.shape
        &&& forall|idx: Seq<int>| in_bounds(self.shape, idx) ==> #[trigger] self.at(idx) == other.at(idx)
    }
}

/// Two well-formed grids that agree at every position are the same grid.
pub proof fn lemma_grid_ext<T>(a: Grid<T>, b: Grid<T>)
    requires
        a.wf(),
        b.wf(),
        a.agrees(b),
    ensures
        a == b,
{
    assert forall|idx: Seq<int>| a.cells.dom().contains(idx) implies a.cells[idx]
        == b.cells[idx] by {
        assert(a.at(idx) == b.at(idx));
    }
    assert(a.cells =~= b.cells);
}

/// A grid given by a function is well-formed once its extents are.
pub proof fn lemma_from_fn_wf<T>(shape: Seq<int>, f: spec_fn(Seq<int>) -> T)
    requires
        extents_ok(shape),
        count(shape) <= usize::MAX,
    ensures
        Grid::from_fn(shape, f).wf(),
        Grid::from_fn(shape, f).shape == shape,
        forall|idx: Seq<int>| in_bounds(shape, idx) ==> #[trigger] Grid::from_fn(shape, f).at(idx) == f(idx),
{
}

/// Two's-complement reduction of an integer to 64 bits.
pub open spec fn wrap(x: int) -> i64 {
    let m = x % 0x1_0000_0000_0000_0000;
    if m >= 0x8000_0000_0000_0000 {
        (m - 0x1_0000_0000_0000_0000) as i64
    } else {
        m as i64
    }
}

/// Integer division that rounds toward zero.
pub open spec fn quotient(a: int, b: int) -> int {
    if a >= 0 {
        if b > 0 {
            a / b
        } else {
            -(a / (-b))
        }
    } else {
        if b > 0 {
            -((-a) / b)
        } else {
            (-a) / (-b)
        }
    }
}

pub open spec fn magnitude(a: int) -> int {
    if a < 0 {
        -a
    } else {
        a
    }
}

/// `idx` moved by `by` in every dimension.
pub open spec fn shifted(idx: Seq<int>, by: Seq<int>) -> Seq<int> {
    Seq::new(idx.len(), |d: int| idx[d] + by[d])
}

/// `idx` moved back by `by` in every dimension.
pub open spec fn unshifted(idx: Seq<int>, by: Seq<int>) -> Seq<int> {
    Seq::new(idx.len(), |d: int| idx[d] - by[d])
}

/// `idx` lies in the box from `lo` (inclusive) to `hi` (exclusive).
pub open spec fn inside(lo: Seq<int>, hi: Seq<int>, idx: Seq<int>) -> bool {
    forall|d: int| 0 <= d < idx.len() ==> lo[d] <= #[trigger] idx[d] < hi[d]
}

/// Extents of the box from `lo` to `hi`.
pub open spec fn box_shape(lo: Seq<int>, hi: Seq<int>) -> Seq<int> {
    Seq::new(lo.len(), |d: int| hi[d] - lo[d])
}

/// The part of `g` inside the box from `lo` to `hi`, re-indexed from zero.
pub open spec fn window<T>(g: Grid<T>, lo: Seq<int>, hi: Seq<int>) -> Grid<T> {
    Grid::from_fn(box_shape(lo, hi), |idx: Seq<int>| g.at(shifted(idx, lo)))
}

/// `g` with the box from `lo` to `hi` replaced by the values of `v`.
pub open spec fn overwritten<T>(g: Grid<T>, lo: Seq<int>, hi: Seq<int>, v: Grid<T>) -> Grid<T> {
    Grid::from_fn(
        g.shape,
        |idx: Seq<int>|
            if inside(lo, hi, idx) {
                v.at(unshifted(idx, lo))
            } else {
                g.at(idx)
            },
    )
}

/// `s` with the entries at `a` and `b` exchanged.
pub open spec fn swapped(s: Seq<int>, a: int, b: int) -> Seq<int> {
    s.update(a, s[b]).update(b, s[a])
}

/// Sum of the values of `g` on the line through `idx` along `dim`, over the
/// first `k` positions of that line.
pub open spec fn line_sum(g: Grid<i64>, dim: int, idx: Seq<int>, k: int) -> int
    decreases k,
{
    if k <= 0 {
        0
    } else {
        line_sum(g, dim, idx, k - 1) + g.at(idx.update(dim, k - 1))
    }
}

/// Sum of the values that a scatter along `dim` sends to position `idx`: the
/// values whose index entry, among the first `k` on the line, names `idx[dim]`.
pub open spec fn scatter_sum(
    dim: int,
    indices: Grid<i64>,
    value: Grid<i64>,
    idx: Seq<int>,
    k: int,
) -> int
    decreases k,
{
    if k <= 0 {
        0
    } else {
        let here = idx.update(dim, k - 1);
        scatter_sum(dim, indices, value, idx, k - 1) + if indices.at(here) == idx[dim] {
            value.at(here) as int
        } else {
            0
        }
    }
}

/// Sum of the slices of `value` that a select-assign along `dim` sends to
/// position `idx`: those whose entry in the index list, among the first `k`,
/// names `idx[dim]`.
pub open spec fn select_sum(
    dim: int,
    indices: Grid<i64>,
    value: Grid<i64>,
    idx: Seq<int>,
    k: int,
) -> int
    decreases k,
{
    if k <= 0 {
        0
    } else {
        select_sum(dim, indices, value, idx, k - 1) + if indices.at(seq![k - 1]) == idx[dim] {
            value.at(idx.update(dim, k - 1)) as int
        } else {
            0
        }
    }
}

/// Sum of the extents along `dim` of the first `k` parts.
pub open spec fn joined_extent(parts: Seq<Grid<i64>>, dim: int, k: int) -> int
    decreases k,
{
    if k <= 0 {
        0
    } else {
        joined_extent(parts, dim, k - 1) + parts[k - 1].shape[dim]
    }
}

/// Value at `idx` of the parts laid one after another along `dim`, looking
/// among the first `k` parts from the last one down.
pub open spec fn joined_at(parts: Seq<Grid<i64>>, dim: int, idx: Seq<int>, k: int) -> i64
    decreases k,
{
    if k <= 0 {
        0
    } else {
        let before = joined_extent(parts, dim, k - 1);
        if idx[dim] >= before {
            parts[k - 1].at(idx.update(dim, idx[dim] - before))
        } else {
            joined_at(parts, dim, idx, k - 1)
        }
    }
}

/// The parts can be joined along `dim`: same rank, same extents elsewhere.
pub open spec fn joinable(parts: Seq<Grid<i64>>, dim: int) -> bool {
    forall|k: int, d: int|
        0 <= k < parts.len() && 0 <= d < parts[0].shape.len() ==> parts[k].shape.len()
            == parts[0].shape.len() && (d != dim ==> (#[trigger] parts[k].shape[d])
            == parts[0].shape[d])
}

pub open spec fn joined_shape(parts: Seq<Grid<i64>>, dim: int) -> Seq<int> {
    parts[0].shape.update(dim, joined_extent(parts, dim, parts.len() as int))
}

/// The parts laid one after another along `dim`.
pub open spec fn joined(parts: Seq<Grid<i64>>, dim: int) -> Grid<i64> {
    Grid::from_fn(
        joined_shape(parts, dim),
        |idx: Seq<int>| joined_at(parts, dim, idx, parts.len() as int),
    )
}

/// The index tensor fits a gather from `g` along `dim`.
pub open spec fn gather_fits(dim: int, g: Grid<i64>, indices: Grid<i64>) -> bool {
    &&& 0 <= dim < g.shape.len()
    &&& indices.shape.len() == g.shape.len()
    &&& forall|d: int|
        0 <= d < g.shape.len() && d != dim ==> #[trigger] indices.shape[d] == g.shape[d]
    &&& forall|idx: Seq<int>|
        in_bounds(indices.shape, idx) ==> 0 <= #[trigger] indices.at(idx) < g.shape[dim]
}

/// For each position of `indices`, the value of `g` found by replacing the
/// `dim` coordinate with the index stored there.
pub open spec fn gathered(dim: int, g: Grid<i64>, indices: Grid<i64>) -> Grid<i64> {
    Grid::from_fn(
        indices.shape,
        |idx: Seq<int>| g.at(idx.update(dim, indices.at(idx) as int)),
    )
}

/// The index list fits a select from `g` along `dim`.
pub open spec fn select_fits(g: Grid<i64>, dim: int, indices: Grid<i64>) -> bool {
    &&& 0 <= dim < g.shape.len()
    &&& indices.shape.len() == 1
    &&& forall|p: int|
        0 <= p < indices.shape[0] ==> 0 <= #[trigger] indices.at(seq![p]) < g.shape[dim]
}

/// The grid whose value at each position is `f` of the value of `a` there.
pub open spec fn mapped<A, C>(a: Grid<A>, f: spec_fn(A) -> C) -> Grid<C> {
    Grid::from_fn(a.shape, |idx: Seq<int>| f(a.at(idx)))
}

/// The grid whose value at each position is `f` of the values of `a` and `b`
/// there.
pub open spec fn zipped<A, B, C>(a: Grid<A>, b: Grid<B>, f: spec_fn(A, B) -> C) -> Grid<C> {
    Grid::from_fn(a.shape, |idx: Seq<int>| f(a.at(idx), b.at(idx)))
}

/// `g` with the values of `source` wherever the mask is set.
pub open spec fn blended(g: Grid<i64>, mask: Grid<bool>, source: Grid<i64>) -> Grid<i64> {
    Grid::from_fn(
        g.shape,
        |idx: Seq<int>|
            if mask.at(idx) {
                source.at(idx)
            } else {
                g.at(idx)
            },
    )
}

/// `g` with `value` wherever the mask is set.
pub open spec fn filled_where(g: Grid<i64>, mask: Grid<bool>, value: i64) -> Grid<i64> {
    Grid::from_fn(
        g.shape,
        |idx: Seq<int>|
            if mask.at(idx) {
                value
            } else {
                g.at(idx)
            },
    )
}

/// The index tensor and the values fit a scatter into `g` along `dim`.
pub open spec fn scatter_fits(dim: int, g: Grid<i64>, indices: Grid<i64>, value: Grid<i64>) -> bool {
    &&& gather_fits(dim, g, indices)
    &&& value.shape == indices.shape
}

/// `g` after adding each value to the position that its index names along `dim`.
pub open spec fn scattered(dim: int, g: Grid<i64>, indices: Grid<i64>, value: Grid<i64>) -> Grid<
    i64,
> {
    Grid::from_fn(
        g.shape,
        |idx: Seq<int>|
            wrap(g.at(idx) + scatter_sum(dim, indices, value, idx, indices.shape[dim])),
    )
}

/// The slices of `g` along `dim` that the index list names, in its order.
pub open spec fn selected(g: Grid<i64>, dim: int, indices: Grid<i64>) -> Grid<i64> {
    Grid::from_fn(
        g.shape.update(dim, indices.shape[0]),
        |idx: Seq<int>| g.at(idx.update(dim, indices.at(seq![idx[dim]]) as int)),
    )
}

/// `g` after adding each slice of `value` to the slice that its entry in the
/// index list names along `dim`.
pub open spec fn select_added(g: Grid<i64>, dim: int, indices: Grid<i64>, value: Grid<i64>) -> Grid<
    i64,
> {
    Grid::from_fn(
        g.shape,
        |idx: Seq<int>| wrap(g.at(idx) + select_sum(dim, indices, value, idx, indices.shape[0])),
    )
}

/// Each line of `g` along `dim` collapsed to the sum of its values.
pub open spec fn line_sums(g: Grid<i64>, dim: int) -> Grid<i64> {
    Grid::from_fn(
        g.shape.update(dim, 1),
        |idx: Seq<int>| wrap(line_sum(g, dim, idx, g.shape[dim])),
    )
}

/// `g` with the dimensions `a` and `b` exchanged.
pub open spec fn dims_swapped<T>(g: Grid<T>, a: int, b: int) -> Grid<T> {
    Grid::from_fn(swapped(g.shape, a, b), |idx: Seq<int>| g.at(swapped(idx, a, b)))
}

/// The grid of the given extents with the same value everywhere.
pub open spec fn constant<T>(shape: Seq<int>, v: T) -> Grid<T> {
    Grid::from_fn(shape, |idx: Seq<int>| v)
}

/// `g`, whose extent along `dim` is one, laid `times` times one after
/// another along `dim`.
pub open spec fn repeated<T>(g: Grid<T>, dim: int, times: int) -> Grid<T> {
    Grid::from_fn(g.shape.update(dim, times), |idx: Seq<int>| g.at(idx.update(dim, 0)))
}

} // verus!
