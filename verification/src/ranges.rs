use vstd::prelude::*;
use std::ops::Range;
use crate::shape::Shape;

verus! {

/// Lower corner of the box that `ranges` select in a tensor of the given
/// extents. Dimensions past the last range are taken whole.
pub open spec fn lows(ranges: Seq<Range<usize>>, shape: Seq<int>) -> Seq<int> {
    Seq::new(
        shape.len(),
        |d: int|
            if d < ranges.len() {
                ranges[d].start as int
            } else {
                0
            },
    )
}

/// Upper corner (exclusive) of the box that `ranges` select in a tensor of
/// the given extents. Dimensions past the last range are taken whole.
pub open spec fn highs(ranges: Seq<Range<usize>>, shape: Seq<int>) -> Seq<int> {
    Seq::new(
        shape.len(),
        |d: int|
            if d < ranges.len() {
                ranges[d].end as int
            } else {
                shape[d]
            },
    )
}

/// There is at most one range per dimension and each lies inside its extent.
pub open spec fn ranges_fit(ranges: Seq<Range<usize>>, shape: Seq<int>) -> bool {
    &&& ranges.len() <= shape.len()
    &&& forall|d: int|
        0 <= d < ranges.len() ==> (#[trigger] ranges[d]).start <= ranges[d].end <= shape[d]
}

/// Lower corner of the box that holds positions from `start` on along `dim`
/// and every position along the other dimensions.
pub open spec fn band_lo(shape: Seq<int>, dim: int, start: int) -> Seq<int> {
    Seq::new(
        shape.len(),
        |d: int|
            if d == dim {
                start
            } else {
                0
            },
    )
}

/// Upper corner (exclusive) of the box that holds positions before `end`
/// along `dim` and every position along the other dimensions.
pub open spec fn band_hi(shape: Seq<int>, dim: int, end: int) -> Seq<int> {
    shape.update(dim, end)
}

/// The ranges that select positions `start..end` along `dim` and every
/// position along the other dimensions.
pub fn band_ranges(shape: &Shape, dim: usize, start: usize, end: usize) -> (ranges: Vec<
    Range<usize>,
>)
    requires
        dim < shape@.len(),
    ensures
        ranges@.len() == shape@.len(),
        lows(ranges@, shape@) == band_lo(shape@, dim as int, start as int),
        highs(ranges@, shape@) == band_hi(shape@, dim as int, end as int),
        ranges_fit(ranges@, shape@) <==> start <= end <= shape@[dim as int],
{
    let mut ranges: Vec<Range<usize>> = Vec::new();
    let mut d: usize = 0;
    while d < shape.dims.len()
        invariant
            d <= shape.dims.len(),
            dim < shape.dims.len(),
            shape@.len() == shape.dims.len(),
            ranges@.len() == d,
            forall|e: int|
                0 <= e < d ==> (#[trigger] ranges@[e]).start == band_lo(
                    shape@,
                    dim as int,
                    start as int,
                )[e] && ranges@[e].end == band_hi(shape@, dim as int, end as int)[e],
        decreases shape.dims.len() - d,
    {
        if d == dim {
            ranges.push(start..end);
        } else {
            ranges.push(0..shape.dims[d]);
        }
        proof {
            assert(shape@[d as int] == shape.dims@[d as int]);
        }
        d = d + 1;
    }
    proof {
        assert(lows(ranges@, shape@) =~= band_lo(shape@, dim as int, start as int));
        assert(highs(ranges@, shape@) =~= band_hi(shape@, dim as int, end as int));
        assert(ranges@[dim as int].start == start && ranges@[dim as int].end == end);
        if start <= end <= shape@[dim as int] {
            assert forall|e: int| 0 <= e < ranges@.len() implies (#[trigger] ranges@[e]).start
                <= ranges@[e].end <= shape@[e] by {
                assert(ranges@[e].end == band_hi(shape@, dim as int, end as int)[e]);
            }
        }
    }
    ranges
}

/// Number of parts when an extent of `size` is split in `chunks`: one part
/// per chunk, but no part is empty.
pub open spec fn piece_count(size: int, chunks: int) -> int {
    if size < chunks {
        size
    } else {
        chunks
    }
}

/// Where part `k` begins when an extent of `size` is split in `chunks` parts
/// whose widths differ by at most one, the wider parts first.
pub open spec fn piece_start(size: int, chunks: int, k: int) -> int {
    k * (size / chunks) + if k < size % chunks {
        k
    } else {
        size % chunks
    }
}

/// The parts of a split follow one another and end where the extent ends.
pub proof fn lemma_piece_start(size: int, chunks: int, k: int)
    requires
        0 <= size,
        0 < chunks,
        0 <= k < piece_count(size, chunks),
    ensures
        piece_start(size, chunks, 0) == 0,
        0 <= piece_start(size, chunks, k) < piece_start(size, chunks, k + 1) <= size,
        piece_start(size, chunks, k + 1) - piece_start(size, chunks, k) == size / chunks + if k
            < size % chunks {
            1int
        } else {
            0int
        },
        piece_start(size, chunks, piece_count(size, chunks)) == size,
{
    let base = size / chunks;
    let extra = size % chunks;
    vstd::arithmetic::div_mod::lemma_fundamental_div_mod(size, chunks);
    vstd::arithmetic::div_mod::lemma_mod_bound(size, chunks);
    vstd::arithmetic::div_mod::lemma_div_pos_is_pos(size, chunks);
    assert(size == chunks * base + extra);
    assert((k + 1) * base == k * base + base) by (nonlinear_arith);
    assert(0 * base == 0) by (nonlinear_arith);
    assert(0 <= k * base) by (nonlinear_arith)
        requires
            0 <= k,
            0 <= base,
    ;
    assert((k + 1) * base <= chunks * base) by (nonlinear_arith)
        requires
            k + 1 <= chunks,
            0 <= base,
    ;
    let here = piece_start(size, chunks, k);
    let next = piece_start(size, chunks, k + 1);
    let last = piece_start(size, chunks, piece_count(size, chunks));
    assert(here == k * base + if k < extra { k } else { extra });
    assert(next == (k + 1) * base + if k + 1 < extra { k + 1 } else { extra });
    if size < chunks {
        assert(base == 0) by {
            vstd::arithmetic::div_mod::lemma_basic_div(size, chunks);
        }
        assert(chunks * base == 0 && size * base == 0 && k * base == 0 && (k + 1) * base == 0)
            by (nonlinear_arith)
            requires
                base == 0,
        ;
        assert(extra == size);
        assert(last == size * base + if size < extra { size } else { extra });
    } else {
        assert(base >= 1) by (nonlinear_arith)
            requires
                size == chunks * base + extra,
                extra < chunks,
                size >= chunks,
                0 <= base,
        ;
        assert(last == chunks * base + if chunks < extra { chunks } else { extra });
    }
}

} // verus!
