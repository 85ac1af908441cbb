use vstd::prelude::*;
use vstd::arithmetic::div_mod::lemma_fundamental_div_mod_converse;
use crate::grid::{in_bounds, Grid};
use crate::layout::{flat_index, loaded};

verus! {

/// How many values `start, start + step, ...` lie below `end`.
pub open spec fn arange_len(start: int, end: int, step: int) -> int {
    if start >= end {
        0
    } else {
        (end - start - 1) / step + 1
    }
}

/// The values `start, start + step, ...` that lie below `end`, in order.
pub open spec fn arange_seq(start: int, end: int, step: int) -> Seq<i64> {
    Seq::new(arange_len(start, end, step) as nat, |k: int| (start + k * step) as i64)
}

/// The tensor with one dimension that holds `start, start + step, ...` up
/// to, and without, `end`.
pub open spec fn arange_grid(start: int, end: int, step: int) -> Grid<i64> {
    Grid::from_fn(
        seq![arange_len(start, end, step)],
        |idx: Seq<int>| (start + idx[0] * step) as i64,
    )
}

/// The values `start, start + step, ...` that lie below `end`, in order.
/// An empty range gives no value.
pub fn arange_values(start: i64, end: i64, step: usize) -> (v: Vec<i64>)
    requires
        step >= 1,
    ensures
        v@ == arange_seq(start as int, end as int, step as int),
{
    let mut v: Vec<i64> = Vec::new();
    if start >= end {
        proof {
            assert(v@ =~= arange_seq(start as int, end as int, step as int));
        }
        return v;
    }
    let mut cur: i64 = start;
    let mut going = true;
    proof {
        assert(0 * step == 0) by (nonlinear_arith);
    }
    while going
        invariant
            start < end,
            step >= 1,
            going ==> start <= cur < end && cur == start + v@.len() * step,
            !going ==> v@.len() == arange_len(start as int, end as int, step as int),
            forall|k: int| 0 <= k < v@.len() ==> #[trigger] v@[k] == start + k * step,
        decreases
                if going {
                    end - cur
                } else {
                    0
                },
    {
        let ghost i = v@.len() as int;
        v.push(cur);
        let next: i128 = cur as i128 + step as i128;
        proof {
            assert((i + 1) * step == i * step + step) by (nonlinear_arith);
        }
        if next < end as i128 {
            cur = next as i64;
        } else {
            proof {
                let x = end - start - 1;
                lemma_fundamental_div_mod_converse(x, step as int, i, x - i * step);
            }
            going = false;
        }
    }
    proof {
        assert(v@ =~= arange_seq(start as int, end as int, step as int));
    }
    v
}

/// Loading the values of a range under one dimension gives the range's tensor.
pub proof fn lemma_arange_loaded(start: int, end: int, step: int)
    ensures
        loaded(arange_seq(start, end, step), seq![arange_len(start, end, step)]) == arange_grid(
            start,
            end,
            step,
        ),
{
    let n = arange_len(start, end, step);
    let line = seq![n];
    let a = loaded(arange_seq(start, end, step), line);
    let b = arange_grid(start, end, step);
    assert forall|idx: Seq<int>| in_bounds(line, idx) implies a.cells[idx] == b.cells[idx] by {
        assert(line.drop_last() =~= Seq::<int>::empty());
        assert(flat_index(line.drop_last(), idx.drop_last()) == 0);
        assert(flat_index(line, idx) == flat_index(line.drop_last(), idx.drop_last()) * line.last()
            + idx.last());
        assert(0 <= idx[0] < line[0]);
    }
    assert(a.cells =~= b.cells);
}

} // verus!
