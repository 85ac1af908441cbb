use vstd::prelude::*;
use crate::grid::count;

verus! {

/// The extents of a tensor, one per dimension.
#[derive(Debug, Clone)]
pub struct Shape {
    pub dims: Vec<usize>,
}

/// The extents as mathematical integers.
pub open spec fn extents(dims: Seq<usize>) -> Seq<int> {
    Seq::new(dims.len(), |d: int| dims[d] as int)
}

impl View for Shape {
    type V = Seq<int>;

    open spec fn view(&self) -> Seq<int> {
        extents(self.dims@)
    }
}

/// A shape with an empty dimension has no positions.
pub proof fn lemma_count_zero(shape: Seq<int>, z: int)
    requires
        0 <= z < shape.len(),
        shape[z] == 0,
    ensures
        count(shape) == 0,
    decreases shape.len(),
{
    if z < shape.len() - 1 {
        lemma_count_zero(shape.drop_last(), z);
    }
    assert(count(shape.drop_last()) * shape.last() == 0) by (nonlinear_arith)
        requires
            count(shape.drop_last()) == 0 || shape.last() == 0,
    ;
}

/// With no empty dimension, a prefix of a shape has at least one position
/// and no more than the whole shape.
pub proof fn lemma_count_prefix(shape: Seq<int>, k: int)
    requires
        0 <= k <= shape.len(),
        forall|d: int| 0 <= d < shape.len() ==> 1 <= #[trigger] shape[d],
    ensures
        1 <= count(shape.take(k)) <= count(shape),
    decreases shape.len() - k,
{
    if k == shape.len() {
        assert(shape.take(k) =~= shape);
        lemma_count_positive(shape);
    } else {
        lemma_count_prefix(shape, k + 1);
        let next = shape.take(k + 1);
        assert(next.drop_last() =~= shape.take(k));
        assert(next.last() == shape[k]);
        lemma_count_positive(shape.take(k));
        assert(count(shape.take(k)) <= count(shape.take(k)) * shape[k]) by (nonlinear_arith)
            requires
                1 <= count(shape.take(k)),
                1 <= shape[k],
        ;
    }
}

/// With no empty dimension, a shape has at least one position.
pub proof fn lemma_count_positive(shape: Seq<int>)
    requires
        forall|d: int| 0 <= d < shape.len() ==> 1 <= #[trigger] shape[d],
    ensures
        1 <= count(shape),
    decreases shape.len(),
{
    if shape.len() > 0 {
        lemma_count_positive(shape.drop_last());
        assert(1 <= count(shape.drop_last()) * shape.last()) by (nonlinear_arith)
            requires
                1 <= count(shape.drop_last()),
                1 <= shape.last(),
        ;
    }
}

impl Shape {
    /// A shape with the given extents.
    pub fn new(dims: Vec<usize>) -> (s: Shape)
        ensures
            s.dims == dims,
            s@ == extents(dims@),
    {
        Shape { dims }
    }

    /// Number of dimensions.
    pub fn rank(&self) -> (r: usize)
        ensures
            r == self@.len(),
    {
        self.dims.len()
    }

    /// Total number of positions, where a machine word holds it.
    pub fn checked_num_elements(&self) -> (n: Option<usize>)
        ensures
            match n {
                Some(n) => n == count(self@),
                None => count(self@) > usize::MAX,
            },
    {
        let len: usize = self.dims.len();
        let mut z: usize = 0;
        while z < len
            invariant
                len == self.dims.len(),
                z <= len,
                forall|d: int| 0 <= d < z ==> 1 <= #[trigger] self@[d],
            decreases len - z,
        {
            if self.dims[z] == 0 {
                proof {
                    lemma_count_zero(self@, z as int);
                }
                return Some(0);
            }
            z = z + 1;
        }
        let mut n: usize = 1;
        let mut i: usize = 0;
        proof {
            assert(self@.take(0) =~= Seq::<int>::empty());
        }
        while i < len
            invariant
                len == self.dims.len(),
                i <= len,
                forall|d: int| 0 <= d < len ==> 1 <= #[trigger] self@[d],
                n == count(self@.take(i as int)),
            decreases len - i,
        {
            proof {
                let next = self@.take(i + 1);
                assert(next.drop_last() =~= self@.take(i as int));
                assert(next.last() == self@[i as int]);
                lemma_count_prefix(self@, i + 1);
            }
            match n.checked_mul(self.dims[i]) {
                Some(m) => {
                    n = m;
                },
                None => {
                    return None;
                },
            }
            i = i + 1;
        }
        proof {
            assert(self@.take(len as int) =~= self@);
        }
        Some(n)
    }

    /// Total number of positions: the product of the extents.
    pub fn num_elements(&self) -> (n: usize)
        requires
            count(self@) <= usize::MAX,
        ensures
            n == count(self@),
    {
        match self.checked_num_elements() {
            Some(n) => n,
            None => unreached(),
        }
    }
}

/// A host-side snapshot of a tensor: its shape and its values in row-major
/// order, the last dimension varying fastest.
#[derive(Debug, Clone)]
pub struct Data {
    pub value: Vec<i64>,
    pub shape: Shape,
}

impl Data {
    /// A snapshot with the given values and shape.
    pub fn new(value: Vec<i64>, shape: Shape) -> (d: Data)
        ensures
            d.value == value,
            d.shape == shape,
    {
        Data { value, shape }
    }
}

} // verus!
