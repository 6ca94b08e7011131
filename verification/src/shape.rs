//! Logical tensor extents and element strides.
use crate::error::Error;
use vstd::prelude::*;

verus! {

/// Product of all dimensions (the element count of a shape).
pub open spec fn dims_product(s: Seq<usize>) -> int
    decreases s.len(),
{
    if s.len() == 0 {
        1
    } else {
        dims_product(s.drop_last()) * s.last()
    }
}

/// No running product of the dimensions, taken left to right, exceeds `usize::MAX`.
pub open spec fn product_fits(s: Seq<usize>) -> bool {
    forall|k: int| 0 <= k <= s.len() ==> #[trigger] dims_product(s.take(k)) <= usize::MAX
}

/// Product of `dims[i..]`, saturating at `usize::MAX` after every factor.
pub open spec fn saturating_suffix(dims: Seq<usize>, i: int) -> int
    decreases dims.len() - i,
{
    if i >= dims.len() || i < 0 {
        1
    } else {
        let p = saturating_suffix(dims, i + 1) * dims[i];
        if p > usize::MAX {
            usize::MAX as int
        } else {
            p
        }
    }
}

/// Row-major contiguous strides of `dims`: entry `i` is the (saturated) product of `dims[i + 1..]`.
pub open spec fn contiguous_strides_spec(dims: Seq<usize>) -> Seq<usize> {
    Seq::new(dims.len(), |i: int| saturating_suffix(dims, i + 1) as usize)
}

pub proof fn lemma_dims_product_nonneg(s: Seq<usize>)
    ensures
        dims_product(s) >= 0,
    decreases s.len(),
{
    if s.len() > 0 {
        lemma_dims_product_nonneg(s.drop_last());
        vstd::arithmetic::mul::lemma_mul_nonnegative(dims_product(s.drop_last()), s.last() as int);
    }
}

pub proof fn lemma_product_fits_bound(s: Seq<usize>)
    ensures
        product_fits(s) ==> 0 <= dims_product(s) <= usize::MAX,
{
    lemma_dims_product_nonneg(s);
    if product_fits(s) {
        assert(s.take(s.len() as int) =~= s);
        assert(dims_product(s.take(s.len() as int)) <= usize::MAX);
    }
}

pub proof fn lemma_saturating_suffix_bounds(dims: Seq<usize>, i: int)
    ensures
        0 <= saturating_suffix(dims, i) <= usize::MAX,
    decreases dims.len() - i,
{
    if !(i >= dims.len() || i < 0) {
        lemma_saturating_suffix_bounds(dims, i + 1);
        vstd::arithmetic::mul::lemma_mul_nonnegative(
            saturating_suffix(dims, i + 1),
            dims[i] as int,
        );
    }
}

/// Logical tensor extents.
#[derive(Clone, Debug, PartialEq, Eq, Hash)]
pub struct Shape {
    dims: Vec<usize>,
}

impl View for Shape {
    type V = Seq<usize>;

    closed spec fn view(&self) -> Seq<usize> {
        self.dims@
    }
}

impl Shape {
    pub fn new(dims: Vec<usize>) -> (r: Self)
        ensures
            r@ == dims@,
    {
        Shape { dims }
    }

    pub fn scalar() -> (r: Self)
        ensures
            r@ == Seq::<usize>::empty(),
    {
        Shape { dims: Vec::new() }
    }

    pub fn dims(&self) -> (r: &[usize])
        ensures
            r@ == self@,
    {
        self.dims.as_slice()
    }

    pub fn rank(&self) -> (r: usize)
        ensures
            r == self@.len(),
    {
        self.dims.len()
    }

    /// The element count of the shape (product of its dimensions).
    pub open spec fn spec_element_count(&self) -> int {
        dims_product(self@)
    }

    /// Product of the dimensions; fails with a shape error when a running product overflows.
    pub fn element_count(&self) -> (r: Result<usize, Error>)
        ensures
            product_fits(self@) ==> r == Ok::<usize, Error>(self.spec_element_count() as usize),
            !product_fits(self@) ==> (r matches Err(Error::Shape(m)) && m@ == "shape element count overflow"@),
    {
        let n = self.dims.len();
        let mut acc: usize = 1;
        let mut i: usize = 0;
        assert(self.dims@.take(0) =~= Seq::<usize>::empty());
        while i < n
            invariant
                n == self.dims@.len(),
                i <= n,
                acc == dims_product(self.dims@.take(i as int)),
                forall|k: int|
                    0 <= k <= i ==> #[trigger] dims_product(self.dims@.take(k)) <= usize::MAX,
            decreases n - i,
        {
            let dim = self.dims[i];
            assert(self.dims@.take(i + 1).drop_last() =~= self.dims@.take(i as int));
            match acc.checked_mul(dim) {
                Some(next) => {
                    acc = next;
                    i += 1;
                },
                None => {
                    assert(dims_product(self.dims@.take(i + 1)) > usize::MAX);
                    return Err(Error::Shape("shape element count overflow".to_string()));
                },
            }
        }
        assert(self.dims@.take(n as int) =~= self.dims@);
        Ok(acc)
    }

    pub fn contiguous_strides(&self) -> (r: Strides)
        ensures
            r@ == contiguous_strides_spec(self@),
    {
        Strides::contiguous_for(self)
    }
}

/// Stride vector expressed in logical elements.
#[derive(Clone, Debug, PartialEq, Eq, Hash)]
pub struct Strides {
    values: Vec<usize>,
}

impl View for Strides {
    type V = Seq<usize>;

    closed spec fn view(&self) -> Seq<usize> {
        self.values@
    }
}

impl Strides {
    pub fn new(values: Vec<usize>) -> (r: Self)
        ensures
            r@ == values@,
    {
        Strides { values }
    }

    pub fn values(&self) -> (r: &[usize])
        ensures
            r@ == self@,
    {
        self.values.as_slice()
    }

    pub fn rank(&self) -> (r: usize)
        ensures
            r == self@.len(),
    {
        self.values.len()
    }

    /// Row-major contiguous strides for `shape`, saturating at `usize::MAX`.
    pub fn contiguous_for(shape: &Shape) -> (r: Self)
        ensures
            r@ == contiguous_strides_spec(shape@),
    {
        let dims = shape.dims();
        let n = dims.len();
        let mut values: Vec<usize> = vec![0usize; n];
        let mut stride: usize = 1;
        let mut index: usize = n;
        while index > 0
            invariant
                n == dims@.len(),
                dims@ == shape@,
                index <= n,
                values@.len() == n,
                stride == saturating_suffix(dims@, index as int),
                forall|k: int|
                    index <= k < n ==> values@[k] == #[trigger] contiguous_strides_spec(dims@)[k],
            decreases index,
        {
            index -= 1;
            proof {
                lemma_saturating_suffix_bounds(dims@, index + 1);
            }
            values.set(index, stride);
            let dim = dims[index];
            stride = match stride.checked_mul(dim) {
                Some(p) => p,
                None => usize::MAX,
            };
        }
        assert(values@ =~= contiguous_strides_spec(shape@));
        Strides { values }
    }

    /// Whether these strides are exactly the contiguous strides of `shape`.
    pub fn is_contiguous_for(&self, shape: &Shape) -> (r: bool)
        ensures
            r == (self@ == contiguous_strides_spec(shape@)),
    {
        let expected = Self::contiguous_for(shape);
        let a = self.values.as_slice();
        let b = expected.values.as_slice();
        if a.len() != b.len() {
            return false;
        }
        let mut i: usize = 0;
        while i < a.len()
            invariant
                a@ == self@,
                b@ == contiguous_strides_spec(shape@),
                a@.len() == b@.len(),
                i <= a@.len(),
                forall|k: int| 0 <= k < i ==> a@[k] == b@[k],
            decreases a@.len() - i,
        {
            if a[i] != b[i] {
                return false;
            }
            i += 1;
        }
        assert(a@ =~= b@);
        true
    }
}

/// Contiguous strides are row-major: the innermost stride is one, and each
/// other stride is the next one times the next dimension (saturating at
/// `usize::MAX`).
pub proof fn lemma_contiguous_strides_row_major(dims: Seq<usize>)
    ensures
        contiguous_strides_spec(dims).len() == dims.len(),
        dims.len() > 0 ==> contiguous_strides_spec(dims)[dims.len() - 1] == 1,
        forall|i: int|
            0 <= i < dims.len() - 1 ==> #[trigger] contiguous_strides_spec(dims)[i] as int == if contiguous_strides_spec(dims)[i + 1]
                * dims[i + 1] > usize::MAX {
                usize::MAX as int
            } else {
                contiguous_strides_spec(dims)[i + 1] * dims[i + 1]
            },
{
    assert forall|i: int| 0 <= i < dims.len() - 1 implies #[trigger] contiguous_strides_spec(dims)[i] as int == if contiguous_strides_spec(dims)[i + 1]
        * dims[i + 1] > usize::MAX {
        usize::MAX as int
    } else {
        contiguous_strides_spec(dims)[i + 1] * dims[i + 1]
    } by {
        lemma_saturating_suffix_bounds(dims, i + 1);
        lemma_saturating_suffix_bounds(dims, i + 2);
    }
}

} // verus!
