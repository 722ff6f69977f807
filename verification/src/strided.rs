use vstd::prelude::*;

use crate::view::Index;

verus! {

/// One dimension of a strided layout: how many steps it has and how far
/// apart consecutive steps lie in the flat carrier.
#[derive(Debug, Copy, Clone, Eq, PartialEq, Structural)]
pub struct Strided<X> {
    pub stride: X,
    pub count: X,
}

impl<X: Index> Strided<X> {
    /// A dense dimension: consecutive steps lie next to each other.
    pub(crate) fn dense(count: X) -> (r: Self)
        ensures
            r.stride.as_int() == 1,
            r.count == count,
    {
        Strided { stride: X::from_usize(1), count }
    }

    /// Forgets the dimension's index newtype.
    pub(crate) fn untype(self) -> (r: Strided<usize>)
        ensures
            r.stride == self.stride.as_int(),
            r.count == self.count.as_int(),
    {
        Strided { stride: self.stride.into_usize(), count: self.count.into_usize() }
    }
}

impl Strided<usize> {
    /// Gives the dimension an index newtype.
    pub(crate) fn retype<X: Index>(self) -> (r: Strided<X>)
        ensures
            r.stride.as_int() == self.stride,
            r.count.as_int() == self.count,
    {
        Strided { stride: X::from_usize(self.stride), count: X::from_usize(self.count) }
    }
}

/// A strided shape: a tuple of dimensions that maps multi-dimensional
/// indices to offsets in a flat carrier.
pub trait Shape: Sized {
    type Index;

    /// The offset of `index` under this shape.
    spec fn spec_flatten(self, index: Self::Index) -> int;

    /// Whether `index` lies componentwise inside this shape.
    spec fn index_in_range(self, index: Self::Index) -> bool;

    /// An upper bound that every offset of an in-range index stays under.
    spec fn offset_bound(self) -> int;

    /// Whether `r` is the index that `unflatten` reads out of the offset
    /// `index`.
    spec fn unflatten_ok(self, index: int, r: Self::Index) -> bool;

    /// Whether every dimension has a positive stride and count, which is
    /// what `unflatten` needs to divide by them.
    spec fn dims_positive(self) -> bool;

    /// Whether this is the dense shape with the given counts: the first
    /// dimension steps by one, and each further dimension steps over
    /// everything before it.
    spec fn is_dense_of(self, counts: Self::Index) -> bool;

    /// The number of distinct indices under this shape.
    spec fn spec_count(self) -> int;

    /// A dense shape with the given counts: the first dimension steps by
    /// one, and each further dimension steps over everything before it.
    fn dense(counts: Self::Index) -> (r: Self)
        ensures
            r.is_dense_of(counts),
    ;

    /// The offset of `index`.
    fn flatten(self, index: Self::Index) -> (r: usize)
        requires
            self.index_in_range(index),
            self.offset_bound() <= usize::MAX,
        ensures
            r == self.spec_flatten(index),
    ;

    /// The number of distinct indices.
    fn product(self) -> (r: usize)
        requires
            0 <= self.spec_count() <= usize::MAX,
        ensures
            r == self.spec_count(),
    ;

    /// Reads the per-dimension index encoded in the offset `index`: each
    /// dimension contributes the offset's multiple of its stride, reduced
    /// by its count.
    fn unflatten(self, index: usize) -> (r: Self::Index)
        requires
            self.dims_positive(),
        ensures
            self.unflatten_ok(index as int, r),
    ;
}

impl<X0: Index> Shape for (Strided<X0>,) {
    type Index = (X0,);

    open spec fn spec_flatten(self, index: Self::Index) -> int {
        self.0.stride.as_int() * index.0.as_int()
    }

    open spec fn index_in_range(self, index: Self::Index) -> bool {
        0 <= index.0.as_int() < self.0.count.as_int()
    }

    open spec fn offset_bound(self) -> int {
        self.0.stride.as_int() * self.0.count.as_int()
    }

    open spec fn spec_count(self) -> int {
        self.0.count.as_int()
    }

    open spec fn unflatten_ok(self, index: int, r: Self::Index) -> bool {
        r.0.as_int() == (index / self.0.stride.as_int()) % self.0.count.as_int()
    }

    open spec fn dims_positive(self) -> bool {
        self.0.stride.as_int() >= 1 && self.0.count.as_int() >= 1
    }

    open spec fn is_dense_of(self, counts: Self::Index) -> bool {
        &&& self.0.stride.as_int() == 1
        &&& self.0.count == counts.0
    }

    fn dense(counts: Self::Index) -> (r: Self) {
        (Strided::dense(counts.0),)
    }

    fn flatten(self, index: Self::Index) -> (r: usize) {
        let s0 = self.0.stride.into_usize();
        let i0 = index.0.into_usize();
        proof {
            assert(0 <= s0 * i0 && s0 * i0 + s0 <= s0 * self.0.count.as_int()) by (nonlinear_arith)
                requires
                    0 <= i0 < self.0.count.as_int(),
                    s0 >= 0,
            ;
        }
        s0 * i0
    }

    fn product(self) -> (r: usize) {
        self.0.count.into_usize()
    }

    fn unflatten(self, index: usize) -> (r: Self::Index) {
        let s0 = self.0.stride.into_usize();
        let c0 = self.0.count.into_usize();
        ((X0::from_usize((index / s0) % c0)),)
    }
}

impl<X0: Index, X1: Index> Shape for (Strided<X0>, Strided<X1>) {
    type Index = (X0, X1);

    open spec fn spec_flatten(self, index: Self::Index) -> int {
        self.0.stride.as_int() * index.0.as_int() + self.1.stride.as_int() * index.1.as_int()
    }

    open spec fn index_in_range(self, index: Self::Index) -> bool {
        &&& 0 <= index.0.as_int() < self.0.count.as_int()
        &&& 0 <= index.1.as_int() < self.1.count.as_int()
    }

    open spec fn offset_bound(self) -> int {
        self.0.stride.as_int() * self.0.count.as_int() + self.1.stride.as_int()
            * self.1.count.as_int()
    }

    open spec fn spec_count(self) -> int {
        self.0.count.as_int() * self.1.count.as_int()
    }

    open spec fn unflatten_ok(self, index: int, r: Self::Index) -> bool {
        let i0 = (index / self.0.stride.as_int()) % self.0.count.as_int();
        let rem = index - i0 * self.0.stride.as_int();
        &&& r.0.as_int() == i0
        &&& r.1.as_int() == (rem / self.1.stride.as_int()) % self.1.count.as_int()
    }

    open spec fn dims_positive(self) -> bool {
        &&& self.0.stride.as_int() >= 1 && self.0.count.as_int() >= 1
        &&& self.1.stride.as_int() >= 1 && self.1.count.as_int() >= 1
    }

    open spec fn is_dense_of(self, counts: Self::Index) -> bool {
        &&& self.0.stride.as_int() == 1
        &&& self.0.count == counts.0
        &&& self.1.stride.as_int() == counts.0.as_int()
        &&& self.1.count == counts.1
    }

    fn dense(counts: Self::Index) -> (r: Self) {
        let first = Strided::dense(counts.0);
        let c0 = counts.0.into_usize();
        (first, Strided { stride: X1::from_usize(c0), count: counts.1 })
    }

    fn flatten(self, index: Self::Index) -> (r: usize) {
        let s0 = self.0.stride.into_usize();
        let i0 = index.0.into_usize();
        let s1 = self.1.stride.into_usize();
        let i1 = index.1.into_usize();
        proof {
            assert(0 <= s0 * i0 && s0 * i0 + s0 <= s0 * self.0.count.as_int()) by (nonlinear_arith)
                requires
                    0 <= i0 < self.0.count.as_int(),
                    s0 >= 0,
            ;
            assert(0 <= s1 * i1 && s1 * i1 + s1 <= s1 * self.1.count.as_int()) by (nonlinear_arith)
                requires
                    0 <= i1 < self.1.count.as_int(),
                    s1 >= 0,
            ;
        }
        s0 * i0 + s1 * i1
    }

    fn product(self) -> (r: usize) {
        let c0 = self.0.count.into_usize();
        let c1 = self.1.count.into_usize();
        c0 * c1
    }

    fn unflatten(self, index: usize) -> (r: Self::Index) {
        let s0 = self.0.stride.into_usize();
        let c0 = self.0.count.into_usize();
        let s1 = self.1.stride.into_usize();
        let c1 = self.1.count.into_usize();
        let i0 = (index / s0) % c0;
        proof {
            assert(i0 * s0 <= index) by (nonlinear_arith)
                requires
                    i0 == (index as int / s0 as int) % c0 as int,
                    s0 >= 1,
                    c0 >= 1,
                    index >= 0,
            ;
        }
        let rem = index - i0 * s0;
        (X0::from_usize(i0), X1::from_usize((rem / s1) % c1))
    }
}

/// Swapping a two-dimensional shape's dimensions: the same carrier walked
/// in the other order.
pub trait ShapeTranspose: Sized {
    type Transposed;

    /// The shape with its dimensions in reverse order.
    fn transpose(self) -> Self::Transposed;
}

impl<X0: Copy, X1: Copy> ShapeTranspose for (Strided<X0>, Strided<X1>) {
    type Transposed = (Strided<X1>, Strided<X0>);

    fn transpose(self) -> (r: Self::Transposed)
        ensures
            r.0 == self.1,
            r.1 == self.0,
    {
        (self.1, self.0)
    }
}


/// One dimension of a window into a larger array: where the window starts
/// along this dimension, how far apart its steps are, how many steps it
/// takes, and the extent of the underlying dimension.
#[derive(Debug, Copy, Clone, Eq, PartialEq, Structural)]
pub struct DimSpec {
    pub offset: usize,
    pub stride: usize,
    pub count: usize,
    pub size: usize,
}

/// A two-dimensional window into a flat array, with the per-dimension
/// offsets already folded into one base offset: the element at `(i0, i1)`
/// lies at `offset + stride0 * i0 + stride1 * i1`.
#[derive(Debug, Copy, Clone, Eq, PartialEq)]
pub struct StridelessShape {
    pub offset: usize,
    pub dims: (Strided<usize>, Strided<usize>),
}

impl StridelessShape {
    /// The flat position of the element at `index`.
    pub open spec fn spec_flatten(self, index: (usize, usize)) -> int {
        self.offset + self.dims.0.stride * index.0 + self.dims.1.stride * index.1
    }

    /// Folds a pair of per-dimension window specifications into one base
    /// offset and one stride per dimension: a step along the outer
    /// dimension jumps over a whole extent of the inner one, so its stride
    /// and offset are scaled by the inner dimension's size.
    pub fn new(dims: (DimSpec, DimSpec)) -> (r: StridelessShape)
        requires
            dims.0.stride * dims.1.size <= usize::MAX,
            dims.0.offset * dims.1.size + dims.1.offset <= usize::MAX,
        ensures
            r.offset == dims.0.offset * dims.1.size + dims.1.offset,
            r.dims.0 == (Strided { stride: (dims.0.stride * dims.1.size) as usize, count: dims.0.count }),
            r.dims.1 == (Strided { stride: dims.1.stride, count: dims.1.count }),
    {
        proof {
            assert(dims.0.stride * dims.1.size >= 0) by (nonlinear_arith);
            assert(dims.0.offset * dims.1.size >= 0) by (nonlinear_arith);
        }
        StridelessShape {
            offset: dims.0.offset * dims.1.size + dims.1.offset,
            dims: (
                Strided { stride: dims.0.stride * dims.1.size, count: dims.0.count },
                Strided { stride: dims.1.stride, count: dims.1.count },
            ),
        }
    }

    /// The flat position of the element at `index`.
    pub fn flatten(self, index: (usize, usize)) -> (r: usize)
        requires
            index.0 < self.dims.0.count,
            index.1 < self.dims.1.count,
            self.spec_flatten(index) <= usize::MAX,
        ensures
            r == self.spec_flatten(index),
    {
        proof {
            assert(self.dims.0.stride * index.0 >= 0) by (nonlinear_arith);
            assert(self.dims.1.stride * index.1 >= 0) by (nonlinear_arith);
        }
        self.offset + self.dims.0.stride * index.0 + self.dims.1.stride * index.1
    }

    /// The same window with its dimensions in reverse order.
    pub fn transpose(self) -> (r: StridelessShape)
        ensures
            r.offset == self.offset,
            r.dims.0 == self.dims.1,
            r.dims.1 == self.dims.0,
    {
        StridelessShape { offset: self.offset, dims: (self.dims.1, self.dims.0) }
    }
}

} // verus!
