use vstd::prelude::*;
use vstd::view::View as _;

verus! {

/// An index newtype over `usize`. Implementations wrap a plain count or
/// offset; the spec function `as_int` is the number a value stands for, and
/// the two conversions are exact.
pub trait Index: Sized + Copy {
    /// The number this index value stands for.
    spec fn as_int(self) -> int;

    /// Unwraps the index to a plain integer.
    fn into_usize(self) -> (r: usize)
        ensures
            r == self.as_int(),
    ;

    /// Wraps a plain integer as an index.
    fn from_usize(value: usize) -> (r: Self)
        ensures
            r.as_int() == value,
    ;
}

/// Converts one index newtype into another with the same numeric value.
pub fn reindex<X: Index, U: Index>(value: X) -> (r: U)
    ensures
        r.as_int() == value.as_int(),
{
    U::from_usize(value.into_usize())
}

/// A tuple of index newtypes that doubles as the shape of a dense array:
/// it can flatten a multi-dimensional index into a single offset and
/// enumerate all indices it contains. Offsets and enumeration positions
/// follow opposite conventions: an offset varies fastest in the first
/// coordinate, while the enumeration (and `unflatten`) steps fastest
/// through the last.
pub trait IndexTuple: Sized {
    /// The number of distinct indices under this shape.
    spec fn spec_product(self) -> int;

    /// Whether `index` lies componentwise inside this shape.
    spec fn in_range(self, index: Self) -> bool;

    /// The flat offset of `index` under this shape.
    spec fn spec_flatten(self, index: Self) -> int;

    /// Whether `r` is the index tuple that `unflatten` assigns to the flat
    /// enumeration position `index`.
    spec fn unflatten_ok(self, index: int, r: Self) -> bool;

    /// The number of distinct indices under this shape.
    fn product(&self) -> (r: usize)
        requires
            self.spec_product() <= usize::MAX,
        ensures
            r == self.spec_product(),
    ;

    /// Flattens `index` to its offset.
    fn flatten(&self, index: Self) -> (r: usize)
        requires
            self.in_range(index),
            self.spec_product() <= usize::MAX,
        ensures
            r == self.spec_flatten(index),
            0 <= r < self.spec_product(),
    ;

    /// Maps an enumeration position back to an index tuple.
    fn unflatten(&self, index: usize) -> (r: Self)
        requires
            0 <= index < self.spec_product(),
        ensures
            self.unflatten_ok(index as int, r),
            self.in_range(r),
    ;

    /// Enumerates every index under this shape in `unflatten` order.
    fn indices(self) -> (r: IndexTupleIter<Self>)
        requires
            0 <= self.spec_product() <= usize::MAX,
        ensures
            r.spec_shape() == self,
            r.pos() == 0,
    ;
}

impl<X0: Index> IndexTuple for (X0,) {
    open spec fn spec_product(self) -> int {
        self.0.as_int()
    }

    open spec fn in_range(self, index: Self) -> bool {
        0 <= index.0.as_int() < self.0.as_int()
    }

    open spec fn spec_flatten(self, index: Self) -> int {
        index.0.as_int()
    }

    open spec fn unflatten_ok(self, index: int, r: Self) -> bool {
        r.0.as_int() == index
    }

    fn product(&self) -> (r: usize) {
        self.0.into_usize()
    }

    fn flatten(&self, index: Self) -> (r: usize) {
        index.0.into_usize()
    }

    fn unflatten(&self, index: usize) -> (r: Self) {
        (X0::from_usize(index),)
    }

    fn indices(self) -> (r: IndexTupleIter<Self>) {
        IndexTupleIter { index: 0, shape: self }
    }
}

impl<X0: Index, X1: Index> IndexTuple for (X0, X1) {
    open spec fn spec_product(self) -> int {
        self.0.as_int() * self.1.as_int()
    }

    open spec fn in_range(self, index: Self) -> bool {
        &&& 0 <= index.0.as_int() < self.0.as_int()
        &&& 0 <= index.1.as_int() < self.1.as_int()
    }

    open spec fn spec_flatten(self, index: Self) -> int {
        index.1.as_int() * self.0.as_int() + index.0.as_int()
    }

    open spec fn unflatten_ok(self, index: int, r: Self) -> bool {
        &&& r.0.as_int() == index / self.1.as_int()
        &&& r.1.as_int() == index % self.1.as_int()
    }

    fn product(&self) -> (r: usize) {
        let s0 = self.0.into_usize();
        let s1 = self.1.into_usize();
        s0 * s1
    }

    fn flatten(&self, index: Self) -> (r: usize) {
        let s0 = self.0.into_usize();
        let s1 = self.1.into_usize();
        let i0 = index.0.into_usize();
        let i1 = index.1.into_usize();
        proof {
            assert(i1 * s0 + i0 < s0 * s1) by (nonlinear_arith)
                requires
                    i0 < s0,
                    i1 < s1,
            ;
            assert(0 <= s0 * s1 <= usize::MAX);
        }
        i1 * s0 + i0
    }

    fn unflatten(&self, index: usize) -> (r: Self) {
        let s1 = self.1.into_usize();
        proof {
            assert(s1 > 0) by (nonlinear_arith)
                requires
                    0 <= index < self.0.as_int() * s1,
                    s1 == self.1.as_int(),
            ;
            assert(index / s1 < self.0.as_int()) by (nonlinear_arith)
                requires
                    0 <= index < self.0.as_int() * s1,
                    s1 > 0,
            ;
        }
        (X0::from_usize(index / s1), X1::from_usize(index % s1))
    }

    fn indices(self) -> (r: IndexTupleIter<Self>) {
        IndexTupleIter { index: 0, shape: self }
    }
}

/// Enumerates the index tuples of a shape in `unflatten` order: position `k`
/// yields `shape.unflatten(k)`, for `k` up to the shape's product.
#[must_use]
pub struct IndexTupleIter<X> {
    index: usize,
    shape: X,
}

impl<X> IndexTupleIter<X> {
    /// The shape being enumerated.
    pub closed spec fn spec_shape(self) -> X {
        self.shape
    }

    /// The next enumeration position to be yielded.
    pub closed spec fn pos(self) -> int {
        self.index as int
    }
}

impl<X: IndexTuple> IndexTupleIter<X> {
    /// The position never runs past the number of indices, and the shape is
    /// small enough to enumerate.
    pub open spec fn wf(self) -> bool {
        &&& 0 <= self.pos() <= self.spec_shape().spec_product()
        &&& self.spec_shape().spec_product() <= usize::MAX
    }

    /// Yields the index at the current position, or `None` when the shape is
    /// exhausted.
    pub fn next(&mut self) -> (r: Option<X>)
        requires
            old(self).wf(),
        ensures
            final(self).wf(),
            final(self).spec_shape() == old(self).spec_shape(),
            old(self).pos() < old(self).spec_shape().spec_product() ==> {
                &&& final(self).pos() == old(self).pos() + 1
                &&& r is Some
                &&& old(self).spec_shape().unflatten_ok(old(self).pos(), r.unwrap())
            },
            old(self).pos() >= old(self).spec_shape().spec_product() ==> {
                &&& r is None
                &&& final(self).pos() == old(self).pos()
            },
    {
        if self.index < self.shape.product() {
            let next = self.shape.unflatten(self.index);
            self.index = self.index + 1;
            Some(next)
        } else {
            None
        }
    }

    /// The exact number of indices left, as a lower and upper bound.
    pub fn size_hint(&self) -> (r: (usize, Option<usize>))
        requires
            self.wf(),
        ensures
            r.0 == self.spec_shape().spec_product() - self.pos(),
            r.1 == Some(r.0),
    {
        let remainder = self.shape.product() - self.index;
        (remainder, Some(remainder))
    }

    /// The number of indices left.
    pub fn count(self) -> (r: usize)
        requires
            self.wf(),
        ensures
            r == self.spec_shape().spec_product() - self.pos(),
    {
        self.shape.product() - self.index
    }

    /// The index at the last position, or `None` when the shape is already
    /// exhausted.
    pub fn last(self) -> (r: Option<X>)
        requires
            self.wf(),
        ensures
            self.pos() < self.spec_shape().spec_product() ==> {
                &&& r is Some
                &&& self.spec_shape().unflatten_ok(self.spec_shape().spec_product() - 1, r.unwrap())
            },
            self.pos() >= self.spec_shape().spec_product() ==> r is None,
    {
        let mut this = self;
        if this.index < this.shape.product() {
            this.index = this.shape.product() - 1;
        }
        this.next()
    }

    /// Skips `n` positions and yields the index there, or `None` when fewer
    /// than `n + 1` positions are left; the position never runs past the end.
    pub fn nth(&mut self, n: usize) -> (r: Option<X>)
        requires
            old(self).wf(),
        ensures
            final(self).wf(),
            final(self).spec_shape() == old(self).spec_shape(),
            old(self).pos() + n < old(self).spec_shape().spec_product() ==> {
                &&& r is Some
                &&& old(self).spec_shape().unflatten_ok(old(self).pos() + n, r.unwrap())
                &&& final(self).pos() == old(self).pos() + n + 1
            },
            old(self).pos() + n >= old(self).spec_shape().spec_product() ==> {
                &&& r is None
                &&& final(self).pos() == old(self).spec_shape().spec_product()
            },
    {
        if n > 0 {
            let remainder = self.shape.product() - self.index;
            let step = if n < remainder {
                n
            } else {
                remainder
            };
            self.index = self.index + step;
        }
        self.next()
    }
}


/// A multi-dimensional view over a flat carrier of elements: the carrier's
/// length always equals the product of the shape, and an index tuple selects
/// the element at its flattened offset.
#[derive(Debug, Copy, Clone)]
pub struct View<A, X> {
    data: A,
    shape: X,
}

impl<A, X> View<A, X> {
    /// The carrier.
    pub closed spec fn spec_data(self) -> A {
        self.data
    }

    /// The shape.
    pub closed spec fn spec_shape(self) -> X {
        self.shape
    }
}

impl<T, X: IndexTuple + Copy> View<Vec<T>, X> {
    /// The carrier covers exactly the indices of the shape.
    pub open spec fn wf(self) -> bool {
        &&& self.spec_data()@.len() == self.spec_shape().spec_product()
        &&& self.spec_shape().spec_product() <= usize::MAX
    }

    /// Wraps a carrier whose length equals the product of `shape`.
    pub fn new(data: Vec<T>, shape: X) -> (r: Self)
        requires
            data@.len() == shape.spec_product(),
            shape.spec_product() <= usize::MAX,
        ensures
            r.spec_data() == data,
            r.spec_shape() == shape,
            r.wf(),
    {
        Self { data, shape }
    }

    /// The shape.
    pub fn shape(&self) -> (r: X)
        ensures
            r == self.spec_shape(),
    {
        self.shape
    }

    /// The carrier.
    pub fn data(&self) -> (r: &Vec<T>)
        ensures
            r == self.spec_data(),
    {
        &self.data
    }

    /// The element that `index` selects.
    pub fn at(&self, index: X) -> (r: &T)
        requires
            self.wf(),
            self.spec_shape().in_range(index),
        ensures
            *r == self.spec_data()@[self.spec_shape().spec_flatten(index)],
    {
        let offset = self.shape.flatten(index);
        &self.data[offset]
    }

    /// Borrows the same view with the carrier as a slice.
    pub fn as_deref(&self) -> (r: View<&[T], X>)
        requires
            self.wf(),
        ensures
            r.spec_data()@ == self.spec_data()@,
            r.spec_shape() == self.spec_shape(),
            r.wf(),
    {
        View { data: self.data.as_slice(), shape: self.shape }
    }

    /// Exchanges the shape for another shape of the same total size.
    pub fn reindex<Y: IndexTuple + Copy, F: FnOnce(X) -> Y>(self, f: F) -> (r: View<Vec<T>, Y>)
        requires
            self.wf(),
            call_requires(f, (self.spec_shape(),)),
            forall|y: Y|
                call_ensures(f, (self.spec_shape(),), y) ==> y.spec_product()
                    == self.spec_shape().spec_product(),
        ensures
            r.spec_data() == self.spec_data(),
            call_ensures(f, (self.spec_shape(),), r.spec_shape()),
            r.wf(),
    {
        let View { data, shape } = self;
        let new_shape = f(shape);
        View { data, shape: new_shape }
    }
}

impl<'a, T, X: IndexTuple + Copy> View<&'a [T], X> {
    /// The carrier covers exactly the indices of the shape.
    pub open spec fn wf(self) -> bool {
        &&& self.spec_data()@.len() == self.spec_shape().spec_product()
        &&& self.spec_shape().spec_product() <= usize::MAX
    }

    /// Wraps a carrier whose length equals the product of `shape`.
    pub fn new(data: &'a [T], shape: X) -> (r: Self)
        requires
            data@.len() == shape.spec_product(),
            shape.spec_product() <= usize::MAX,
        ensures
            r.spec_data() == data,
            r.spec_shape() == shape,
            r.wf(),
    {
        Self { data, shape }
    }

    /// The shape.
    pub fn shape(&self) -> (r: X)
        ensures
            r == self.spec_shape(),
    {
        self.shape
    }

    /// The carrier.
    pub fn data(&self) -> (r: &&'a [T])
        ensures
            r == self.spec_data(),
    {
        &self.data
    }

    /// The element that `index` selects.
    pub fn at(&self, index: X) -> (r: &T)
        requires
            self.wf(),
            self.spec_shape().in_range(index),
        ensures
            *r == self.spec_data()@[self.spec_shape().spec_flatten(index)],
    {
        let offset = self.shape.flatten(index);
        &self.data[offset]
    }

    /// The same view again; a borrowed carrier is already a slice.
    pub fn as_deref(&self) -> (r: View<&'a [T], X>)
        requires
            self.wf(),
        ensures
            r.spec_data()@ == self.spec_data()@,
            r.spec_shape() == self.spec_shape(),
            r.wf(),
    {
        View { data: self.data, shape: self.shape }
    }

    /// Exchanges the shape for another shape of the same total size.
    pub fn reindex<Y: IndexTuple + Copy, F: FnOnce(X) -> Y>(self, f: F) -> (r: View<&'a [T], Y>)
        requires
            self.wf(),
            call_requires(f, (self.spec_shape(),)),
            forall|y: Y|
                call_ensures(f, (self.spec_shape(),), y) ==> y.spec_product()
                    == self.spec_shape().spec_product(),
        ensures
            r.spec_data() == self.spec_data(),
            call_ensures(f, (self.spec_shape(),), r.spec_shape()),
            r.wf(),
    {
        let View { data, shape } = self;
        let new_shape = f(shape);
        View { data, shape: new_shape }
    }
}

} // verus!
