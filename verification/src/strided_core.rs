use vstd::prelude::*;
use vstd::view::View as _;

verus! {

/// The counts and strides of an n-dimensional layout, stored side by side.
#[derive(Debug, Clone, Eq, PartialEq)]
pub struct S<T> {
    pub count: T,
    pub stride: T,
}

/// The number of elements spanned by the first `k` dimensions: the product
/// of their counts, and also the stride of dimension `k` in a dense layout.
pub open spec fn spec_capacity(counts: Seq<usize>, k: int) -> int
    decreases k,
{
    if k <= 0 {
        1
    } else {
        spec_capacity(counts, k - 1) * counts[k - 1]
    }
}

/// The offset reached by the first `k` dimensions of `index`: the sum of
/// each dimension's stride times its index.
pub open spec fn spec_ravel(strides: Seq<usize>, index: Seq<usize>, k: int) -> int
    decreases k,
{
    if k <= 0 {
        0
    } else {
        spec_ravel(strides, index, k - 1) + strides[k - 1] * index[k - 1]
    }
}

/// A dense layout with the given counts: dimension `k` steps over
/// everything the dimensions before it span.
pub fn new(count: Vec<usize>) -> (r: S<Vec<usize>>)
    requires
        forall|k: int| 0 <= k <= count@.len() ==> spec_capacity(count@, k) <= usize::MAX,
    ensures
        r.count == count,
        r.stride@.len() == count@.len(),
        forall|k: int| 0 <= k < count@.len() ==> r.stride@[k] == spec_capacity(count@, k),
{
    let n = count.len();
    let mut stride: Vec<usize> = Vec::new();
    let mut mul: usize = 1;
    let mut k: usize = 0;
    while k < n
        invariant
            k <= n,
            n == count@.len(),
            forall|j: int| 0 <= j <= n ==> spec_capacity(count@, j) <= usize::MAX,
            stride@.len() == k,
            mul == spec_capacity(count@, k as int),
            forall|j: int| 0 <= j < k ==> stride@[j] == spec_capacity(count@, j),
        decreases n - k,
    {
        stride.push(mul);
        proof {
            assert(spec_capacity(count@, k + 1) == mul * count@[k as int]);
            assert(mul * count@[k as int] >= 0) by (nonlinear_arith);
        }
        mul = mul * count[k];
        k = k + 1;
    }
    S { count, stride }
}

/// The offset of `index` under `shape`: the sum of each dimension's stride
/// times its index.
pub fn ravel(shape: &S<Vec<usize>>, index: &Vec<usize>) -> (r: usize)
    requires
        shape.stride@.len() == index@.len(),
        forall|k: int|
            0 <= k <= index@.len() ==> spec_ravel(shape.stride@, index@, k) <= usize::MAX,
    ensures
        r == spec_ravel(shape.stride@, index@, index@.len() as int),
{
    let n = index.len();
    let mut out: usize = 0;
    let mut k: usize = 0;
    while k < n
        invariant
            k <= n,
            n == index@.len(),
            shape.stride@.len() == n,
            forall|j: int| 0 <= j <= n ==> spec_ravel(shape.stride@, index@, j) <= usize::MAX,
            out == spec_ravel(shape.stride@, index@, k as int),
        decreases n - k,
    {
        proof {
            assert(spec_ravel(shape.stride@, index@, k + 1) == out + shape.stride@[k as int]
                * index@[k as int]);
            assert(shape.stride@[k as int] * index@[k as int] >= 0) by (nonlinear_arith);
        }
        out = out + shape.stride[k] * index[k];
        k = k + 1;
    }
    out
}

/// The number of elements the layout spans: the product of every count.
pub fn count(shape: &S<Vec<usize>>) -> (r: usize)
    requires
        forall|k: int|
            0 <= k <= shape.count@.len() ==> spec_capacity(shape.count@, k) <= usize::MAX,
    ensures
        r == spec_capacity(shape.count@, shape.count@.len() as int),
{
    let n = shape.count.len();
    let mut out: usize = 1;
    let mut k: usize = 0;
    while k < n
        invariant
            k <= n,
            n == shape.count@.len(),
            forall|j: int| 0 <= j <= n ==> spec_capacity(shape.count@, j) <= usize::MAX,
            out == spec_capacity(shape.count@, k as int),
        decreases n - k,
    {
        proof {
            assert(spec_capacity(shape.count@, k + 1) == out * shape.count@[k as int]);
            assert(out * shape.count@[k as int] >= 0) by (nonlinear_arith);
        }
        out = out * shape.count[k];
        k = k + 1;
    }
    out
}

} // verus!
