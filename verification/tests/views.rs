use scalargrad::strided::DimSpec;
use scalargrad::strided::Shape;
use scalargrad::strided::StridelessShape;
use scalargrad::strided::ShapeTranspose;
use scalargrad::strided::Strided;
use scalargrad::view::IndexTuple;
use scalargrad::view::View;

use scalargrad::nn::I as A;
use scalargrad::nn::O as B;

#[test]
fn index_tuple_indices_iter_empty() {
    let shape = (A(0), B(0));
    assert!(shape.indices().next().is_none());
    assert_eq!(shape.indices().size_hint(), (0, Some(0)));
    assert_eq!(shape.indices().count(), 0);
    assert!(shape.indices().last().is_none());
    assert!(shape.indices().nth(0).is_none());
    assert!(shape.indices().nth(1).is_none());
}

#[test]
fn index_tuple_indices_iter() {
    let shape = (A(2), B(3));
    {
        let mut iter = shape.indices();
        assert_eq!(iter.next(), Some((A(0), B(0))));
        assert_eq!(iter.next(), Some((A(0), B(1))));
        assert_eq!(iter.next(), Some((A(0), B(2))));
        assert_eq!(iter.next(), Some((A(1), B(0))));
        assert_eq!(iter.next(), Some((A(1), B(1))));
        assert_eq!(iter.next(), Some((A(1), B(2))));
        assert_eq!(iter.next(), None);
    }
    assert_eq!(shape.indices().size_hint(), (6, Some(6)));
    {
        let iter = shape.indices();
        assert_eq!(iter.count(), 6);
        let mut iter = shape.indices();
        iter.next();
        assert_eq!(iter.count(), 5);
    }
    assert_eq!(shape.indices().last(), Some((A(1), B(2))));
    assert_eq!(shape.indices().nth(3), Some((A(1), B(0))));
}

#[test]
fn index_tuple_flatten_product() {
    let shape = (A(2), B(3));
    assert_eq!(shape.product(), 6);
    // The offset of (a, b) is b * 2 + a.
    assert_eq!(shape.flatten((A(0), B(0))), 0);
    assert_eq!(shape.flatten((A(1), B(0))), 1);
    assert_eq!(shape.flatten((A(0), B(1))), 2);
    assert_eq!(shape.flatten((A(1), B(2))), 5);
    assert_eq!(shape.unflatten(4), (A(1), B(1)));
    let one = (A(5),);
    assert_eq!(one.product(), 5);
    assert_eq!(one.flatten((A(3),)), 3);
    assert_eq!(one.unflatten(2), (A(2),));
}

#[test]
fn view_selects_by_flattened_offset() {
    let data = vec![10u32, 11, 12, 13, 14, 15];
    let view = View::<Vec<u32>, (A, B)>::new(data, (A(2), B(3)));
    assert_eq!(view.shape(), (A(2), B(3)));
    assert_eq!(*view.at((A(0), B(0))), 10);
    assert_eq!(*view.at((A(1), B(0))), 11);
    assert_eq!(*view.at((A(0), B(2))), 14);
    let borrowed = view.as_deref();
    assert_eq!(*borrowed.at((A(1), B(2))), 15);
    let renamed = borrowed.reindex(|shape: (A, B)| (B(shape.1.0), A(shape.0.0)));
    assert_eq!(*renamed.at((B(2), A(1))), 15);
    assert_eq!(view.data().len(), 6);
}

#[test]
fn reindex_preserves_the_number() {
    let a: A = scalargrad::view::reindex(B(7));
    assert_eq!(a, A(7));
}

#[test]
fn strided_shapes_flatten_with_strides() {
    let dense = <(Strided<A>, Strided<B>) as Shape>::dense((A(2), B(3)));
    assert_eq!(dense.0.stride, A(1));
    assert_eq!(dense.1.stride, B(2));
    assert_eq!(dense.product(), 6);
    // The offset of (a, b) is a * 1 + b * 2.
    assert_eq!(dense.flatten((A(1), B(2))), 5);

    let custom = (
        Strided { stride: A(27), count: A(2) },
        Strided { stride: B(2), count: B(3) },
    );
    assert_eq!(custom.flatten((A(0), B(0))), 0);
    assert_eq!(custom.flatten((A(0), B(1))), 2);
    assert_eq!(custom.flatten((A(1), B(0))), 27);
    assert_eq!(custom.flatten((A(1), B(2))), 31);

    let transposed = custom.transpose();
    assert_eq!(transposed.0, Strided { stride: B(2), count: B(3) });
    assert_eq!(transposed.1, Strided { stride: A(27), count: A(2) });
    assert_eq!(transposed.flatten((B(1), A(1))), 29);

    let one = <(Strided<A>,) as Shape>::dense((A(4),));
    assert_eq!(one.product(), 4);
    assert_eq!(one.flatten((A(3),)), 3);
}

#[test]
fn x() {
    let shape = StridelessShape::new((
        DimSpec {
            offset: 1,
            stride: 3,
            count: 2,
            size: 10,
        },
        DimSpec {
            offset: 2,
            stride: 2,
            count: 3,
            size: 9,
        },
    ));

    assert_eq!(
        shape,
        StridelessShape {
            offset: 11,
            dims: (
                Strided { stride: 27, count: 2 },
                Strided { stride: 2, count: 3 },
            )
        }
    );

    assert_eq!(shape.flatten((0, 0)), 11);
    assert_eq!(shape.flatten((0, 1)), 13);
    assert_eq!(shape.flatten((0, 2)), 15);
    assert_eq!(shape.flatten((1, 0)), 38);
    assert_eq!(shape.flatten((1, 1)), 40);
    assert_eq!(shape.flatten((1, 2)), 42);

    let shape = shape.transpose();

    assert_eq!(
        shape,
        StridelessShape {
            offset: 11,
            dims: (Strided { stride: 2, count: 3 }, Strided { stride: 27, count: 2 })
        }
    );

    assert_eq!(shape.flatten((0, 0)), 11);
    assert_eq!(shape.flatten((0, 1)), 38);
    assert_eq!(shape.flatten((1, 0)), 13);
    assert_eq!(shape.flatten((1, 1)), 40);
    assert_eq!(shape.flatten((2, 0)), 15);
    assert_eq!(shape.flatten((2, 1)), 42);
}

#[test]
fn dense_layout_strides_and_offsets() {
    let shape = scalargrad::strided_core::new(vec![2, 3, 4]);
    assert_eq!(shape.stride, vec![1, 2, 6]);
    assert_eq!(scalargrad::strided_core::count(&shape), 24);
    assert_eq!(scalargrad::strided_core::ravel(&shape, &vec![0, 0, 0]), 0);
    assert_eq!(scalargrad::strided_core::ravel(&shape, &vec![1, 2, 3]), 23);
    assert_eq!(scalargrad::strided_core::ravel(&shape, &vec![1, 0, 0]), 1);
    assert_eq!(scalargrad::strided_core::ravel(&shape, &vec![0, 1, 0]), 2);
    assert_eq!(scalargrad::strided_core::ravel(&shape, &vec![0, 0, 1]), 6);
    let empty = scalargrad::strided_core::new(vec![]);
    assert_eq!(scalargrad::strided_core::count(&empty), 1);
    assert_eq!(scalargrad::strided_core::ravel(&empty, &vec![]), 0);
}

#[test]
fn strided_unflatten_reads_back_indices() {
    let dense = <(Strided<A>, Strided<B>) as Shape>::dense((A(2), B(3)));
    // Offsets 0..6 decode to the index pairs of a dense 2-by-3 layout.
    assert_eq!(dense.unflatten(0), (A(0), B(0)));
    assert_eq!(dense.unflatten(1), (A(1), B(0)));
    assert_eq!(dense.unflatten(2), (A(0), B(1)));
    assert_eq!(dense.unflatten(5), (A(1), B(2)));
    let one = <(Strided<A>,) as Shape>::dense((A(4),));
    assert_eq!(one.unflatten(3), (A(3),));
}
