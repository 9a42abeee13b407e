//! Tests of the arithmetic core: checked sizes, default strides, offset
//! ranges, indexing and broadcasting.

use ndlayout::aliases::{Ix1, Ix2, Ix3, Ix4, Ix5, Ix6, IxDyn};
use ndlayout::axes::axes_of;
use ndlayout::checked::Checked;
use ndlayout::dimensionality::{DAdd, DMax, Dimensionality};
use ndlayout::dyn_repr::DynAxesRepr;
use ndlayout::error::ShapeStrideError;
use ndlayout::layout::{Layout, NLayout, Strided};
use ndlayout::n_repr::{try_to_fixed, ConstMatrixShape, ShapeStrideN};
use ndlayout::offset::{first_index, next_for, offset_of, offset_range_checked};
use ndlayout::shape::{size_bytes_checked, size_checked, AxisMut, Shape, ShapeMut};
use ndlayout::strides::{
    c_strides, f_strides, is_c_order, is_c_order_for, is_f_order, is_f_order_for, Strides,
};

#[test]
fn size_checked_round_trips() {
    // The checked count is the exact product whenever it fits the signed
    // range, and no value otherwise.
    assert_eq!(size_checked(&[5, 6, 3, 4]), Some(360));
    assert_eq!(size_checked(&[isize::MAX as usize, 2]), None);
    assert_eq!(size_checked(&[]), Some(1));
    assert_eq!(size_checked(&[0, isize::MAX as usize, 77]), Some(0));
    assert_eq!(size_checked(&[usize::MAX, 2, 0]), Some(0));
    assert_eq!(size_checked(&[isize::MAX as usize]), Some(isize::MAX as usize));
}

#[test]
fn size_bytes_composes_checks() {
    assert_eq!(size_bytes_checked(&[10, 10], 8), Some(800));
    assert_eq!(size_bytes_checked(&[isize::MAX as usize, 2], 0), None);
    assert_eq!(size_bytes_checked(&[isize::MAX as usize], 2), None);
    assert_eq!(size_bytes_checked(&[3], 0), Some(0));
}

#[test]
fn default_strides_values() {
    assert_eq!(c_strides(&[2, 3, 4]).unwrap(), vec![12isize, 4, 1]);
    assert_eq!(f_strides(&[2, 3, 4]).unwrap(), vec![1isize, 2, 6]);
    assert_eq!(c_strides(&[]).unwrap(), Vec::<isize>::new());
    assert_eq!(c_strides(&[7]).unwrap(), vec![1isize]);
    // A zero axis keeps the suffix products finite.
    assert_eq!(c_strides(&[usize::MAX, 0, 3]).unwrap(), vec![0isize, 3, 1]);
    // A suffix product beyond the signed range is rejected.
    assert_eq!(
        c_strides(&[2, usize::MAX]),
        Err(ShapeStrideError::ShapeOverflow)
    );
    assert_eq!(
        f_strides(&[usize::MAX, 2]),
        Err(ShapeStrideError::ShapeOverflow)
    );
}

#[test]
fn stride_order_queries() {
    assert!(is_c_order(&[12, 4, 1]));
    assert!(!is_c_order(&[1, 2, 6]));
    assert!(is_f_order(&[1, 2, 6]));
    assert!(!is_f_order(&[12, 4, 1]));
    assert!(is_c_order(&[3, 3, 3]) && is_f_order(&[3, 3, 3]));
    assert!(is_c_order(&[]) && is_f_order(&[]));
    // A stride-zero axis is a tie satisfying both orders: the default
    // row-major strides of [2, 0, 3] are [0, 3, 1] and stay ordered.
    assert_eq!(c_strides(&[2, 0, 3]).unwrap(), vec![0isize, 3, 1]);
    assert!(is_c_order(&[0, 3, 1]));
    assert!(is_f_order(&[5, 0, 9]));
    assert!(!is_c_order(&[0, 3, 0, 4]));
}

#[test]
fn shape_aware_order_queries() {
    // Axes of length at most one are ties as well: a degenerate shape
    // satisfies both orders under any strides.
    assert!(is_c_order_for(&[1, 5, 1], &[5, 1, 1]));
    assert!(is_f_order_for(&[1, 5, 1], &[5, 1, 1]));
    assert!(is_c_order_for(&[1, 1, 2], &[1, 2, 3]));
    assert!(is_f_order_for(&[1, 1, 2], &[1, 2, 3]));
    // With two effective axes the comparison is real again.
    assert!(is_c_order_for(&[4, 5], &[5, 1]));
    assert!(!is_c_order_for(&[4, 5], &[1, 4]));
    assert!(is_f_order_for(&[4, 5], &[1, 4]));
    // Default strides of a shape with an empty axis pass the shape-aware
    // query too.
    assert!(is_c_order_for(&[2, 0, 3], &[0, 3, 1]));
}

#[test]
fn offset_range_with_zero_axis() {
    // The span counts a zero-length axis as length one: it offers no
    // steps of its own but does not erase the other axes' reach.
    assert_eq!(offset_range_checked(&[2, 0, 3], &[3, 6, -1]), Some(5));
}

#[test]
fn offset_range_values() {
    assert_eq!(offset_range_checked(&[5, 5], &[5, 1]), Some(24));
    assert_eq!(offset_range_checked(&[], &[]), Some(0));
    assert_eq!(offset_range_checked(&[3], &[-2]), Some(4));
    assert_eq!(
        offset_range_checked(&[2, 2], &[isize::MAX, 1]),
        None
    );
    // Stride zero contributes nothing however long the axis is.
    assert_eq!(offset_range_checked(&[usize::MAX], &[0]), Some(0));
}

#[test]
fn offsets_are_dot_products() {
    assert_eq!(offset_of(&[1, 2], &[2, 3], &[3, 1]), 5);
    assert_eq!(offset_of(&[0, 0], &[2, 3], &[3, 1]), 0);
    assert_eq!(offset_of(&[4], &[5], &[-1]), -4);
    assert_eq!(offset_of(&[], &[], &[]), 0);
}

#[test]
fn linear_indexing_orders() {
    // A 2 x 3 row-major layout: moving across axes from the right visits
    // memory in order; moving from the left hops between rows first.
    let l = NLayout::try_new(Ix2(2, 3), ShapeStrideN([3, 1])).unwrap();
    let right: Vec<isize> = (0..6).map(|p| l.index_linear_right(p)).collect();
    assert_eq!(right, vec![0, 1, 2, 3, 4, 5]);
    let left: Vec<isize> = (0..6).map(|p| l.index_linear_left(p)).collect();
    assert_eq!(left, vec![0, 3, 1, 4, 2, 5]);
    // The memory-order choice follows the classification: this layout is
    // row-major, so it traverses like index_linear_right.
    let mem: Vec<isize> = (0..6).map(|p| l.index_memory_order(p)).collect();
    assert_eq!(mem, right);

    // The same shape in column-major order flips the choice.
    let f = NLayout::try_new(Ix2(2, 3), ShapeStrideN([1, 2])).unwrap();
    let mem_f: Vec<isize> = (0..6).map(|p| f.index_memory_order(p)).collect();
    let left_f: Vec<isize> = (0..6).map(|p| f.index_linear_left(p)).collect();
    assert_eq!(mem_f, left_f);
    assert_eq!(mem_f, vec![0, 1, 2, 3, 4, 5]);
}

#[test]
fn first_and_next_indices() {
    assert_eq!(first_index(&[2, 2]), Some(vec![0, 0]));
    assert_eq!(first_index(&[2, 0, 3]), None);
    assert_eq!(first_index(&[]), Some(vec![]));

    // The odometer walks a 2 x 2 shape in row-major order.
    assert_eq!(next_for(&[2, 2], &[0, 0]), Some(vec![0, 1]));
    assert_eq!(next_for(&[2, 2], &[0, 1]), Some(vec![1, 0]));
    assert_eq!(next_for(&[2, 2], &[1, 0]), Some(vec![1, 1]));
    assert_eq!(next_for(&[2, 2], &[1, 1]), None);
    assert_eq!(next_for(&[], &[]), None);
}

#[test]
fn layout_engine_round_trip() {
    let l = NLayout::try_new(Ix3(3, 1, 4), ShapeStrideN([4, 4, 1])).unwrap();
    assert_eq!(l.size_checked(), Some(12));
    assert_eq!(l.offset_range(), 11);
    assert_eq!(l.shape().as_slice(), &[3usize, 1, 4]);
    assert_eq!(l.raw_strides().as_slice(), &[4isize, 4, 1]);
    assert_eq!(l.index(&ShapeStrideN([2, 0, 3])), 11);
    assert_eq!(l.first_index(), Some(vec![0, 0, 0]));
    assert_eq!(l.next_for(&ShapeStrideN([0, 0, 3])), Some(vec![1, 0, 0]));
    // A pair whose reachable offsets overflow the signed range is
    // rejected at construction, zero-length axis or not.
    let bad = NLayout::try_new(Ix2(0, 3), ShapeStrideN([isize::MAX, isize::MAX]));
    assert_eq!(bad.err(), Some(ShapeStrideError::ShapeOverflow));
    // The checked index entry validates each coordinate first.
    assert_eq!(l.try_index(&ShapeStrideN([2, 0, 3])), Ok(11));
    assert_eq!(
        l.try_index(&ShapeStrideN([2, 1, 3])),
        Err(ShapeStrideError::OutOfBounds(1))
    );
}

#[test]
fn broadcast_shapes_resolve() {
    // (3, 1) with (1, 4) stretches both operands.
    assert_eq!(
        ndlayout::broadcast::co_broadcast(&[3, 1], &[1, 4]).unwrap(),
        vec![3, 4]
    );
    // (5,) with (3, 5) pads the shorter operand's leading axis.
    assert_eq!(
        ndlayout::broadcast::co_broadcast(&[5], &[3, 5]).unwrap(),
        vec![3, 5]
    );
    // (2, 3) with (4,): trailing axes 3 and 4 differ, neither is 1.
    assert_eq!(
        ndlayout::broadcast::co_broadcast(&[2, 3], &[4]),
        Err(ShapeStrideError::IncompatibleShapes(1))
    );
}

#[test]
fn broadcast_is_commutative() {
    let cases: [(&[usize], &[usize]); 4] = [
        (&[3, 1], &[1, 4]),
        (&[5], &[3, 5]),
        (&[2, 3], &[4]),
        (&[], &[2, 2]),
    ];
    for (a, b) in cases {
        let ab = ndlayout::broadcast::co_broadcast(a, b);
        let ba = ndlayout::broadcast::co_broadcast(b, a);
        assert_eq!(ab.is_ok(), ba.is_ok());
        if let (Ok(x), Ok(y)) = (ab, ba) {
            assert_eq!(x, y);
        }
    }
}

#[test]
fn broadcast_views_zero_stretched_axes() {
    // Stretching (3, 1) to (3, 4): the stretched axis reads one element.
    let v = ndlayout::broadcast::upcast(&[3, 4], &[3, 1], &[1, 1]).unwrap();
    assert_eq!(v, vec![1, 0]);
    // New leading axes are stretched too.
    let v = ndlayout::broadcast::upcast(&[3, 5], &[5], &[1]).unwrap();
    assert_eq!(v, vec![0, 1]);
    // The zero strides are operand-specific: the other operand of the
    // same resolution keeps its own layout where lengths match.
    let v = ndlayout::broadcast::upcast(&[3, 4], &[1, 4], &[4, 1]).unwrap();
    assert_eq!(v, vec![0, 1]);
    assert_eq!(ndlayout::broadcast::upcast(&[3, 4], &[2, 4], &[4, 1]), None);
}

#[test]
fn dimensionality_algebra() {
    let a = Dimensionality::NDim(2);
    let b = Dimensionality::NDim(3);
    // Equal fixed ranks keep their value; different ones degrade.
    assert_eq!(a.dmax(a), Dimensionality::NDim(2));
    assert_eq!(a.dmax(b), Dimensionality::DDyn);
    assert_eq!(a.dmax(Dimensionality::DDyn), Dimensionality::DDyn);
    // Sums stay fixed within the ceiling and degrade past it.
    assert_eq!(a.dadd(b), Dimensionality::NDim(5));
    assert_eq!(
        Dimensionality::NDim(6).dadd(Dimensionality::NDim(6)),
        Dimensionality::NDim(12)
    );
    assert_eq!(
        Dimensionality::NDim(6).dadd(Dimensionality::NDim(7)),
        Dimensionality::DDyn
    );
    assert_eq!(b.dadd(Dimensionality::DDyn), Dimensionality::DDyn);
    assert_eq!(Dimensionality::NDim(4).ndim_opt(), Some(4));
    assert_eq!(Dimensionality::DDyn.ndim_opt(), None);
}

#[test]
fn dyn_repr_inline_and_heap() {
    let small = IxDyn(&[2, 3]);
    assert_eq!(small.ndim(), 2);
    assert_eq!(*small.get(1), 3);
    assert!(matches!(small, DynAxesRepr::Inline(2, _)));
    let big = IxDyn(&[1, 2, 3, 4, 5, 6]);
    assert_eq!(big.ndim(), 6);
    assert_eq!(*big.get(5), 6);
    assert!(matches!(big, DynAxesRepr::Alloc(_)));
    let filled = DynAxesRepr::try_full(3, 7usize).unwrap();
    assert_eq!(filled.as_slice(), &[7, 7, 7]);
    let mut m = IxDyn(&[4, 5]);
    assert!(m.try_set(0, 9).is_ok());
    assert_eq!(m.as_slice(), &[9, 5]);
    assert_eq!(m.try_set(2, 1), Err(ShapeStrideError::OutOfBounds(2)));
    assert_eq!(m.try_get(1), Ok(&5));
    assert_eq!(m.try_get(7), Err(ShapeStrideError::OutOfBounds(7)));
}

#[test]
fn static_axis_mutation() {
    let mut d = IxDyn(&[4, 5, 6]);
    <DynAxesRepr<usize> as AxisMut<1>>::set_axis(&mut d, 9);
    assert_eq!(d.as_slice(), &[4, 9, 6]);
    let mut f = ShapeStrideN([2usize, 3]);
    <ShapeStrideN<usize, 2> as AxisMut<0>>::set_axis(&mut f, 7);
    assert_eq!(f.as_slice(), &[7, 3]);
}

#[test]
fn fixed_repr_conversions() {
    let s = ShapeStrideN([4usize, 5, 6]);
    assert_eq!(s.as_slice(), &[4, 5, 6]);
    let d = s.to_dyn_with(0);
    assert_eq!(d.as_slice(), &[4, 5, 6]);
    let back: ShapeStrideN<usize, 3> = try_to_fixed(&d).unwrap();
    assert_eq!(back.as_slice(), &[4, 5, 6]);
    let wrong: Result<ShapeStrideN<usize, 2>, ShapeStrideError> = try_to_fixed(&d);
    assert_eq!(wrong, Err(ShapeStrideError::BadDimality(3)));
    let empty: ShapeStrideN<usize, 0> = try_to_fixed(&IxDyn(&[])).unwrap();
    assert_eq!(empty.as_slice(), &[] as &[usize]);
    let filled: ShapeStrideN<usize, 2> = ShapeStrideN::try_full(2, 8).unwrap();
    assert_eq!(filled.as_slice(), &[8, 8]);
    assert_eq!(
        ShapeStrideN::<usize, 2>::try_full(3, 8),
        Err(ShapeStrideError::BadDimality(3))
    );
}

#[test]
fn shape_trait_surface() {
    let d = IxDyn(&[5, 6, 3, 4]);
    assert_eq!(d.size_checked(), Some(360));
    assert_eq!(d.dims(), vec![5, 6, 3, 4]);
    assert_eq!(d.axis_len(2), 3);
    let mut m = IxDyn(&[1, 2]);
    assert!(m.try_set_axis(1, 10).is_ok());
    assert_eq!(m.dims(), vec![1, 10]);
    let cm: ConstMatrixShape<2, 3> = ConstMatrixShape;
    assert_eq!(Shape::dims(&cm), vec![2, 3]);
    assert_eq!(Shape::size_checked(&cm), Some(6));
    let mut cm2 = cm;
    assert_eq!(
        cm2.try_set(0, 9),
        Err(ShapeStrideError::FixedIndex(0))
    );
    assert_eq!(
        cm2.try_set(5, 9),
        Err(ShapeStrideError::OutOfBounds(5))
    );
    assert_eq!(
        ConstMatrixShape::<2, 3>::try_full(1, 2),
        Err(ShapeStrideError::BadDimality(1))
    );
    assert_eq!(
        ConstMatrixShape::<2, 3>::try_full(2, 4),
        Err(ShapeStrideError::FixedIndex(0))
    );
    assert!(ConstMatrixShape::<2, 2>::try_full(2, 2).is_ok());
}

#[test]
fn strides_trait_surface() {
    let d = DynAxesRepr::from_slice(&[12isize, 4, 1], 0);
    assert!(Strides::is_c_order(&d));
    assert!(!Strides::is_f_order(&d));
    assert_eq!(d.stride_at(1), 4);
    assert_eq!(d.steps(), vec![12, 4, 1]);
}

#[test]
fn checked_shape_wrapper() {
    let ok = Checked::try_new_shape(IxDyn(&[6, 7])).unwrap();
    assert_eq!(ok.size(), 42);
    assert_eq!(ok.get().as_slice(), &[6, 7]);
    assert_eq!(ok.unwrap().as_slice(), &[6, 7]);
    assert_eq!(
        Checked::try_new_shape(IxDyn(&[isize::MAX as usize, 2])),
        Err(ShapeStrideError::ShapeOverflow)
    );
    let filled = Checked::try_full(3, 4).unwrap();
    assert_eq!(filled.size(), 64);
    // Success is owed exactly when the filled shape's product fits.
    assert_eq!(
        Checked::try_full(2, isize::MAX as usize),
        Err(ShapeStrideError::ShapeOverflow)
    );
    assert!(Checked::try_full(1, isize::MAX as usize).is_ok());
}

#[test]
fn axes_walker() {
    // Find the largest axis of a (3, 5, 4) array: check its position and
    // its length.
    let l = NLayout::try_new(Ix3(3, 5, 4), ShapeStrideN([20, 4, 1])).unwrap();
    let axes = axes_of(&l);
    let largest = axes.max_len_axis().unwrap();
    assert_eq!(largest.axis, 1);
    assert_eq!(largest.len, 5);
    assert_eq!(largest.stride, 4);

    let mut walker = axes_of(&l);
    assert_eq!(walker.len(), 3);
    let front = walker.next().unwrap();
    assert_eq!((front.axis, front.len, front.stride), (0, 3, 20));
    let back = walker.next_back().unwrap();
    assert_eq!((back.axis, back.len, back.stride), (2, 4, 1));
    let mid = walker.next().unwrap();
    assert_eq!((mid.axis, mid.len, mid.stride), (1, 5, 4));
    assert!(walker.next().is_none());
    assert!(walker.next_back().is_none());
    assert_eq!(l.strides_vec(), vec![20, 4, 1]);
}

#[test]
fn index_constructors() {
    assert_eq!(Ix1(9).as_slice(), &[9]);
    assert_eq!(Ix2(1, 2).as_slice(), &[1, 2]);
    assert_eq!(Ix3(1, 2, 3).as_slice(), &[1, 2, 3]);
    assert_eq!(Ix4(1, 2, 3, 4).as_slice(), &[1, 2, 3, 4]);
    assert_eq!(Ix5(1, 2, 3, 4, 5).as_slice(), &[1, 2, 3, 4, 5]);
    assert_eq!(Ix6(1, 2, 3, 4, 5, 6).as_slice(), &[1, 2, 3, 4, 5, 6]);
    assert_eq!(IxDyn(&[5, 6, 3, 4]).as_slice(), &[5, 6, 3, 4]);
}

#[test]
fn error_messages() {
    assert!(!ShapeStrideError::ShapeOverflow.message().is_empty());
    assert!(!ShapeStrideError::OutOfBounds(3).message().is_empty());
    assert!(!ShapeStrideError::FixedIndex(0).message().is_empty());
    assert!(!ShapeStrideError::BadDimality(7).message().is_empty());
    assert!(!ShapeStrideError::IncompatibleShapes(1).message().is_empty());
}
