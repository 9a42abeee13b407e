//! Classification tests: layouts carved from contiguous arrays by slicing
//! report the expected contiguity and preference flags.

use ndlayout::aliases::{Ix0, Ix1, Ix2};
use ndlayout::bitset::LayoutBitset;
use ndlayout::broadcast::Broadcastable;
use ndlayout::dyn_repr::DynAxesRepr;
use ndlayout::layout::{DLayout, NLayout};
use ndlayout::n_repr::ShapeStrideN;
use ndlayout::strides::DefaultC;

fn layout2(shape: [usize; 2], strides: [isize; 2]) -> LayoutBitset {
    NLayout::try_new(ShapeStrideN(shape), ShapeStrideN(strides))
        .unwrap()
        .layout()
}

fn layout1(shape: [usize; 1], strides: [isize; 1]) -> LayoutBitset {
    NLayout::try_new(ShapeStrideN(shape), ShapeStrideN(strides))
        .unwrap()
        .layout()
}

fn assert_layouts(l: LayoutBitset, flags: &[u32]) {
    for &f in flags {
        assert!(l.is(f), "flag {:#b} expected set", f);
    }
}

fn assert_not_layouts(l: LayoutBitset, flags: &[u32]) {
    for &f in flags {
        assert!(!l.is(f), "flag {:#b} expected clear", f);
    }
}

#[test]
fn contig_layouts() {
    // A (5, 5) array in C order and one in F order.
    let ac = layout2([5, 5], [5, 1]);
    let af = layout2([5, 5], [1, 5]);
    assert!(ac.is(LayoutBitset::CORDER) && ac.is(LayoutBitset::CPREFER));
    assert!(!ac.is(LayoutBitset::FORDER) && !ac.is(LayoutBitset::FPREFER));
    assert!(!af.is(LayoutBitset::CORDER) && !af.is(LayoutBitset::CPREFER));
    assert!(af.is(LayoutBitset::FORDER) && af.is(LayoutBitset::FPREFER));
}

#[test]
fn contig_cf_layouts() {
    const ALL: [u32; 4] = [
        LayoutBitset::CORDER,
        LayoutBitset::CPREFER,
        LayoutBitset::FORDER,
        LayoutBitset::FPREFER,
    ];

    // (5, 1) in C order and (1, 5) in F order: effectively one-dimensional.
    let a = layout2([5, 1], [1, 1]);
    let b = layout2([1, 5], [1, 1]);
    assert_layouts(a, &ALL);
    assert_layouts(b, &ALL);

    // One-dimensional arrays, from either construction.
    let a = layout1([5], [1]);
    let b = layout1([5], [1]);
    assert_layouts(a, &ALL);
    assert_layouts(b, &ALL);

    // A zero-dimensional array.
    let a = NLayout::try_new(Ix0(), ShapeStrideN([])).unwrap().layout();
    assert_layouts(a, &ALL);

    // A single row of a C (5, 5) array and a single column of an F one.
    let arow = layout2([1, 5], [5, 1]);
    let bcol = layout2([5, 1], [1, 5]);
    assert_layouts(arow, &ALL);
    assert_layouts(bcol, &ALL);

    // A single column of the C array and a single row of the F one are
    // strided in their only effective axis.
    let acol = layout2([5, 1], [5, 1]);
    let brow = layout2([1, 5], [1, 5]);
    assert_not_layouts(acol, &ALL);
    assert_not_layouts(brow, &ALL);
}

#[test]
fn stride_layouts() {
    // Slices of a C (5, 5) array: rows 1.. and columns 1.. .
    {
        let v1 = layout2([4, 5], [5, 1]);
        let v2 = layout2([5, 4], [5, 1]);

        assert!(v1.is(LayoutBitset::CORDER) && v1.is(LayoutBitset::CPREFER));
        assert!(!v1.is(LayoutBitset::FORDER) && !v1.is(LayoutBitset::FPREFER));
        assert!(!v2.is(LayoutBitset::CORDER) && v2.is(LayoutBitset::CPREFER));
        assert!(!v2.is(LayoutBitset::FORDER) && !v2.is(LayoutBitset::FPREFER));
    }

    // The same slices of an F (5, 5) array.
    {
        let v1 = layout2([4, 5], [1, 5]);
        let v2 = layout2([5, 4], [1, 5]);

        assert!(!v1.is(LayoutBitset::CORDER) && !v1.is(LayoutBitset::CPREFER));
        assert!(!v1.is(LayoutBitset::FORDER) && v1.is(LayoutBitset::FPREFER));
        assert!(!v2.is(LayoutBitset::CORDER) && !v2.is(LayoutBitset::CPREFER));
        assert!(v2.is(LayoutBitset::FORDER) && v2.is(LayoutBitset::FPREFER));
    }
}

#[test]
fn no_layouts() {
    const ALL: [u32; 4] = [
        LayoutBitset::CORDER,
        LayoutBitset::CPREFER,
        LayoutBitset::FORDER,
        LayoutBitset::FPREFER,
    ];

    // 2-D row/column matrices sliced out of C and F (5, 5) arrays.
    let arow = layout2([1, 5], [5, 1]);
    let acol = layout2([5, 1], [5, 1]);
    let brow = layout2([1, 5], [1, 5]);
    let bcol = layout2([5, 1], [1, 5]);
    assert_layouts(arow, &[LayoutBitset::CORDER, LayoutBitset::FORDER]);
    assert_not_layouts(acol, &ALL);
    assert_layouts(bcol, &[LayoutBitset::CORDER, LayoutBitset::FORDER]);
    assert_not_layouts(brow, &ALL);

    // The same rows and columns made by inserting an axis into a 1-D
    // slice: a row of the C array and a column of the F array are
    // unit-strided, their counterparts step by a full row.  The inserted
    // axis has length one and may carry any stride.
    for &ins in &[1isize, 5, 25] {
        for (arow, acol, brow, bcol) in [
            (
                layout2([1, 5], [ins, 1]),
                layout2([1, 5], [ins, 5]),
                layout2([1, 5], [ins, 5]),
                layout2([1, 5], [ins, 1]),
            ),
            (
                layout2([5, 1], [1, ins]),
                layout2([5, 1], [5, ins]),
                layout2([5, 1], [5, ins]),
                layout2([5, 1], [1, ins]),
            ),
        ] {
            assert_layouts(arow, &[LayoutBitset::CORDER, LayoutBitset::FORDER]);
            assert_not_layouts(acol, &ALL);
            assert_layouts(bcol, &[LayoutBitset::CORDER, LayoutBitset::FORDER]);
            assert_not_layouts(brow, &ALL);
        }
    }
}

#[test]
fn skip_layouts() {
    // Every other row / column of a C (5, 5) array.
    {
        let v1 = layout2([3, 5], [10, 1]);
        let v2 = layout2([5, 3], [5, 2]);

        assert!(!v1.is(LayoutBitset::CORDER) && v1.is(LayoutBitset::CPREFER));
        assert!(!v1.is(LayoutBitset::FORDER) && !v1.is(LayoutBitset::FPREFER));
        assert!(!v2.is(LayoutBitset::CORDER) && !v2.is(LayoutBitset::CPREFER));
        assert!(!v2.is(LayoutBitset::FORDER) && !v2.is(LayoutBitset::FPREFER));
    }

    // Every other row / column of an F (5, 5) array.
    {
        let v1 = layout2([3, 5], [2, 5]);
        let v2 = layout2([5, 3], [1, 10]);

        assert!(!v1.is(LayoutBitset::CORDER) && !v1.is(LayoutBitset::CPREFER));
        assert!(!v1.is(LayoutBitset::FORDER) && !v1.is(LayoutBitset::FPREFER));
        assert!(!v2.is(LayoutBitset::CORDER) && !v2.is(LayoutBitset::CPREFER));
        assert!(!v2.is(LayoutBitset::FORDER) && v2.is(LayoutBitset::FPREFER));
    }
}

#[test]
fn test_default_strides() {
    let shape = [2usize, 3, 4];
    let strides = <ShapeStrideN<isize, 3> as DefaultC>::default_c(&shape).unwrap();
    assert_eq!(strides.as_slice(), &[12isize, 4, 1]);

    let strides = <ShapeStrideN<isize, 3> as ndlayout::strides::DefaultF>::default_f(&shape)
        .unwrap();
    assert_eq!(strides.as_slice(), &[1isize, 2, 6]);
}

#[test]
fn test_elem() {
    // A scalar is a rank-zero layout; it broadcasts to any target shape,
    // reading the same single element at every logical position.
    let a = NLayout::try_new(Ix0(), ShapeStrideN([])).unwrap();
    assert_eq!(a.broadcast_dim().ndim(), 0);
    assert_eq!(a.broadcast_dim().as_slice(), Ix0().as_slice());
    let target = ndlayout::aliases::IxDyn(&[10]);
    assert!(a.maybe_broadcast(&target).is_some());
    let view = a.maybe_broadcast(&target).unwrap();
    assert_eq!(view.as_slice(), &[0isize]);
    let empty_target = ndlayout::aliases::IxDyn(&[]);
    assert!(a.maybe_broadcast(&empty_target).is_some());
}

#[test]
fn classify_idempotent() {
    // Reclassifying an unclassified-again layout yields identical flags.
    let l = NLayout::try_new(Ix2(3, 5), ShapeStrideN([10, 1])).unwrap();
    let first = l.layout();
    let second = l.layout();
    assert_eq!(first, second);
    let m = NLayout::try_new(Ix1(7), ShapeStrideN([-2])).unwrap();
    assert_eq!(m.layout(), m.layout());
}

#[test]
fn sliced_even_rows_prefer_c() {
    // Taking every other row of a contiguous row-major 2-D array doubles
    // the row stride: row-biased, but no longer exactly contiguous.
    let l = NLayout::try_new(Ix2(3, 5), ShapeStrideN([10, 1])).unwrap();
    let bits = l.layout();
    assert!(bits.is(LayoutBitset::CPREFER));
    assert!(!bits.is(LayoutBitset::CORDER));
}

#[test]
fn bitset_algebra() {
    let c = LayoutBitset::c();
    let f = LayoutBitset::f();
    let both = c.also(f);
    assert!(both.is(LayoutBitset::CORDER) && both.is(LayoutBitset::FORDER));
    let none = c.intersect(f);
    assert!(!none.is(LayoutBitset::CORDER | LayoutBitset::FORDER));
    assert_eq!(LayoutBitset::one_dimensional(), both);
    assert_eq!(LayoutBitset::c().tendency(), 2);
    assert_eq!(LayoutBitset::f().tendency(), -2);
    assert_eq!(LayoutBitset::cpref().tendency(), 1);
    assert_eq!(LayoutBitset::fpref().tendency(), -1);
    assert_eq!(LayoutBitset::none().tendency(), 0);
    assert!(!LayoutBitset::none().is(
        LayoutBitset::CORDER | LayoutBitset::FORDER | LayoutBitset::CPREFER
            | LayoutBitset::FPREFER
    ));
}

#[test]
fn default_strides_classify_row_major() {
    // Row-major default strides always classify as exactly row-major.
    for shape in [
        vec![2usize, 3, 4],
        vec![1, 7],
        vec![5],
        vec![],
        vec![4, 0, 2],
    ] {
        let st = ndlayout::strides::c_strides(&shape).unwrap();
        let bits = ndlayout::classify::classify(&shape, &st);
        assert!(bits.is(LayoutBitset::CORDER), "shape {:?}", shape);
    }
}

#[test]
fn degenerate_shapes_classify_both_orders() {
    // At most one axis longer than one: both orders hold at once.
    for shape in [vec![1usize, 5, 1], vec![9], vec![1, 1], vec![]] {
        let st = ndlayout::strides::c_strides(&shape).unwrap();
        let bits = ndlayout::classify::classify(&shape, &st);
        assert!(bits.is(LayoutBitset::CORDER) && bits.is(LayoutBitset::FORDER));
    }
}

#[test]
fn vec_broadcasts_as_one_dimensional() {
    let v: Vec<u32> = vec![7, 8, 9];
    assert_eq!(v.broadcast_dim().as_slice(), &[3usize]);
    let target = ndlayout::aliases::IxDyn(&[4, 3]);
    let view = v.maybe_broadcast(&target).unwrap();
    assert_eq!(view.as_slice(), &[0isize, 1]);
    let bad = ndlayout::aliases::IxDyn(&[4, 5]);
    assert!(v.maybe_broadcast(&bad).is_none());
    let d: DynAxesRepr<usize> = v.broadcast_dim();
    assert_eq!(d.ndim(), 1);
}

#[test]
fn dynamic_layouts() {
    let l = DLayout::try_new(
        ndlayout::aliases::IxDyn(&[5, 5]),
        DynAxesRepr::from_slice(&[5isize, 1], 0),
    )
    .unwrap();
    let bits = l.layout();
    assert!(bits.is(LayoutBitset::CORDER) && bits.is(LayoutBitset::CPREFER));
    assert_eq!(l.offset_range(), 24);
    assert_eq!(l.index(&[2, 3]), 13);
    assert_eq!(l.index_linear_right(7), 7);
    assert_eq!(l.index_linear_left(7), 11);
    // Rank mismatch between shape and strides is rejected.
    let bad = DLayout::try_new(
        ndlayout::aliases::IxDyn(&[5, 5]),
        DynAxesRepr::from_slice(&[1isize], 0),
    );
    assert!(bad.is_err());
}
