//! Index types and constructors for common ranks.

use vstd::prelude::*;

use crate::dyn_repr::{DShape, DynAxesRepr};
use crate::n_repr::{NShape, ShapeStrideN};

verus! {

/// A zero-dimensional index.
pub type Ix0 = NShape<0>;

/// A one-dimensional index.
pub type Ix1 = NShape<1>;

/// A two-dimensional index.
pub type Ix2 = NShape<2>;

/// A three-dimensional index.
pub type Ix3 = NShape<3>;

/// A four-dimensional index.
pub type Ix4 = NShape<4>;

/// A five-dimensional index.
pub type Ix5 = NShape<5>;

/// A six-dimensional index.
pub type Ix6 = NShape<6>;

/// A dynamic-dimensional index.
pub type IxDyn = DShape;

/// Create a zero-dimensional index.
#[allow(non_snake_case)]
#[inline(always)]
pub fn Ix0() -> (r: NShape<0>)
    ensures
        r.view() =~= Seq::<usize>::empty(),
{
    ShapeStrideN([])
}

/// Create a one-dimensional index.
#[allow(non_snake_case)]
#[inline(always)]
pub fn Ix1(i0: usize) -> (r: NShape<1>)
    ensures
        r.view() =~= seq![i0],
{
    ShapeStrideN([i0])
}

/// Create a two-dimensional index.
#[allow(non_snake_case)]
#[inline(always)]
pub fn Ix2(i0: usize, i1: usize) -> (r: NShape<2>)
    ensures
        r.view() =~= seq![i0, i1],
{
    ShapeStrideN([i0, i1])
}

/// Create a three-dimensional index.
#[allow(non_snake_case)]
#[inline(always)]
pub fn Ix3(i0: usize, i1: usize, i2: usize) -> (r: NShape<3>)
    ensures
        r.view() =~= seq![i0, i1, i2],
{
    ShapeStrideN([i0, i1, i2])
}

/// Create a four-dimensional index.
#[allow(non_snake_case)]
#[inline(always)]
pub fn Ix4(i0: usize, i1: usize, i2: usize, i3: usize) -> (r: NShape<4>)
    ensures
        r.view() =~= seq![i0, i1, i2, i3],
{
    ShapeStrideN([i0, i1, i2, i3])
}

/// Create a five-dimensional index.
#[allow(non_snake_case)]
#[inline(always)]
pub fn Ix5(i0: usize, i1: usize, i2: usize, i3: usize, i4: usize) -> (r: NShape<5>)
    ensures
        r.view() =~= seq![i0, i1, i2, i3, i4],
{
    ShapeStrideN([i0, i1, i2, i3, i4])
}

/// Create a six-dimensional index.
#[allow(non_snake_case)]
#[inline(always)]
pub fn Ix6(i0: usize, i1: usize, i2: usize, i3: usize, i4: usize, i5: usize) -> (r: NShape<6>)
    ensures
        r.view() =~= seq![i0, i1, i2, i3, i4, i5],
{
    ShapeStrideN([i0, i1, i2, i3, i4, i5])
}

/// Create a dynamic-dimensional index.
#[allow(non_snake_case)]
#[inline(always)]
pub fn IxDyn(ix: &[usize]) -> (r: DShape)
    ensures
        DynAxesRepr::inv(&r),
        DynAxesRepr::view(&r) == ix@,
{
    DynAxesRepr::from_slice(ix, 0)
}

} // verus!
