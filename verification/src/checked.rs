//! A wrapper marking a shape whose element count has been checked against
//! the signed range.

use vstd::prelude::*;

use crate::dyn_repr::{DShape, DynAxesRepr};
use crate::error::ShapeStrideError;
use crate::shape::{prod, spec_size_checked, Shape};

verus! {

/// A value whose invariants have been validated by a checked constructor.
///
/// For a shape, the invariant is that the product of the axis lengths
/// fits the maximum signed offset, so unchecked size computations on the
/// wrapped value cannot overflow.
#[derive(Debug, Clone, PartialEq, Eq)]
pub struct Checked<T>(T);

impl<T> Checked<T> {
    /// The wrapped value.
    pub closed spec fn inner(&self) -> T {
        self.0
    }

    /// Unwrap the value, discarding the evidence of the check.
    pub fn unwrap(self) -> (r: T)
        ensures
            r == self.inner(),
    {
        self.0
    }

    /// A reference to the wrapped value.
    pub fn get(&self) -> (r: &T)
        ensures
            *r == self.inner(),
    {
        &self.0
    }
}

impl Checked<DShape> {
    /// The checked-shape invariant: the element count fits the signed
    /// range.
    pub open spec fn size_ok(&self) -> bool {
        DynAxesRepr::inv(&self.inner()) && prod(DynAxesRepr::view(&self.inner()))
            <= isize::MAX as int
    }

    /// Wrap a shape after validating that its element count fits the
    /// signed range; fails with `ShapeOverflow` exactly when it does not.
    pub fn try_new_shape(value: DShape) -> (r: Result<Self, ShapeStrideError>)
        requires
            DynAxesRepr::inv(&value),
        ensures
            r is Ok <==> prod(DynAxesRepr::view(&value)) <= isize::MAX as int,
            r matches Ok(c) ==> c.inner() == value && c.size_ok(),
            r is Err ==> r == Err::<Self, ShapeStrideError>(ShapeStrideError::ShapeOverflow),
    {
        match value.size_checked() {
            Some(_) => Ok(Checked(value)),
            None => Err(ShapeStrideError::ShapeOverflow),
        }
    }

    /// Build a rank-`ndim` shape filled with `value` and validate its
    /// element count in one step: succeeds exactly when the product of
    /// the `ndim` copies of `value` fits the signed range.
    pub fn try_full(ndim: usize, value: usize) -> (r: Result<Self, ShapeStrideError>)
        ensures
            r is Ok <==> prod(Seq::new(ndim as nat, |i: int| value)) <= isize::MAX as int,
            r matches Ok(c) ==> c.size_ok() && DynAxesRepr::view(&c.inner()) == Seq::new(
                ndim as nat,
                |i: int| value,
            ),
            r is Err ==> r == Err::<Self, ShapeStrideError>(ShapeStrideError::ShapeOverflow),
    {
        match DynAxesRepr::try_full(ndim, value) {
            Ok(shape) => Checked::try_new_shape(shape),
            Err(_) => Err(ShapeStrideError::ShapeOverflow),
        }
    }

    /// The element count of the wrapped shape; by the invariant it cannot
    /// overflow, so no check is repeated here.
    pub fn size(&self) -> (r: usize)
        requires
            self.size_ok(),
        ensures
            r as int == prod(DynAxesRepr::view(&self.inner())),
    {
        proof {
            crate::shape::lemma_prod_nonneg(DynAxesRepr::view(&self.inner()));
        }
        match crate::shape::size_checked(self.0.as_slice()) {
            Some(n) => n,
            None => vstd::pervasive::unreached(),
        }
    }
}

} // verus!
