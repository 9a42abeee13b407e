//! The dynamic-rank representation of shapes and strides: a small inline
//! array for low ranks, a heap-backed vector above that.

use vstd::prelude::*;

use crate::dimensionality::{Dimensionality, Dimensioned};
use crate::error::ShapeStrideError;

verus! {

/// How many axes fit the inline representation.
pub const INLINE_CAP: usize = 4;

/// Axis data of a dynamic-rank shape or strides value.
///
/// Up to [`INLINE_CAP`] axes are stored without heap allocation; larger
/// ranks move to a heap-backed vector.  The selection is canonical: the
/// heap variant is used exactly when the rank exceeds the inline capacity.
#[derive(Debug, Clone, PartialEq, Eq)]
pub enum DynAxesRepr<T> {
    /// `len` axes stored inline; only the first `len` entries are data.
    Inline(usize, [T; 4]),
    /// More than [`INLINE_CAP`] axes, stored on the heap.
    Alloc(Vec<T>),
}

/// A dynamic-rank shape: axis lengths.
pub type DShape = DynAxesRepr<usize>;

/// Dynamic-rank strides: per-axis signed steps.
pub type DStrides = DynAxesRepr<isize>;

impl<T> DynAxesRepr<T> {
    /// The representation invariant: the inline length is within capacity,
    /// and the heap variant only holds ranks beyond it.
    pub open spec fn inv(&self) -> bool {
        match self {
            DynAxesRepr::Inline(len, _) => *len <= 4,
            DynAxesRepr::Alloc(items) => items@.len() > 4,
        }
    }

    /// The stored axis entries as a mathematical sequence.
    pub open spec fn view(&self) -> Seq<T> {
        match self {
            DynAxesRepr::Inline(len, arr) => arr@.take(*len as int),
            DynAxesRepr::Alloc(items) => items@,
        }
    }

    /// The number of axes stored.
    pub fn ndim(&self) -> (n: usize)
        requires
            self.inv(),
        ensures
            n == self.view().len(),
    {
        match self {
            DynAxesRepr::Inline(len, _) => *len,
            DynAxesRepr::Alloc(items) => items.len(),
        }
    }

    /// The stored axis entries as a slice.
    pub fn as_slice(&self) -> (r: &[T])
        requires
            self.inv(),
        ensures
            r@ == self.view(),
    {
        match self {
            DynAxesRepr::Inline(len, arr) => {
                vstd::slice::slice_subrange(vstd::array::array_as_slice(arr), 0, *len)
            },
            DynAxesRepr::Alloc(items) => items.as_slice(),
        }
    }

    /// One stored entry, fallibly: the rank of a dynamic value is only
    /// known at run time, so an out-of-range axis is a reported error.
    pub fn try_get(&self, index: usize) -> (r: Result<&T, ShapeStrideError>)
        requires
            self.inv(),
        ensures
            index < self.view().len() ==> (r matches Ok(v) && *v == self.view()[index as int]),
            index >= self.view().len() ==> (r matches Err(e) && e
                == ShapeStrideError::OutOfBounds(index)),
    {
        if index < self.ndim() {
            Ok(self.get(index))
        } else {
            Err(ShapeStrideError::OutOfBounds(index))
        }
    }

    /// One stored entry.
    pub fn get(&self, index: usize) -> (r: &T)
        requires
            self.inv(),
            index < self.view().len(),
        ensures
            *r == self.view()[index as int],
    {
        vstd::slice::slice_index_get(self.as_slice(), index)
    }
}

impl<T: Copy> DynAxesRepr<T> {
    /// Build the canonical representation of the entries of a slice.
    ///
    /// `fill` pads the unused inline entries and never appears in the
    /// stored data.
    pub fn from_slice(values: &[T], fill: T) -> (r: Self)
        ensures
            r.inv(),
            r.view() == values@,
    {
        let n = values.len();
        if n <= INLINE_CAP {
            let mut arr: [T; 4] = [fill, fill, fill, fill];
            let mut i: usize = 0;
            while i < n
                invariant
                    0 <= i <= n,
                    n <= 4,
                    n == values@.len(),
                    arr@.len() == 4,
                    forall|j: int| 0 <= j < i ==> arr@[j] == values@[j],
                decreases n - i,
            {
                arr[i] = *vstd::slice::slice_index_get(values, i);
                i += 1;
            }
            let r = DynAxesRepr::Inline(n, arr);
            proof {
                assert(r.view() =~= values@);
            }
            r
        } else {
            let v = vstd::slice::slice_to_vec(values);
            DynAxesRepr::Alloc(v)
        }
    }

    /// Build a rank-`ndim` value with every axis entry set to `value`.
    ///
    /// A dynamic-rank representation accepts every rank, so this never
    /// fails; the fallible signature matches the fixed-rank builders.
    pub fn try_full(ndim: usize, value: T) -> (r: Result<Self, ShapeStrideError>)
        ensures
            r matches Ok(v) && v.inv() && v.view() =~= Seq::new(
                ndim as nat,
                |i: int| value,
            ),
    {
        if ndim <= INLINE_CAP {
            let r = DynAxesRepr::Inline(ndim, [value, value, value, value]);
            proof {
                assert(r.view() =~= Seq::new(ndim as nat, |i: int| value));
            }
            Ok(r)
        } else {
            let mut v: Vec<T> = Vec::new();
            let mut i: usize = 0;
            while i < ndim
                invariant
                    0 <= i <= ndim,
                    v@.len() == i,
                    forall|j: int| 0 <= j < i ==> v@[j] == value,
                decreases ndim - i,
            {
                v.push(value);
                i += 1;
            }
            proof {
                assert(v@ =~= Seq::new(ndim as nat, |k: int| value));
            }
            Ok(DynAxesRepr::Alloc(v))
        }
    }

    /// Replace the entry of axis `index`; fails with `OutOfBounds` when the
    /// axis does not exist.
    pub fn try_set(&mut self, index: usize, value: T) -> (r: Result<(), ShapeStrideError>)
        requires
            old(self).inv(),
        ensures
            final(self).inv(),
            index < old(self).view().len() ==> r is Ok && final(self).view() == old(
                self,
            ).view().update(index as int, value),
            index >= old(self).view().len() ==> r == Err::<(), ShapeStrideError>(
                ShapeStrideError::OutOfBounds(index),
            ) && final(self).view() == old(self).view(),
    {
        match self {
            DynAxesRepr::Inline(len, arr) => {
                if index < *len {
                    arr[index] = value;
                    proof {
                        assert(final(self).view() =~= old(self).view().update(
                            index as int,
                            value,
                        ));
                    }
                    Ok(())
                } else {
                    Err(ShapeStrideError::OutOfBounds(index))
                }
            },
            DynAxesRepr::Alloc(items) => {
                if index < items.len() {
                    items[index] = value;
                    Ok(())
                } else {
                    Err(ShapeStrideError::OutOfBounds(index))
                }
            },
        }
    }
}

impl<T> Dimensioned for DynAxesRepr<T> {
    open spec fn rank(&self) -> nat {
        self.view().len()
    }

    open spec fn inv(&self) -> bool {
        DynAxesRepr::inv(self)
    }

    fn dimality(&self) -> (d: Dimensionality) {
        Dimensionality::DDyn
    }

    fn ndim(&self) -> (n: usize) {
        DynAxesRepr::ndim(self)
    }
}

} // verus!
