//! The fixed-rank representation of shapes and strides: a plain array
//! whose length is the rank, known at build time.

use vstd::prelude::*;

use crate::dimensionality::{Dimensionality, Dimensioned, MAX_FIXED_RANK};
use crate::dyn_repr::DynAxesRepr;
use crate::error::ShapeStrideError;

verus! {

/// A fixed-length array of axis data usable for shapes and strides.
#[derive(Debug, Clone, Copy, PartialEq, Eq)]
pub struct ShapeStrideN<T, const N: usize>(pub [T; N]);

/// A fixed-rank shape: `N` axis lengths.
pub type NShape<const N: usize> = ShapeStrideN<usize, N>;

/// Fixed-rank strides: `N` per-axis signed steps.
pub type NStrides<const N: usize> = ShapeStrideN<isize, N>;

impl<T, const N: usize> ShapeStrideN<T, N> {
    /// The stored entries as a mathematical sequence.
    pub open spec fn view(&self) -> Seq<T> {
        self.0@
    }

    /// Wrap an array of axis data.
    pub fn new(values: [T; N]) -> (r: Self)
        ensures
            r.view() == values@,
    {
        ShapeStrideN(values)
    }

    /// The stored entries as a slice.
    pub fn as_slice(&self) -> (r: &[T])
        ensures
            r@ == self.view(),
    {
        vstd::array::array_as_slice(&self.0)
    }

    /// One stored entry.
    pub fn get(&self, index: usize) -> (r: &T)
        requires
            index < N,
        ensures
            *r == self.view()[index as int],
    {
        vstd::array::array_index_get(&self.0, index)
    }
}

impl<T: Copy, const N: usize> ShapeStrideN<T, N> {
    /// Replace the entry of axis `index`; fails with `OutOfBounds` when the
    /// axis does not exist.  Every axis of a fixed-rank value is mutable.
    pub fn try_set(&mut self, index: usize, value: T) -> (r: Result<(), ShapeStrideError>)
        ensures
            index < N ==> r is Ok && final(self).view() == old(self).view().update(
                index as int,
                value,
            ),
            index >= N ==> r == Err::<(), ShapeStrideError>(
                ShapeStrideError::OutOfBounds(index),
            ) && final(self).view() == old(self).view(),
    {
        if index < N {
            self.0[index] = value;
            Ok(())
        } else {
            Err(ShapeStrideError::OutOfBounds(index))
        }
    }

    /// Build a rank-`ndim` value with every entry set to `value`; fails
    /// with `BadDimality` unless `ndim` is exactly the fixed rank.
    pub fn try_full(ndim: usize, value: T) -> (r: Result<Self, ShapeStrideError>)
        ensures
            r is Ok <==> ndim == N,
            r matches Ok(v) ==> v.view() =~= Seq::new(N as nat, |i: int| value),
            r is Err ==> r == Err::<Self, ShapeStrideError>(
                ShapeStrideError::BadDimality(ndim),
            ),
    {
        if ndim == N {
            let arr: [T; N] = vstd::array::array_fill_for_copy_types(value);
            Ok(ShapeStrideN(arr))
        } else {
            Err(ShapeStrideError::BadDimality(ndim))
        }
    }

    /// Convert to the dynamic-rank representation; `fill` pads unused
    /// inline entries and never appears in the stored data.
    pub fn to_dyn_with(&self, fill: T) -> (r: DynAxesRepr<T>)
        ensures
            r.inv(),
            DynAxesRepr::view(&r) == self.view(),
    {
        DynAxesRepr::from_slice(self.as_slice(), fill)
    }
}

impl<T, const N: usize> Dimensioned for ShapeStrideN<T, N> {
    open spec fn rank(&self) -> nat {
        N as nat
    }

    open spec fn inv(&self) -> bool {
        true
    }

    fn dimality(&self) -> (d: Dimensionality) {
        if N <= MAX_FIXED_RANK {
            Dimensionality::NDim(N)
        } else {
            Dimensionality::DDyn
        }
    }

    fn ndim(&self) -> (n: usize) {
        N
    }
}

/// A two-dimensional shape whose axis lengths are both fixed at build
/// time; it stores nothing and rejects every mutation.
#[derive(Debug, Clone, Copy, PartialEq, Eq)]
pub struct ConstMatrixShape<const N: usize, const M: usize>;

impl<const N: usize, const M: usize> ConstMatrixShape<N, M> {
    /// The two fixed axis lengths.
    pub open spec fn view(&self) -> Seq<usize> {
        seq![N, M]
    }

    /// The axis lengths as a vector.
    pub fn dims(&self) -> (r: Vec<usize>)
        ensures
            r@ =~= self.view(),
    {
        let mut v: Vec<usize> = Vec::new();
        v.push(N);
        v.push(M);
        v
    }

    /// Mutation always fails: `FixedIndex` for the two fixed axes,
    /// `OutOfBounds` beyond them.
    pub fn try_set(&mut self, index: usize, _value: usize) -> (r: Result<(), ShapeStrideError>)
        ensures
            *final(self) == *old(self),
            index < 2 ==> r == Err::<(), ShapeStrideError>(ShapeStrideError::FixedIndex(index)),
            index >= 2 ==> r == Err::<(), ShapeStrideError>(
                ShapeStrideError::OutOfBounds(index),
            ),
    {
        if index < 2 {
            Err(ShapeStrideError::FixedIndex(index))
        } else {
            Err(ShapeStrideError::OutOfBounds(index))
        }
    }

    /// Build the shape from a uniform fill; fails with `BadDimality` for a
    /// rank other than two and with `FixedIndex` naming the first axis the
    /// fill conflicts with.
    pub fn try_full(ndim: usize, value: usize) -> (r: Result<Self, ShapeStrideError>)
        ensures
            r is Ok <==> (ndim == 2 && value == N && value == M),
            r matches Err(e) ==> (ndim != 2 ==> e == ShapeStrideError::BadDimality(ndim)) && (
            ndim == 2 && value != N ==> e == ShapeStrideError::FixedIndex(0)) && (ndim == 2
                && value == N && value != M ==> e == ShapeStrideError::FixedIndex(1)),
    {
        if ndim != 2 {
            Err(ShapeStrideError::BadDimality(ndim))
        } else if value != N {
            Err(ShapeStrideError::FixedIndex(0))
        } else if value != M {
            Err(ShapeStrideError::FixedIndex(1))
        } else {
            Ok(ConstMatrixShape)
        }
    }
}

impl<const N: usize, const M: usize> Dimensioned for ConstMatrixShape<N, M> {
    open spec fn rank(&self) -> nat {
        2
    }

    open spec fn inv(&self) -> bool {
        true
    }

    fn dimality(&self) -> (d: Dimensionality) {
        Dimensionality::NDim(2)
    }

    fn ndim(&self) -> (n: usize) {
        2
    }
}


/// Convert a dynamic-rank value to a fixed-rank one; fails with
/// `BadDimality` when the actual rank is not `N`.
pub fn try_to_fixed<T: Copy + Default, const N: usize>(value: &DynAxesRepr<T>) -> (r: Result<
    ShapeStrideN<T, N>,
    ShapeStrideError,
>)
    requires
        value.inv(),
    ensures
        r is Ok <==> DynAxesRepr::view(value).len() == N,
        r matches Ok(v) ==> v.view() == DynAxesRepr::view(value),
        r is Err ==> r == Err::<ShapeStrideN<T, N>, ShapeStrideError>(
            ShapeStrideError::BadDimality(DynAxesRepr::view(value).len() as usize),
        ),
{
    let n = value.ndim();
    if n == N {
        let seed: T = T::default();
        let mut arr: [T; N] = vstd::array::array_fill_for_copy_types(seed);
        let mut i: usize = 0;
        while i < N
            invariant
                0 <= i <= N,
                value.inv(),
                DynAxesRepr::view(value).len() == N,
                arr@.len() == N,
                forall|j: int| 0 <= j < i ==> arr@[j] == DynAxesRepr::view(value)[j],
            decreases N - i,
        {
            arr[i] = *value.get(i);
            i += 1;
        }
        proof {
            assert(arr@ =~= DynAxesRepr::view(value));
        }
        Ok(ShapeStrideN(arr))
    } else {
        Err(ShapeStrideError::BadDimality(n))
    }
}



/// Copy a slice of exactly `N` entries into an array; `fill` initializes
/// the array and is fully overwritten.
pub fn array_from_slice<T: Copy, const N: usize>(s: &[T], fill: T) -> (r: [T; N])
    requires
        s@.len() == N,
    ensures
        r@ == s@,
{
    let mut arr: [T; N] = vstd::array::array_fill_for_copy_types(fill);
    let mut i: usize = 0;
    while i < N
        invariant
            0 <= i <= N,
            s@.len() == N,
            arr@.len() == N,
            forall|j: int| 0 <= j < i ==> arr@[j] == s@[j],
        decreases N - i,
    {
        arr[i] = *vstd::slice::slice_index_get(s, i);
        i += 1;
    }
    proof {
        assert(arr@ =~= s@);
    }
    arr
}

} // verus!

