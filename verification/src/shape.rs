//! Overflow-checked arithmetic over shapes: element counts and byte counts,
//! and the trait for types that carry a shape.

use vstd::prelude::*;

use crate::dimensionality::Dimensioned;
use crate::dyn_repr::{DShape, DynAxesRepr};
use crate::error::ShapeStrideError;
use crate::n_repr::{ConstMatrixShape, NShape, ShapeStrideN};

verus! {

/// The product of all axis lengths of a shape, as an unbounded integer.
pub open spec fn prod(s: Seq<usize>) -> int
    decreases s.len(),
{
    if s.len() == 0 {
        1
    } else {
        prod(s.drop_last()) * (s.last() as int)
    }
}

/// A product of axis lengths is never negative.
pub proof fn lemma_prod_nonneg(s: Seq<usize>)
    ensures
        prod(s) >= 0,
    decreases s.len(),
{
    if s.len() > 0 {
        lemma_prod_nonneg(s.drop_last());
        assert(prod(s.drop_last()) * (s.last() as int) >= 0) by (nonlinear_arith)
            requires
                prod(s.drop_last()) >= 0,
                s.last() as int >= 0,
        ;
    }
}

/// A shape with a zero-length axis holds no elements.
pub proof fn lemma_prod_zero(s: Seq<usize>, i: int)
    requires
        0 <= i < s.len(),
        s[i] == 0,
    ensures
        prod(s) == 0,
    decreases s.len(),
{
    if i == s.len() - 1 {
        assert(s.last() == 0);
        assert(prod(s) == prod(s.drop_last()) * 0);
    } else {
        lemma_prod_zero(s.drop_last(), i);
        assert(prod(s) == 0 * (s.last() as int));
    }
}

/// Extending a prefix of a shape by one axis multiplies its product by that
/// axis length.
pub proof fn lemma_prod_take_step(s: Seq<usize>, i: int)
    requires
        0 <= i < s.len(),
    ensures
        prod(s.take(i + 1)) == prod(s.take(i)) * (s[i] as int),
{
    assert(s.take(i + 1).drop_last() =~= s.take(i));
    assert(s.take(i + 1).last() == s[i]);
}

/// When every axis length is at least one, the product over a prefix never
/// exceeds the product over the whole shape.
pub proof fn lemma_prod_take_le(s: Seq<usize>, i: int)
    requires
        0 <= i <= s.len(),
        forall|j: int| 0 <= j < s.len() ==> s[j] >= 1,
    ensures
        prod(s.take(i)) <= prod(s),
        prod(s.take(i)) >= 1,
    decreases s.len() - i,
{
    if i == s.len() {
        assert(s.take(i) =~= s);
        lemma_prod_pos(s);
    } else {
        lemma_prod_take_le(s, i + 1);
        lemma_prod_take_step(s, i);
        assert(prod(s.take(i)) <= prod(s.take(i)) * (s[i] as int) && (prod(s.take(i)) * (s[i]
            as int) >= 1 ==> prod(s.take(i)) >= 1)) by (nonlinear_arith)
            requires
                s[i] as int >= 1,
                prod(s.take(i)) * (s[i] as int) >= 1,
        ;
    }
}

/// When every axis length is at least one, the product is at least one.
pub proof fn lemma_prod_pos(s: Seq<usize>)
    requires
        forall|j: int| 0 <= j < s.len() ==> s[j] >= 1,
    ensures
        prod(s) >= 1,
    decreases s.len(),
{
    if s.len() > 0 {
        assert(forall|j: int| 0 <= j < s.drop_last().len() ==> s.drop_last()[j] >= 1);
        lemma_prod_pos(s.drop_last());
        assert(prod(s.drop_last()) * (s.last() as int) >= 1) by (nonlinear_arith)
            requires
                prod(s.drop_last()) >= 1,
                s.last() as int >= 1,
        ;
    }
}

/// What the checked element count returns: the product of the axis lengths
/// whenever that product fits the signed machine-width range, no value
/// otherwise.
pub open spec fn spec_size_checked(s: Seq<usize>) -> Option<usize> {
    if prod(s) <= isize::MAX as int {
        Some(prod(s) as usize)
    } else {
        None
    }
}

/// The number of elements a shape holds, checked against the signed range.
///
/// Returns the product of the axis lengths, or no value exactly when that
/// product (as an unbounded integer) exceeds the maximum signed offset.
pub fn size_checked(shape: &[usize]) -> (r: Option<usize>)
    ensures
        r == spec_size_checked(shape@),
{
    proof {
        lemma_prod_nonneg(shape@);
    }
    let n = shape.len();
    let mut i: usize = 0;
    // A zero-length axis empties the array no matter what follows it.
    while i < n
        invariant
            0 <= i <= n,
            n == shape@.len(),
            forall|j: int| 0 <= j < i ==> shape@[j] >= 1,
        decreases n - i,
    {
        if shape[i] == 0 {
            proof {
                lemma_prod_zero(shape@, i as int);
            }
            return Some(0);
        }
        i += 1;
    }
    let mut acc: usize = 1;
    let mut k: usize = 0;
    while k < n
        invariant
            0 <= k <= n,
            n == shape@.len(),
            forall|j: int| 0 <= j < n ==> shape@[j] >= 1,
            acc as int == prod(shape@.take(k as int)),
            acc as int <= isize::MAX as int,
        decreases n - k,
    {
        proof {
            lemma_prod_take_step(shape@, k as int);
        }
        match acc.checked_mul(shape[k]) {
            Some(next) => {
                if next > (isize::MAX as usize) {
                    proof {
                        lemma_prod_take_le(shape@, k as int + 1);
                    }
                    return None;
                }
                acc = next;
            },
            None => {
                proof {
                    lemma_prod_take_le(shape@, k as int + 1);
                }
                return None;
            },
        }
        k += 1;
    }
    proof {
        assert(shape@.take(n as int) =~= shape@);
    }
    Some(acc)
}

/// What the checked byte count returns: the element count times the element
/// size, provided both the count and the byte total fit the signed range.
pub open spec fn spec_size_bytes_checked(s: Seq<usize>, elem_size: usize) -> Option<usize> {
    if prod(s) <= isize::MAX as int && prod(s) * (elem_size as int) <= isize::MAX as int {
        Some((prod(s) * (elem_size as int)) as usize)
    } else {
        None
    }
}

/// The number of bytes a shape occupies for a given element size, checked
/// against the signed range.
///
/// Composes the element-count check with a multiply-by-size check; either
/// overflowing the signed range yields no value.
pub fn size_bytes_checked(shape: &[usize], elem_size: usize) -> (r: Option<usize>)
    ensures
        r == spec_size_bytes_checked(shape@, elem_size),
{
    proof {
        lemma_prod_nonneg(shape@);
    }
    match size_checked(shape) {
        Some(count) => {
            match count.checked_mul(elem_size) {
                Some(bytes) => {
                    if bytes > (isize::MAX as usize) {
                        None
                    } else {
                        Some(bytes)
                    }
                },
                None => None,
            }
        },
        None => None,
    }
}


/// The trait for types that carry the shape of a multidimensional array:
/// an ordered list of axis lengths, one `usize` per axis.
///
/// A `Shape` type only informs about axis lengths; it carries no stride
/// information.  Some implementors fix axis lengths at build time, so the
/// trait itself is read-only; see [`ShapeMut`] for fully mutable shapes.
pub trait Shape: Dimensioned + Sized {
    /// The axis lengths as a mathematical sequence.
    spec fn sh_view(&self) -> Seq<usize>;

    /// Whether `try_full` accepts this rank and fill value.
    spec fn full_ok(ndim: usize, value: usize) -> bool;

    /// The stored axis count always matches the rank.
    proof fn rank_matches(&self)
        ensures
            self.sh_view().len() == self.rank(),
    ;

    /// The axis lengths as a vector.
    fn dims(&self) -> (r: Vec<usize>)
        requires
            self.inv(),
        ensures
            r@ == self.sh_view(),
    ;

    /// The length of one axis.
    fn axis_len(&self, index: usize) -> (r: usize)
        requires
            self.inv(),
            index < self.sh_view().len(),
        ensures
            r == self.sh_view()[index as int],
    ;

    /// The number of elements the shape holds, checked against the signed
    /// range: the product of the axis lengths, or no value exactly when
    /// that product overflows it.
    fn size_checked(&self) -> (r: Option<usize>)
        requires
            self.inv(),
        ensures
            r == spec_size_checked(self.sh_view()),
    ;

    /// Build a rank-`ndim` shape with every axis length set to `value`.
    fn try_full(ndim: usize, value: usize) -> (r: Result<Self, ShapeStrideError>)
        ensures
            r is Ok <==> Self::full_ok(ndim, value),
            r matches Ok(v) ==> v.inv() && v.sh_view() == Seq::new(ndim as nat, |i: int| value),
    ;

    /// Convert to the dynamic-rank shape representation.
    fn to_dyn(&self) -> (r: DShape)
        requires
            self.inv(),
        ensures
            DynAxesRepr::inv(&r),
            DynAxesRepr::view(&r) == self.sh_view(),
    ;
}

impl Shape for DShape {
    open spec fn sh_view(&self) -> Seq<usize> {
        DynAxesRepr::view(self)
    }

    open spec fn full_ok(ndim: usize, value: usize) -> bool {
        true
    }

    proof fn rank_matches(&self) {
    }

    fn dims(&self) -> (r: Vec<usize>) {
        vstd::slice::slice_to_vec(self.as_slice())
    }

    fn axis_len(&self, index: usize) -> (r: usize) {
        *self.get(index)
    }

    fn size_checked(&self) -> (r: Option<usize>) {
        size_checked(self.as_slice())
    }

    fn try_full(ndim: usize, value: usize) -> (r: Result<Self, ShapeStrideError>) {
        DynAxesRepr::try_full(ndim, value)
    }

    fn to_dyn(&self) -> (r: DShape) {
        DynAxesRepr::from_slice(self.as_slice(), 0)
    }
}

impl<const N: usize> Shape for NShape<N> {
    open spec fn sh_view(&self) -> Seq<usize> {
        self.view()
    }

    open spec fn full_ok(ndim: usize, value: usize) -> bool {
        ndim == N
    }

    proof fn rank_matches(&self) {
    }

    fn dims(&self) -> (r: Vec<usize>) {
        vstd::slice::slice_to_vec(self.as_slice())
    }

    fn axis_len(&self, index: usize) -> (r: usize) {
        *self.get(index)
    }

    fn size_checked(&self) -> (r: Option<usize>) {
        size_checked(self.as_slice())
    }

    fn try_full(ndim: usize, value: usize) -> (r: Result<Self, ShapeStrideError>) {
        let r = ShapeStrideN::try_full(ndim, value);
        proof {
            if r is Ok {
                assert(r->Ok_0.view() =~= Seq::new(ndim as nat, |i: int| value));
            }
        }
        r
    }

    fn to_dyn(&self) -> (r: DShape) {
        DynAxesRepr::from_slice(self.as_slice(), 0)
    }
}

impl<const N: usize, const M: usize> Shape for ConstMatrixShape<N, M> {
    open spec fn sh_view(&self) -> Seq<usize> {
        self.view()
    }

    open spec fn full_ok(ndim: usize, value: usize) -> bool {
        ndim == 2 && value == N && value == M
    }

    proof fn rank_matches(&self) {
    }

    fn dims(&self) -> (r: Vec<usize>) {
        ConstMatrixShape::dims(self)
    }

    fn axis_len(&self, index: usize) -> (r: usize) {
        if index == 0 {
            N
        } else {
            M
        }
    }

    fn size_checked(&self) -> (r: Option<usize>) {
        let d = ConstMatrixShape::dims(self);
        size_checked(d.as_slice())
    }

    fn try_full(ndim: usize, value: usize) -> (r: Result<Self, ShapeStrideError>) {
        let r = ConstMatrixShape::try_full(ndim, value);
        proof {
            if r is Ok {
                assert(r->Ok_0.view() =~= Seq::new(2nat, |i: int| value));
            }
        }
        r
    }

    fn to_dyn(&self) -> (r: DShape) {
        let d = ConstMatrixShape::dims(self);
        DynAxesRepr::from_slice(d.as_slice(), 0)
    }
}

/// A shape with no axis length fixed at build time: every axis is mutable.
pub trait ShapeMut: Shape {
    /// Replace the length of axis `index`; fails with `OutOfBounds` when
    /// the axis does not exist.
    fn try_set_axis(&mut self, index: usize, value: usize) -> (r: Result<(), ShapeStrideError>)
        requires
            old(self).inv(),
        ensures
            final(self).inv(),
            index < old(self).sh_view().len() ==> r is Ok && final(self).sh_view() == old(
                self,
            ).sh_view().update(index as int, value),
            index >= old(self).sh_view().len() ==> r == Err::<(), ShapeStrideError>(
                ShapeStrideError::OutOfBounds(index),
            ) && final(self).sh_view() == old(self).sh_view(),
    ;
}

impl ShapeMut for DShape {
    fn try_set_axis(&mut self, index: usize, value: usize) -> (r: Result<(), ShapeStrideError>) {
        self.try_set(index, value)
    }
}

impl<const N: usize> ShapeMut for NShape<N> {
    fn try_set_axis(&mut self, index: usize, value: usize) -> (r: Result<(), ShapeStrideError>) {
        self.try_set(index, value)
    }
}

/// A shape whose axis `N` is known statically to be mutable.
pub trait AxisMut<const N: usize>: Shape {
    /// Replace the length of axis `N`.
    fn set_axis(&mut self, value: usize)
        requires
            old(self).inv(),
            N < old(self).sh_view().len(),
        ensures
            final(self).inv(),
            final(self).sh_view() == old(self).sh_view().update(N as int, value),
    ;
}

impl<const N: usize> AxisMut<N> for DShape {
    fn set_axis(&mut self, value: usize) {
        match self.try_set(N, value) {
            Ok(_) => (),
            Err(_) => (),
        }
    }
}

impl<const N: usize, const M: usize> AxisMut<N> for NShape<M> {
    fn set_axis(&mut self, value: usize) {
        match self.try_set(N, value) {
            Ok(_) => (),
            Err(_) => (),
        }
    }
}

/// A conversion trait for values that can act as a shape.
pub trait IntoShape {
    /// The axis lengths the value stands for.
    spec fn into_sh(&self) -> Seq<usize>;

    /// What the conversion requires of the value.
    spec fn into_sh_inv(&self) -> bool;

    /// Convert to a dynamic-rank shape.
    fn into_shape(&self) -> (r: DShape)
        requires
            self.into_sh_inv(),
        ensures
            DynAxesRepr::inv(&r),
            DynAxesRepr::view(&r) == self.into_sh(),
    ;
}

impl IntoShape for DShape {
    open spec fn into_sh(&self) -> Seq<usize> {
        DynAxesRepr::view(self)
    }

    open spec fn into_sh_inv(&self) -> bool {
        DynAxesRepr::inv(self)
    }

    fn into_shape(&self) -> (r: DShape) {
        DynAxesRepr::from_slice(self.as_slice(), 0)
    }
}

impl<const N: usize> IntoShape for NShape<N> {
    open spec fn into_sh(&self) -> Seq<usize> {
        self.view()
    }

    open spec fn into_sh_inv(&self) -> bool {
        true
    }

    fn into_shape(&self) -> (r: DShape) {
        DynAxesRepr::from_slice(self.as_slice(), 0)
    }
}

impl IntoShape for Vec<usize> {
    open spec fn into_sh(&self) -> Seq<usize> {
        self@
    }

    open spec fn into_sh_inv(&self) -> bool {
        true
    }

    fn into_shape(&self) -> (r: DShape) {
        DynAxesRepr::from_slice(self.as_slice(), 0)
    }
}

} // verus!\n