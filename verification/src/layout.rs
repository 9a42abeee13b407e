//! A layout: a shape paired with strides, validated so that every
//! reachable offset fits the signed range.

use vstd::prelude::*;

use crate::bitset::LayoutBitset;
use crate::classify::{classify, spec_classify};
use crate::dimensionality::{Dimensionality, Dimensioned, MAX_FIXED_RANK};
use crate::error::ShapeStrideError;
use crate::dyn_repr::{DShape, DStrides, DynAxesRepr};
use crate::n_repr::{NShape, NStrides};
use crate::offset::{
    dot, max_off, min_off, next_for, offset_of, offset_range_checked, spec_next_for, spec_span,
    unravel_c, unravel_f,
};
use crate::shape::{prod, size_checked, spec_size_checked};

verus! {

/// A type that pairs a shape with enough information to answer layout
/// queries.
pub trait Layout: Dimensioned {
    /// The axis lengths of the layout.
    spec fn shape_view(&self) -> Seq<usize>;

    /// The stored axis count always matches the rank.
    proof fn shape_rank_matches(&self)
        requires
            self.inv(),
        ensures
            self.shape_view().len() == self.rank(),
    ;

    /// The axis lengths as a vector.
    fn shape_dims(&self) -> (r: Vec<usize>)
        requires
            self.inv(),
        ensures
            r@ == self.shape_view(),
    ;

    /// The checked element count of the layout's shape.
    fn size_checked(&self) -> (r: Option<usize>)
        requires
            self.inv(),
        ensures
            r == spec_size_checked(self.shape_view()),
    ;
}

/// A layout that also carries explicit per-axis strides.
pub trait Strided: Layout {
    /// The per-axis steps of the layout.
    spec fn strides_view(&self) -> Seq<isize>;

    /// The stored step count always matches the rank.
    proof fn strides_rank_matches(&self)
        requires
            self.inv(),
        ensures
            self.strides_view().len() == self.rank(),
    ;

    /// The per-axis steps as a vector.
    fn strides_vec(&self) -> (r: Vec<isize>)
        requires
            self.inv(),
        ensures
            r@ == self.strides_view(),
    ;
}

/// A fixed-rank layout: a shape and strides of rank `N`, validated at
/// construction so that the whole offset range fits the signed range.
#[derive(Debug, Clone, Copy)]
pub struct NLayout<const N: usize> {
    shape: NShape<N>,
    strides: NStrides<N>,
}

impl<const N: usize> NLayout<N> {
    /// The validity of the layout: the span between its minimum and
    /// maximum reachable offsets fits the signed range.  `try_new`
    /// establishes this and every operation preserves it.
    pub closed spec fn wf(&self) -> bool {
        spec_span(self.shape.view(), self.strides.view()) <= isize::MAX as int
    }

    /// The axis lengths.
    pub closed spec fn sh(&self) -> Seq<usize> {
        self.shape.view()
    }

    /// The per-axis steps.
    pub closed spec fn st(&self) -> Seq<isize> {
        self.strides.view()
    }

    /// Both components carry exactly `N` axes.
    pub proof fn lemma_axes_len(&self)
        ensures
            self.sh().len() == N,
            self.st().len() == N,
    {
    }

    /// Pair a shape with strides, validating that the offset range they
    /// imply fits the signed range; fails with `ShapeOverflow` otherwise.
    /// A zero-length axis with an extreme stride is rejected here like any
    /// other overflowing pair, even though the element count is zero.
    pub fn try_new(shape: NShape<N>, strides: NStrides<N>) -> (r: Result<Self, ShapeStrideError>)
        ensures
            r is Ok <==> spec_span(shape.view(), strides.view()) <= isize::MAX as int,
            r matches Ok(l) ==> l.wf() && l.sh() == shape.view() && l.st() == strides.view(),
            r is Err ==> r == Err::<Self, ShapeStrideError>(ShapeStrideError::ShapeOverflow),
    {
        match offset_range_checked(shape.as_slice(), strides.as_slice()) {
            Some(_) => Ok(NLayout { shape, strides }),
            None => Err(ShapeStrideError::ShapeOverflow),
        }
    }

    /// The shape.
    pub fn shape(&self) -> (r: &NShape<N>)
        ensures
            r.view() == self.sh(),
    {
        &self.shape
    }

    /// The strides, exactly as stored.
    pub fn raw_strides(&self) -> (r: &NStrides<N>)
        ensures
            r.view() == self.st(),
    {
        &self.strides
    }

    /// The distance in elements between the minimum and maximum reachable
    /// offsets; it fits the signed range by construction.
    pub fn offset_range(&self) -> (r: usize)
        requires
            self.wf(),
        ensures
            r as int == spec_span(self.sh(), self.st()),
    {
        proof {
            crate::offset::lemma_off_signs(self.sh(), self.st(), N as int);
            assert(self.sh().len() == N);
        }
        match offset_range_checked(self.shape.as_slice(), self.strides.as_slice()) {
            Some(span) => span,
            None => vstd::pervasive::unreached(),
        }
    }

    /// The layout flags: contiguity and traversal preference.
    ///
    /// A pure function of the shape and strides; classifying an unchanged
    /// layout again returns identical flags.
    pub fn layout(&self) -> (r: LayoutBitset)
        ensures
            r == spec_classify(self.sh(), self.st()),
    {
        classify(self.shape.as_slice(), self.strides.as_slice())
    }

    /// The signed element offset of a full multidimensional index: the
    /// dot product of the coordinates with the strides.
    pub fn index(&self, index: &NShape<N>) -> (r: isize)
        requires
            self.wf(),
            forall|i: int| 0 <= i < N ==> index.view()[i] < self.sh()[i],
        ensures
            r as int == dot(index.view(), self.st(), N as int),
            min_off(self.sh(), self.st(), N as int) <= r as int <= max_off(
                self.sh(),
                self.st(),
                N as int,
            ),
    {
        offset_of(index.as_slice(), self.shape.as_slice(), self.strides.as_slice())
    }

    /// The signed element offset of a full multidimensional index, with
    /// the coordinates validated first: a coordinate at or beyond its
    /// axis length fails with `OutOfBounds` naming the leftmost such axis.
    pub fn try_index(&self, index: &NShape<N>) -> (r: Result<isize, ShapeStrideError>)
        requires
            self.wf(),
        ensures
            (r is Ok) == (forall|i: int| 0 <= i < N ==> index.view()[i] < self.sh()[i]),
            r matches Ok(o) ==> o as int == dot(index.view(), self.st(), N as int),
            r matches Err(e) ==> (e matches ShapeStrideError::OutOfBounds(a) && a < N
                && index.view()[a as int] >= self.sh()[a as int] && forall|i: int|
                0 <= i < a ==> index.view()[i] < self.sh()[i]),
    {
        let mut i: usize = 0;
        while i < N
            invariant
                0 <= i <= N,
                self.wf(),
                forall|j: int| 0 <= j < i ==> index.view()[j] < self.sh()[j],
            decreases N - i,
        {
            proof {
                self.lemma_axes_len();
            }
            if *index.get(i) >= *self.shape.get(i) {
                return Err(ShapeStrideError::OutOfBounds(i));
            }
            i += 1;
        }
        Ok(self.index(index))
    }

    /// The offset of linear position `pos` when traversal moves across
    /// axes from the left: the first axis varies fastest.
    pub fn index_linear_left(&self, pos: usize) -> (r: isize)
        requires
            self.wf(),
            forall|i: int| 0 <= i < N ==> self.sh()[i] > 0,
            pos < prod(self.sh()),
        ensures
            r as int == dot(unravel_f(self.sh(), pos as int), self.st(), N as int),
    {
        crate::offset::index_linear_left(self.shape.as_slice(), self.strides.as_slice(), pos)
    }

    /// The offset of linear position `pos` when traversal moves across
    /// axes from the right: the last axis varies fastest.
    pub fn index_linear_right(&self, pos: usize) -> (r: isize)
        requires
            self.wf(),
            forall|i: int| 0 <= i < N ==> self.sh()[i] > 0,
            pos < prod(self.sh()),
        ensures
            r as int == dot(unravel_c(self.sh(), pos as int), self.st(), N as int),
    {
        crate::offset::index_linear_right(self.shape.as_slice(), self.strides.as_slice(), pos)
    }

    /// The offset of linear position `pos` in whichever traversal order
    /// the layout classification favours: column-major when the flags lean
    /// that way, row-major otherwise.
    pub fn index_memory_order(&self, pos: usize) -> (r: isize)
        requires
            self.wf(),
            forall|i: int| 0 <= i < N ==> self.sh()[i] > 0,
            pos < prod(self.sh()),
        ensures
            r as int == (if spec_classify(self.sh(), self.st()).spec_tendency() < 0 {
                dot(unravel_f(self.sh(), pos as int), self.st(), N as int)
            } else {
                dot(unravel_c(self.sh(), pos as int), self.st(), N as int)
            }),
    {
        let bits = self.layout();
        if bits.tendency() < 0 {
            self.index_linear_left(pos)
        } else {
            self.index_linear_right(pos)
        }
    }

    /// The first multidimensional index in traversal order: all zeros when
    /// the layout holds at least one element, no value otherwise.
    pub fn first_index(&self) -> (r: Option<Vec<usize>>)
        ensures
            (r is Some) == (forall|i: int| 0 <= i < N ==> self.sh()[i] > 0),
            r matches Some(v) ==> v@ =~= Seq::new(N as nat, |i: int| 0usize),
    {
        proof {
            assert(self.sh().len() == N);
        }
        crate::offset::first_index(self.shape.as_slice())
    }

    /// The next multidimensional index after `index` in row-major
    /// traversal order, or no value when `index` is the last one.
    pub fn next_for(&self, index: &NShape<N>) -> (r: Option<Vec<usize>>)
        requires
            forall|i: int| 0 <= i < N ==> index.view()[i] < self.sh()[i],
        ensures
            match r {
                Some(v) => spec_next_for(self.sh(), index.view()) == Some(v@),
                None => spec_next_for(self.sh(), index.view()) is None,
            },
    {
        next_for(self.shape.as_slice(), index.as_slice())
    }
}

impl<const N: usize> Dimensioned for NLayout<N> {
    open spec fn rank(&self) -> nat {
        N as nat
    }

    open spec fn inv(&self) -> bool {
        self.wf()
    }

    fn dimality(&self) -> (d: Dimensionality) {
        if N <= MAX_FIXED_RANK {
            Dimensionality::NDim(N)
        } else {
            Dimensionality::DDyn
        }
    }

    fn ndim(&self) -> (n: usize) {
        N
    }
}

impl<const N: usize> Layout for NLayout<N> {
    open spec fn shape_view(&self) -> Seq<usize> {
        self.sh()
    }

    proof fn shape_rank_matches(&self) {
    }

    fn shape_dims(&self) -> (r: Vec<usize>) {
        vstd::slice::slice_to_vec(self.shape.as_slice())
    }

    fn size_checked(&self) -> (r: Option<usize>) {
        size_checked(self.shape.as_slice())
    }
}

impl<const N: usize> Strided for NLayout<N> {
    open spec fn strides_view(&self) -> Seq<isize> {
        self.st()
    }

    proof fn strides_rank_matches(&self) {
    }

    fn strides_vec(&self) -> (r: Vec<isize>) {
        vstd::slice::slice_to_vec(self.strides.as_slice())
    }
}


/// A dynamic-rank layout: a shape and strides whose rank is only known at
/// run time, validated at construction like the fixed-rank kind.
#[derive(Debug, Clone)]
pub struct DLayout {
    shape: DShape,
    strides: DStrides,
}

impl DLayout {
    /// The validity of the layout: the components are well formed, carry
    /// one stride per axis, and the span between the minimum and maximum
    /// reachable offsets fits the signed range.
    pub closed spec fn wf(&self) -> bool {
        &&& DynAxesRepr::inv(&self.shape)
        &&& DynAxesRepr::inv(&self.strides)
        &&& DynAxesRepr::view(&self.shape).len() == DynAxesRepr::view(&self.strides).len()
        &&& spec_span(DynAxesRepr::view(&self.shape), DynAxesRepr::view(&self.strides))
            <= isize::MAX as int
    }

    /// The axis lengths.
    pub closed spec fn sh(&self) -> Seq<usize> {
        DynAxesRepr::view(&self.shape)
    }

    /// The per-axis steps.
    pub closed spec fn st(&self) -> Seq<isize> {
        DynAxesRepr::view(&self.strides)
    }

    /// Pair a dynamic shape with strides; fails with `BadDimality` when
    /// the ranks differ and with `ShapeOverflow` when the offset range
    /// they imply leaves the signed range.
    pub fn try_new(shape: DShape, strides: DStrides) -> (r: Result<Self, ShapeStrideError>)
        requires
            DynAxesRepr::inv(&shape),
            DynAxesRepr::inv(&strides),
        ensures
            r is Ok <==> (DynAxesRepr::view(&shape).len() == DynAxesRepr::view(&strides).len()
                && spec_span(DynAxesRepr::view(&shape), DynAxesRepr::view(&strides))
                <= isize::MAX as int),
            r matches Ok(l) ==> l.wf() && l.sh() == DynAxesRepr::view(&shape) && l.st()
                == DynAxesRepr::view(&strides),
            DynAxesRepr::view(&shape).len() != DynAxesRepr::view(&strides).len() ==> r
                == Err::<Self, ShapeStrideError>(ShapeStrideError::BadDimality(
                DynAxesRepr::view(&strides).len() as usize,
            )),
            DynAxesRepr::view(&shape).len() == DynAxesRepr::view(&strides).len()
                && spec_span(DynAxesRepr::view(&shape), DynAxesRepr::view(&strides))
                > isize::MAX as int ==> r == Err::<Self, ShapeStrideError>(
                ShapeStrideError::ShapeOverflow,
            ),
    {
        if shape.ndim() != strides.ndim() {
            return Err(ShapeStrideError::BadDimality(strides.ndim()));
        }
        match offset_range_checked(shape.as_slice(), strides.as_slice()) {
            Some(_) => Ok(DLayout { shape, strides }),
            None => Err(ShapeStrideError::ShapeOverflow),
        }
    }

    /// The shape.
    pub fn shape(&self) -> (r: &DShape)
        ensures
            DynAxesRepr::view(r) == self.sh(),
    {
        &self.shape
    }

    /// The strides, exactly as stored.
    pub fn raw_strides(&self) -> (r: &DStrides)
        ensures
            DynAxesRepr::view(r) == self.st(),
    {
        &self.strides
    }

    /// The distance in elements between the minimum and maximum reachable
    /// offsets; it fits the signed range by construction.
    pub fn offset_range(&self) -> (r: usize)
        requires
            self.wf(),
        ensures
            r as int == spec_span(self.sh(), self.st()),
    {
        proof {
            crate::offset::lemma_off_signs(self.sh(), self.st(), self.sh().len() as int);
        }
        match offset_range_checked(self.shape.as_slice(), self.strides.as_slice()) {
            Some(span) => span,
            None => vstd::pervasive::unreached(),
        }
    }

    /// The layout flags: contiguity and traversal preference.
    pub fn layout(&self) -> (r: LayoutBitset)
        requires
            self.wf(),
        ensures
            r == spec_classify(self.sh(), self.st()),
    {
        classify(self.shape.as_slice(), self.strides.as_slice())
    }

    /// The signed element offset of a full multidimensional index.
    pub fn index(&self, index: &[usize]) -> (r: isize)
        requires
            self.wf(),
            index@.len() == self.sh().len(),
            forall|i: int| 0 <= i < index@.len() ==> index@[i] < self.sh()[i],
        ensures
            r as int == dot(index@, self.st(), self.sh().len() as int),
    {
        offset_of(index, self.shape.as_slice(), self.strides.as_slice())
    }

    /// The offset of linear position `pos` when the last axis varies
    /// fastest.
    pub fn index_linear_right(&self, pos: usize) -> (r: isize)
        requires
            self.wf(),
            forall|i: int| 0 <= i < self.sh().len() ==> self.sh()[i] > 0,
            pos < prod(self.sh()),
        ensures
            r as int == dot(unravel_c(self.sh(), pos as int), self.st(), self.sh().len() as int),
    {
        crate::offset::index_linear_right(self.shape.as_slice(), self.strides.as_slice(), pos)
    }

    /// The offset of linear position `pos` when the first axis varies
    /// fastest.
    pub fn index_linear_left(&self, pos: usize) -> (r: isize)
        requires
            self.wf(),
            forall|i: int| 0 <= i < self.sh().len() ==> self.sh()[i] > 0,
            pos < prod(self.sh()),
        ensures
            r as int == dot(unravel_f(self.sh(), pos as int), self.st(), self.sh().len() as int),
    {
        crate::offset::index_linear_left(self.shape.as_slice(), self.strides.as_slice(), pos)
    }
}

impl Dimensioned for DLayout {
    open spec fn rank(&self) -> nat {
        self.sh().len()
    }

    open spec fn inv(&self) -> bool {
        self.wf()
    }

    fn dimality(&self) -> (d: Dimensionality) {
        Dimensionality::DDyn
    }

    fn ndim(&self) -> (n: usize) {
        self.shape.ndim()
    }
}

impl Layout for DLayout {
    open spec fn shape_view(&self) -> Seq<usize> {
        self.sh()
    }

    proof fn shape_rank_matches(&self) {
    }

    fn shape_dims(&self) -> (r: Vec<usize>) {
        vstd::slice::slice_to_vec(self.shape.as_slice())
    }

    fn size_checked(&self) -> (r: Option<usize>) {
        size_checked(self.shape.as_slice())
    }
}

impl Strided for DLayout {
    open spec fn strides_view(&self) -> Seq<isize> {
        self.st()
    }

    proof fn strides_rank_matches(&self) {
    }

    fn strides_vec(&self) -> (r: Vec<isize>) {
        vstd::slice::slice_to_vec(self.strides.as_slice())
    }
}

} // verus!
