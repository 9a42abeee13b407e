//! An iterator-style walker over the axes of a layout, yielding each
//! axis's identity, length and stride.

use vstd::prelude::*;

use crate::layout::Strided;

verus! {

/// Description of one axis: its position, its length and its stride.
#[derive(Debug, Clone, Copy, PartialEq, Eq, Structural)]
pub struct AxisDescription {
    /// Axis identifier (position).
    pub axis: usize,
    /// Length of the axis, in elements.
    pub len: usize,
    /// Stride of the axis, in elements.
    pub stride: isize,
}

/// A walker over the axes of a layout, in ascending order by default and
/// traversable from the back as well.
#[derive(Debug, Clone)]
pub struct Axes {
    shape: Vec<usize>,
    strides: Vec<isize>,
    start: usize,
    end: usize,
}

impl Axes {
    /// The axis lengths the walker was built over.
    pub closed spec fn sh(&self) -> Seq<usize> {
        self.shape@
    }

    /// The strides the walker was built over.
    pub closed spec fn st(&self) -> Seq<isize> {
        self.strides@
    }

    /// The position of the next axis yielded from the front.
    pub closed spec fn front(&self) -> int {
        self.start as int
    }

    /// One past the position of the next axis yielded from the back.
    pub closed spec fn back(&self) -> int {
        self.end as int
    }

    /// The walker's structural invariant.
    pub closed spec fn inv(&self) -> bool {
        self.shape@.len() == self.strides@.len() && 0 <= self.start <= self.end
            <= self.shape@.len()
    }

    /// The descriptor of axis `i`.
    pub open spec fn descr(&self, i: int) -> AxisDescription {
        AxisDescription { axis: i as usize, len: self.sh()[i], stride: self.st()[i] }
    }

    /// How many axes remain.
    pub fn len(&self) -> (r: usize)
        requires
            self.inv(),
        ensures
            r == self.back() - self.front(),
    {
        self.end - self.start
    }

    /// The next axis from the front, or no value when the walker is done.
    pub fn next(&mut self) -> (r: Option<AxisDescription>)
        requires
            old(self).inv(),
        ensures
            final(self).inv(),
            final(self).sh() == old(self).sh() && final(self).st() == old(self).st(),
            final(self).back() == old(self).back(),
            old(self).front() < old(self).back() ==> r == Some(old(self).descr(
                old(self).front(),
            )) && final(self).front() == old(self).front() + 1,
            old(self).front() >= old(self).back() ==> r is None && final(self).front() == old(
                self,
            ).front(),
    {
        if self.start < self.end {
            let i = self.start;
            self.start = i + 1;
            Some(AxisDescription { axis: i, len: self.shape[i], stride: self.strides[i] })
        } else {
            None
        }
    }

    /// The next axis from the back, or no value when the walker is done.
    pub fn next_back(&mut self) -> (r: Option<AxisDescription>)
        requires
            old(self).inv(),
        ensures
            final(self).inv(),
            final(self).sh() == old(self).sh() && final(self).st() == old(self).st(),
            final(self).front() == old(self).front(),
            old(self).front() < old(self).back() ==> r == Some(old(self).descr(
                old(self).back() - 1,
            )) && final(self).back() == old(self).back() - 1,
            old(self).front() >= old(self).back() ==> r is None && final(self).back() == old(
                self,
            ).back(),
    {
        if self.start < self.end {
            let i = self.end - 1;
            self.end = i;
            Some(AxisDescription { axis: i, len: self.shape[i], stride: self.strides[i] })
        } else {
            None
        }
    }

    /// The remaining axis of greatest length, folded without materializing
    /// the descriptors; the first such axis wins ties.  No value when the
    /// walker is done.
    pub fn max_len_axis(&self) -> (r: Option<AxisDescription>)
        requires
            self.inv(),
        ensures
            (r is Some) == (self.front() < self.back()),
            r matches Some(d) ==> self.front() <= d.axis < self.back() && d == self.descr(
                d.axis as int,
            ) && (forall|j: int| self.front() <= j < self.back() ==> self.sh()[j] <= d.len) && (
            forall|j: int| self.front() <= j < d.axis ==> self.sh()[j] < d.len),
    {
        if self.start >= self.end {
            return None;
        }
        let mut best: usize = self.start;
        let mut i: usize = self.start + 1;
        while i < self.end
            invariant
                self.inv(),
                self.front() <= best < i <= self.back(),
                forall|j: int| self.front() <= j < i ==> self.sh()[j] <= self.sh()[best as int],
                forall|j: int| self.front() <= j < best ==> self.sh()[j] < self.sh()[best as int],
            decreases self.back() - i,
        {
            if self.shape[i] > self.shape[best] {
                best = i;
            }
            i += 1;
        }
        Some(
            AxisDescription {
                axis: best,
                len: self.shape[best],
                stride: self.strides[best],
            },
        )
    }
}

/// Create a walker over the axes of a layout.
pub fn axes_of<L: Strided>(layout: &L) -> (r: Axes)
    requires
        layout.inv(),
    ensures
        r.inv(),
        r.sh() == layout.shape_view(),
        r.st() == layout.strides_view(),
        r.front() == 0,
        r.back() == layout.shape_view().len(),
{
    let shape = layout.shape_dims();
    let strides = layout.strides_vec();
    proof {
        layout.shape_rank_matches();
        layout.strides_rank_matches();
    }
    let end = shape.len();
    Axes { shape, strides, start: 0, end }
}

} // verus!
