//! A compact flag set describing the memory arrangement of a layout.

use vstd::prelude::*;

verus! {

/// Memory layout description: a small set of orthogonal boolean flags.
///
/// The flags say whether a shape/strides pair is exactly row-major
/// contiguous (`CORDER`), exactly column-major contiguous (`FORDER`), or
/// merely prefers one of those traversal orders (`CPREFER`, `FPREFER`).
/// The value is derived from a layout and never stored independently;
/// consumers treat it purely as a fast-path hint.
#[derive(Debug, Clone, Copy, PartialEq, Eq, Structural)]
pub struct LayoutBitset {
    pub corder: bool,
    pub forder: bool,
    pub cprefer: bool,
    pub fprefer: bool,
}

impl LayoutBitset {
    /// Mask selecting the "exactly row-major contiguous" flag.
    pub const CORDER: u32 = 0b0001;

    /// Mask selecting the "exactly column-major contiguous" flag.
    pub const FORDER: u32 = 0b0010;

    /// Mask selecting the "prefers row-major traversal" flag.
    pub const CPREFER: u32 = 0b0100;

    /// Mask selecting the "prefers column-major traversal" flag.
    pub const FPREFER: u32 = 0b1000;

    /// The "exactly row-major contiguous" flag.
    pub open spec fn is_corder(self) -> bool {
        self.corder
    }

    /// The "exactly column-major contiguous" flag.
    pub open spec fn is_forder(self) -> bool {
        self.forder
    }

    /// The "prefers row-major traversal" flag.
    pub open spec fn is_cprefer(self) -> bool {
        self.cprefer
    }

    /// The "prefers column-major traversal" flag.
    pub open spec fn is_fprefer(self) -> bool {
        self.fprefer
    }

    /// Whether any flag selected by `mask` is set.
    pub open spec fn spec_is(self, mask: u32) -> bool {
        ||| (mask & 0b0001u32 != 0 && self.corder)
        ||| (mask & 0b0010u32 != 0 && self.forder)
        ||| (mask & 0b0100u32 != 0 && self.cprefer)
        ||| (mask & 0b1000u32 != 0 && self.fprefer)
    }

    /// Test whether any flag selected by `mask` is set.
    #[inline(always)]
    pub fn is(self, mask: u32) -> (r: bool)
        ensures
            r == self.spec_is(mask),
    {
        (mask & 0b0001u32 != 0 && self.corder)
            || (mask & 0b0010u32 != 0 && self.forder)
            || (mask & 0b0100u32 != 0 && self.cprefer)
            || (mask & 0b1000u32 != 0 && self.fprefer)
    }

    /// Return the layout common to both inputs: each flag is set iff it is
    /// set in both.
    #[inline(always)]
    pub fn intersect(self, other: LayoutBitset) -> (r: LayoutBitset)
        ensures
            r.is_corder() == (self.is_corder() && other.is_corder()),
            r.is_forder() == (self.is_forder() && other.is_forder()),
            r.is_cprefer() == (self.is_cprefer() && other.is_cprefer()),
            r.is_fprefer() == (self.is_fprefer() && other.is_fprefer()),
    {
        LayoutBitset {
            corder: self.corder && other.corder,
            forder: self.forder && other.forder,
            cprefer: self.cprefer && other.cprefer,
            fprefer: self.fprefer && other.fprefer,
        }
    }

    /// Return a layout that simultaneously "is" what both of the inputs are:
    /// each flag is set iff it is set in either.
    #[inline(always)]
    pub fn also(self, other: LayoutBitset) -> (r: LayoutBitset)
        ensures
            r.is_corder() == (self.is_corder() || other.is_corder()),
            r.is_forder() == (self.is_forder() || other.is_forder()),
            r.is_cprefer() == (self.is_cprefer() || other.is_cprefer()),
            r.is_fprefer() == (self.is_fprefer() || other.is_fprefer()),
    {
        LayoutBitset {
            corder: self.corder || other.corder,
            forder: self.forder || other.forder,
            cprefer: self.cprefer || other.cprefer,
            fprefer: self.fprefer || other.fprefer,
        }
    }

    /// The classification of an effectively one-dimensional layout, which
    /// satisfies both orders and both preferences at once.
    #[inline(always)]
    pub fn one_dimensional() -> (r: LayoutBitset)
        ensures
            r.is_corder() && r.is_forder() && r.is_cprefer() && r.is_fprefer(),
    {
        LayoutBitset::c().also(LayoutBitset::f())
    }

    /// Exactly row-major contiguous, hence also row-major preferred.
    #[inline(always)]
    pub fn c() -> (r: LayoutBitset)
        ensures
            r.is_corder() && r.is_cprefer(),
            !r.is_forder() && !r.is_fprefer(),
    {
        LayoutBitset { corder: true, forder: false, cprefer: true, fprefer: false }
    }

    /// Exactly column-major contiguous, hence also column-major preferred.
    #[inline(always)]
    pub fn f() -> (r: LayoutBitset)
        ensures
            r.is_forder() && r.is_fprefer(),
            !r.is_corder() && !r.is_cprefer(),
    {
        LayoutBitset { corder: false, forder: true, cprefer: false, fprefer: true }
    }

    /// Prefers row-major traversal without being contiguous in either order.
    #[inline(always)]
    pub fn cpref() -> (r: LayoutBitset)
        ensures
            r.is_cprefer(),
            !r.is_corder() && !r.is_forder() && !r.is_fprefer(),
    {
        LayoutBitset { corder: false, forder: false, cprefer: true, fprefer: false }
    }

    /// Prefers column-major traversal without being contiguous in either order.
    #[inline(always)]
    pub fn fpref() -> (r: LayoutBitset)
        ensures
            r.is_fprefer(),
            !r.is_corder() && !r.is_forder() && !r.is_cprefer(),
    {
        LayoutBitset { corder: false, forder: false, cprefer: false, fprefer: true }
    }

    /// No particular layout: all flags clear.
    #[inline(always)]
    pub fn none() -> (r: LayoutBitset)
        ensures
            !r.is_corder() && !r.is_forder() && !r.is_cprefer() && !r.is_fprefer(),
    {
        LayoutBitset { corder: false, forder: false, cprefer: false, fprefer: false }
    }

    /// The score `tendency` returns: one point for each row-major flag that
    /// is set, minus one point for each column-major flag that is set.
    pub open spec fn spec_tendency(self) -> int {
        (if self.corder { 1int } else { 0int }) - (if self.forder { 1int } else { 0int })
            + (if self.cprefer { 1int } else { 0int }) - (if self.fprefer { 1int } else { 0int })
    }

    /// A simple score, positive when the layout leans row-major and negative
    /// when it leans column-major; a heuristic for choosing iteration order.
    #[inline]
    pub fn tendency(self) -> (r: i32)
        ensures
            r as int == self.spec_tendency(),
            -2 <= r <= 2,
    {
        let c: i32 = if self.corder { 1 } else { 0 };
        let f: i32 = if self.forder { 1 } else { 0 };
        let cp: i32 = if self.cprefer { 1 } else { 0 };
        let fp: i32 = if self.fprefer { 1 } else { 0 };
        c - f + cp - fp
    }
}

} // verus!
