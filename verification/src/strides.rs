//! Canonical stride construction and stride-order queries.

use vstd::prelude::*;

use crate::dimensionality::Dimensioned;
use crate::dyn_repr::{DStrides, DynAxesRepr};
use crate::error::ShapeStrideError;
use crate::n_repr::{array_from_slice, NStrides, ShapeStrideN};
use crate::shape::{lemma_prod_nonneg, lemma_prod_take_step, prod};

verus! {

/// The row-major (C-style) default stride of axis `i`: the product of all
/// axis lengths to the right of `i`.
pub open spec fn c_stride(s: Seq<usize>, i: int) -> int {
    prod(s.skip(i + 1))
}

/// The column-major (F-style) default stride of axis `i`: the product of all
/// axis lengths to the left of `i`.
pub open spec fn f_stride(s: Seq<usize>, i: int) -> int {
    prod(s.take(i))
}

/// Whether every row-major default stride of `s` fits the signed range.
pub open spec fn c_strides_ok(s: Seq<usize>) -> bool {
    forall|i: int| 0 <= i < s.len() ==> c_stride(s, i) <= isize::MAX as int
}

/// Whether every column-major default stride of `s` fits the signed range.
pub open spec fn f_strides_ok(s: Seq<usize>) -> bool {
    forall|i: int| 0 <= i < s.len() ==> f_stride(s, i) <= isize::MAX as int
}

/// The row-major default strides of `s`, assuming they fit the signed range.
pub open spec fn spec_c_strides(s: Seq<usize>) -> Seq<isize> {
    Seq::new(s.len(), |i: int| c_stride(s, i) as isize)
}

/// The column-major default strides of `s`, assuming they fit the signed range.
pub open spec fn spec_f_strides(s: Seq<usize>) -> Seq<isize> {
    Seq::new(s.len(), |i: int| f_stride(s, i) as isize)
}

/// A product over a suffix peels its first factor off the front.
pub proof fn lemma_prod_skip_step(s: Seq<usize>, i: int)
    requires
        0 <= i < s.len(),
    ensures
        prod(s.skip(i)) == (s[i] as int) * prod(s.skip(i + 1)),
{
    lemma_prod_first(s.skip(i));
    assert(s.skip(i).subrange(1, s.skip(i).len() as int) =~= s.skip(i + 1));
}

/// A product peels its first factor off the front.
proof fn lemma_prod_first(t: Seq<usize>)
    requires
        t.len() >= 1,
    ensures
        prod(t) == (t[0] as int) * prod(t.subrange(1, t.len() as int)),
    decreases t.len(),
{
    if t.len() == 1 {
        assert(t.drop_last() =~= Seq::<usize>::empty());
        assert(t.subrange(1, 1) =~= Seq::<usize>::empty());
    } else {
        let u = t.drop_last();
        lemma_prod_first(u);
        assert(t.subrange(1, t.len() as int).drop_last() =~= u.subrange(1, u.len() as int));
        assert(t.subrange(1, t.len() as int).last() == t.last());
        assert((t[0] as int) * prod(u.subrange(1, u.len() as int)) * (t.last() as int) == (t[0]
            as int) * (prod(u.subrange(1, u.len() as int)) * (t.last() as int)))
            by (nonlinear_arith);
    }
}

/// Construct the row-major (C-style) default strides of a shape.
///
/// `strides[i]` is the product of `shape[i + 1..]`; the construction fails
/// with `ShapeOverflow` exactly when one of those products exceeds the
/// maximum signed offset.
pub fn c_strides(shape: &[usize]) -> (r: Result<Vec<isize>, ShapeStrideError>)
    ensures
        r is Ok <==> c_strides_ok(shape@),
        r matches Ok(v) ==> v@ == spec_c_strides(shape@),
        r is Err ==> r == Err::<Vec<isize>, ShapeStrideError>(ShapeStrideError::ShapeOverflow),
{
    let n = shape.len();
    let mut st: Vec<isize> = vec![1isize; n];
    let mut acc: isize = 1;
    let mut i: usize = n;
    proof {
        assert(shape@.skip(n as int) =~= Seq::<usize>::empty());
    }
    while i > 0
        invariant
            0 <= i <= n,
            n == shape@.len(),
            st@.len() == n,
            i == 0 || acc as int == prod(shape@.skip(i as int)),
            0 <= acc,
            forall|j: int| i <= j < n ==> st@[j] as int == c_stride(shape@, j),
            forall|j: int| i <= j < n ==> c_stride(shape@, j) <= isize::MAX as int,
        decreases i,
    {
        i -= 1;
        st[i] = acc;
        if i > 0 {
            proof {
                lemma_prod_skip_step(shape@, i as int);
                lemma_prod_nonneg(shape@.skip(i as int + 1));
            }
            if shape[i] > (isize::MAX as usize) {
                if acc != 0 {
                    proof {
                        assert((shape@[i as int] as int) * (acc as int) > isize::MAX as int)
                            by (nonlinear_arith)
                            requires
                                shape@[i as int] as int > isize::MAX as int,
                                acc as int >= 1,
                        ;
                        assert(c_stride(shape@, i as int - 1) > isize::MAX as int);
                    }
                    return Err(ShapeStrideError::ShapeOverflow);
                }
                proof {
                    assert((shape@[i as int] as int) * 0int == 0int) by (nonlinear_arith);
                }
            } else {
                match acc.checked_mul(shape[i] as isize) {
                    Some(next) => {
                        proof {
                            assert((acc as int) * (shape@[i as int] as int) == (shape@[i as int]
                                as int) * (acc as int)) by (nonlinear_arith);
                        }
                        acc = next;
                    },
                    None => {
                        proof {
                            assert((acc as int) * (shape@[i as int] as int) == (shape@[i as int]
                                as int) * (acc as int)) by (nonlinear_arith);
                            lemma_prod_nonneg(shape@.skip(i as int));
                            assert(c_stride(shape@, i as int - 1) > isize::MAX as int);
                        }
                        return Err(ShapeStrideError::ShapeOverflow);
                    },
                }
            }
        }
    }
    proof {
        assert(st@ =~= spec_c_strides(shape@));
    }
    Ok(st)
}

/// Construct the column-major (F-style) default strides of a shape.
///
/// `strides[i]` is the product of `shape[..i]`; the construction fails with
/// `ShapeOverflow` exactly when one of those products exceeds the maximum
/// signed offset.
pub fn f_strides(shape: &[usize]) -> (r: Result<Vec<isize>, ShapeStrideError>)
    ensures
        r is Ok <==> f_strides_ok(shape@),
        r matches Ok(v) ==> v@ == spec_f_strides(shape@),
        r is Err ==> r == Err::<Vec<isize>, ShapeStrideError>(ShapeStrideError::ShapeOverflow),
{
    let n = shape.len();
    let mut st: Vec<isize> = vec![1isize; n];
    let mut acc: isize = 1;
    let mut i: usize = 0;
    proof {
        assert(shape@.take(0) =~= Seq::<usize>::empty());
    }
    while i < n
        invariant
            0 <= i <= n,
            n == shape@.len(),
            st@.len() == n,
            i == n || acc as int == prod(shape@.take(i as int)),
            0 <= acc,
            forall|j: int| 0 <= j < i ==> st@[j] as int == f_stride(shape@, j),
            forall|j: int| 0 <= j < i ==> f_stride(shape@, j) <= isize::MAX as int,
        decreases n - i,
    {
        st[i] = acc;
        if i + 1 < n {
            proof {
                lemma_prod_take_step(shape@, i as int);
                lemma_prod_nonneg(shape@.take(i as int));
            }
            if shape[i] > (isize::MAX as usize) {
                if acc != 0 {
                    proof {
                        assert((acc as int) * (shape@[i as int] as int) > isize::MAX as int)
                            by (nonlinear_arith)
                            requires
                                shape@[i as int] as int > isize::MAX as int,
                                acc as int >= 1,
                        ;
                        assert(f_stride(shape@, i as int + 1) > isize::MAX as int);
                    }
                    return Err(ShapeStrideError::ShapeOverflow);
                }
                proof {
                    assert(0int * (shape@[i as int] as int) == 0int) by (nonlinear_arith);
                }
            } else {
                match acc.checked_mul(shape[i] as isize) {
                    Some(next) => {
                        acc = next;
                    },
                    None => {
                        proof {
                            lemma_prod_nonneg(shape@.take(i as int + 1));
                            assert(f_stride(shape@, i as int + 1) > isize::MAX as int);
                        }
                        return Err(ShapeStrideError::ShapeOverflow);
                    },
                }
            }
        }
        i += 1;
    }
    proof {
        assert(st@ =~= spec_f_strides(shape@));
    }
    Ok(st)
}

/// Whether axis data at one position is a tie for the ordering queries.
///
/// An axis of length at most one holds no second element and an axis of
/// stride zero never moves, so neither can contradict a traversal order:
/// such axes satisfy both orders whatever their stride values are.
pub open spec fn order_tie(len: usize, st: isize) -> bool {
    len <= 1 || st == 0
}

/// Whether the strides are ordered as a row-major traversal has them:
/// ignoring stride-zero ties, each stride is at least every later one.
pub open spec fn spec_is_c_order(st: Seq<isize>) -> bool {
    forall|i: int, j: int|
        #![trigger st[i], st[j]]
        0 <= i < j < st.len() && st[i] != 0 && st[j] != 0 ==> st[i] >= st[j]
}

/// Whether the strides are ordered as a column-major traversal has them:
/// ignoring stride-zero ties, each stride is at most every later one.
pub open spec fn spec_is_f_order(st: Seq<isize>) -> bool {
    forall|i: int, j: int|
        #![trigger st[i], st[j]]
        0 <= i < j < st.len() && st[i] != 0 && st[j] != 0 ==> st[i] <= st[j]
}

/// The shape-aware row-major ordering: axes of length at most one are
/// ties as well, since they never contribute a second element.
pub open spec fn spec_is_c_order_for(sh: Seq<usize>, st: Seq<isize>) -> bool {
    forall|i: int, j: int|
        #![trigger st[i], st[j]]
        0 <= i < j < st.len() && !order_tie(sh[i], st[i]) && !order_tie(sh[j], st[j])
            ==> st[i] >= st[j]
}

/// The shape-aware column-major ordering, the mirror image.
pub open spec fn spec_is_f_order_for(sh: Seq<usize>, st: Seq<isize>) -> bool {
    forall|i: int, j: int|
        #![trigger st[i], st[j]]
        0 <= i < j < st.len() && !order_tie(sh[i], st[i]) && !order_tie(sh[j], st[j])
            ==> st[i] <= st[j]
}

/// Whether the strides are sorted in row-major fashion, stride-zero axes
/// counting as ties that satisfy both orders.
pub fn is_c_order(strides: &[isize]) -> (r: bool)
    ensures
        r == spec_is_c_order(strides@),
{
    let n = strides.len();
    let ghost st = strides@;
    let mut have_active = false;
    let mut last: isize = 0;
    let ghost mut last_i: int = 0;
    let mut i: usize = 0;
    while i < n
        invariant
            0 <= i <= n,
            n == st.len(),
            st == strides@,
            forall|p: int, q: int|
                #![trigger st[p], st[q]]
                0 <= p < q < i && st[p] != 0 && st[q] != 0 ==> st[p] >= st[q],
            !have_active ==> forall|p: int| 0 <= p < i ==> st[p] == 0,
            have_active ==> 0 <= last_i < i && st[last_i] == last && last != 0,
            have_active ==> forall|p: int| 0 <= p < i && st[p] != 0 ==> st[p] >= last,
        decreases n - i,
    {
        let s = strides[i];
        if s != 0 {
            if have_active && last < s {
                proof {
                    assert(0 <= last_i < i < n && st[last_i] != 0 && st[i as int] != 0
                        && st[last_i] < st[i as int]);
                }
                return false;
            }
            have_active = true;
            last = s;
            proof {
                last_i = i as int;
            }
        }
        i += 1;
    }
    true
}

/// Whether the strides are sorted in column-major fashion, stride-zero
/// axes counting as ties that satisfy both orders.
pub fn is_f_order(strides: &[isize]) -> (r: bool)
    ensures
        r == spec_is_f_order(strides@),
{
    let n = strides.len();
    let ghost st = strides@;
    let mut have_active = false;
    let mut last: isize = 0;
    let ghost mut last_i: int = 0;
    let mut i: usize = 0;
    while i < n
        invariant
            0 <= i <= n,
            n == st.len(),
            st == strides@,
            forall|p: int, q: int|
                #![trigger st[p], st[q]]
                0 <= p < q < i && st[p] != 0 && st[q] != 0 ==> st[p] <= st[q],
            !have_active ==> forall|p: int| 0 <= p < i ==> st[p] == 0,
            have_active ==> 0 <= last_i < i && st[last_i] == last && last != 0,
            have_active ==> forall|p: int| 0 <= p < i && st[p] != 0 ==> st[p] <= last,
        decreases n - i,
    {
        let s = strides[i];
        if s != 0 {
            if have_active && last > s {
                proof {
                    assert(0 <= last_i < i < n && st[last_i] != 0 && st[i as int] != 0
                        && st[last_i] > st[i as int]);
                }
                return false;
            }
            have_active = true;
            last = s;
            proof {
                last_i = i as int;
            }
        }
        i += 1;
    }
    true
}

/// The shape-aware row-major ordering query: both stride-zero axes and
/// axes of length at most one are ties.
pub fn is_c_order_for(shape: &[usize], strides: &[isize]) -> (r: bool)
    requires
        shape@.len() == strides@.len(),
    ensures
        r == spec_is_c_order_for(shape@, strides@),
{
    let n = strides.len();
    let ghost sh = shape@;
    let ghost st = strides@;
    let mut have_active = false;
    let mut last: isize = 0;
    let ghost mut last_i: int = 0;
    let mut i: usize = 0;
    while i < n
        invariant
            0 <= i <= n,
            n == st.len(),
            n == sh.len(),
            sh == shape@,
            st == strides@,
            forall|p: int, q: int|
                #![trigger st[p], st[q]]
                0 <= p < q < i && !order_tie(sh[p], st[p]) && !order_tie(sh[q], st[q])
                    ==> st[p] >= st[q],
            !have_active ==> forall|p: int| 0 <= p < i ==> order_tie(sh[p], st[p]),
            have_active ==> 0 <= last_i < i && st[last_i] == last && !order_tie(
                sh[last_i],
                st[last_i],
            ),
            have_active ==> forall|p: int|
                0 <= p < i && !order_tie(sh[p], st[p]) ==> st[p] >= last,
        decreases n - i,
    {
        let s = strides[i];
        if shape[i] > 1 && s != 0 {
            if have_active && last < s {
                proof {
                    assert(0 <= last_i < i < n && !order_tie(sh[last_i], st[last_i])
                        && !order_tie(sh[i as int], st[i as int]) && st[last_i] < st[i as int]);
                }
                return false;
            }
            have_active = true;
            last = s;
            proof {
                last_i = i as int;
            }
        }
        i += 1;
    }
    true
}

/// The shape-aware column-major ordering query, the mirror image.
pub fn is_f_order_for(shape: &[usize], strides: &[isize]) -> (r: bool)
    requires
        shape@.len() == strides@.len(),
    ensures
        r == spec_is_f_order_for(shape@, strides@),
{
    let n = strides.len();
    let ghost sh = shape@;
    let ghost st = strides@;
    let mut have_active = false;
    let mut last: isize = 0;
    let ghost mut last_i: int = 0;
    let mut i: usize = 0;
    while i < n
        invariant
            0 <= i <= n,
            n == st.len(),
            n == sh.len(),
            sh == shape@,
            st == strides@,
            forall|p: int, q: int|
                #![trigger st[p], st[q]]
                0 <= p < q < i && !order_tie(sh[p], st[p]) && !order_tie(sh[q], st[q])
                    ==> st[p] <= st[q],
            !have_active ==> forall|p: int| 0 <= p < i ==> order_tie(sh[p], st[p]),
            have_active ==> 0 <= last_i < i && st[last_i] == last && !order_tie(
                sh[last_i],
                st[last_i],
            ),
            have_active ==> forall|p: int|
                0 <= p < i && !order_tie(sh[p], st[p]) ==> st[p] <= last,
        decreases n - i,
    {
        let s = strides[i];
        if shape[i] > 1 && s != 0 {
            if have_active && last > s {
                proof {
                    assert(0 <= last_i < i < n && !order_tie(sh[last_i], st[last_i])
                        && !order_tie(sh[i as int], st[i as int]) && st[last_i] > st[i as int]);
                }
                return false;
            }
            have_active = true;
            last = s;
            proof {
                last_i = i as int;
            }
        }
        i += 1;
    }
    true
}

/// The trait for types that carry the strides of a multidimensional
/// array: an ordered list of per-axis signed steps, measured in elements.
pub trait Strides: Dimensioned + Sized {
    /// The per-axis steps as a mathematical sequence.
    spec fn st_view(&self) -> Seq<isize>;

    /// The stored axis count always matches the rank.
    proof fn rank_matches(&self)
        ensures
            self.st_view().len() == self.rank(),
    ;

    /// The per-axis steps as a vector.
    fn steps(&self) -> (r: Vec<isize>)
        requires
            self.inv(),
        ensures
            r@ == self.st_view(),
    ;

    /// The step of one axis.
    fn stride_at(&self, index: usize) -> (r: isize)
        requires
            self.inv(),
            index < self.st_view().len(),
        ensures
            r == self.st_view()[index as int],
    ;

    /// Whether the steps are ordered as a row-major traversal has them:
    /// ignoring stride-zero ties, non-increasing from left to right.
    fn is_c_order(&self) -> (r: bool)
        requires
            self.inv(),
        ensures
            r == spec_is_c_order(self.st_view()),
    ;

    /// Whether the steps are ordered as a column-major traversal has them:
    /// ignoring stride-zero ties, non-decreasing from left to right.
    fn is_f_order(&self) -> (r: bool)
        requires
            self.inv(),
        ensures
            r == spec_is_f_order(self.st_view()),
    ;

    /// Convert to the dynamic-rank strides representation.
    fn to_dyn(&self) -> (r: DStrides)
        requires
            self.inv(),
        ensures
            DynAxesRepr::inv(&r),
            DynAxesRepr::view(&r) == self.st_view(),
    ;
}

impl Strides for DStrides {
    open spec fn st_view(&self) -> Seq<isize> {
        DynAxesRepr::view(self)
    }

    proof fn rank_matches(&self) {
    }

    fn steps(&self) -> (r: Vec<isize>) {
        vstd::slice::slice_to_vec(self.as_slice())
    }

    fn stride_at(&self, index: usize) -> (r: isize) {
        *self.get(index)
    }

    fn is_c_order(&self) -> (r: bool) {
        is_c_order(self.as_slice())
    }

    fn is_f_order(&self) -> (r: bool) {
        is_f_order(self.as_slice())
    }

    fn to_dyn(&self) -> (r: DStrides) {
        DynAxesRepr::from_slice(self.as_slice(), 0)
    }
}

impl<const N: usize> Strides for NStrides<N> {
    open spec fn st_view(&self) -> Seq<isize> {
        self.view()
    }

    proof fn rank_matches(&self) {
    }

    fn steps(&self) -> (r: Vec<isize>) {
        vstd::slice::slice_to_vec(self.as_slice())
    }

    fn stride_at(&self, index: usize) -> (r: isize) {
        *self.get(index)
    }

    fn is_c_order(&self) -> (r: bool) {
        is_c_order(self.as_slice())
    }

    fn is_f_order(&self) -> (r: bool) {
        is_f_order(self.as_slice())
    }

    fn to_dyn(&self) -> (r: DStrides) {
        DynAxesRepr::from_slice(self.as_slice(), 0)
    }
}

/// Strides with no step fixed at build time: every axis is mutable.
pub trait StridesMut: Strides {
    /// Replace the step of axis `index`; fails with `OutOfBounds` when the
    /// axis does not exist.
    fn try_set_stride(&mut self, index: usize, value: isize) -> (r: Result<
        (),
        ShapeStrideError,
    >)
        requires
            old(self).inv(),
        ensures
            final(self).inv(),
            index < old(self).st_view().len() ==> r is Ok && final(self).st_view() == old(
                self,
            ).st_view().update(index as int, value),
            index >= old(self).st_view().len() ==> r == Err::<(), ShapeStrideError>(
                ShapeStrideError::OutOfBounds(index),
            ) && final(self).st_view() == old(self).st_view(),
    ;
}

impl StridesMut for DStrides {
    fn try_set_stride(&mut self, index: usize, value: isize) -> (r: Result<
        (),
        ShapeStrideError,
    >) {
        self.try_set(index, value)
    }
}

impl<const N: usize> StridesMut for NStrides<N> {
    fn try_set_stride(&mut self, index: usize, value: isize) -> (r: Result<
        (),
        ShapeStrideError,
    >) {
        self.try_set(index, value)
    }
}

/// Construction of the row-major (C-style) default strides of a shape.
pub trait DefaultC: Strides {
    /// Which ranks the representation accepts.
    spec fn accepts_rank(n: nat) -> bool;

    /// Build the row-major default strides of `shape`: axis `i` steps by
    /// the product of the axis lengths to its right.  Fails with
    /// `ShapeOverflow` when a step overflows the signed range, and with
    /// `BadDimality` when the representation cannot hold the rank.
    fn default_c(shape: &[usize]) -> (r: Result<Self, ShapeStrideError>)
        ensures
            r is Ok <==> Self::accepts_rank(shape@.len()) && c_strides_ok(shape@),
            r matches Ok(v) ==> v.inv() && v.st_view() == spec_c_strides(shape@),
    ;
}

/// Construction of the column-major (F-style) default strides of a shape.
pub trait DefaultF: Strides {
    /// Which ranks the representation accepts.
    spec fn accepts_rank(n: nat) -> bool;

    /// Build the column-major default strides of `shape`: axis `i` steps
    /// by the product of the axis lengths to its left.  Fails with
    /// `ShapeOverflow` when a step overflows the signed range, and with
    /// `BadDimality` when the representation cannot hold the rank.
    fn default_f(shape: &[usize]) -> (r: Result<Self, ShapeStrideError>)
        ensures
            r is Ok <==> Self::accepts_rank(shape@.len()) && f_strides_ok(shape@),
            r matches Ok(v) ==> v.inv() && v.st_view() == spec_f_strides(shape@),
    ;
}

impl DefaultC for DStrides {
    open spec fn accepts_rank(n: nat) -> bool {
        true
    }

    fn default_c(shape: &[usize]) -> (r: Result<Self, ShapeStrideError>) {
        match c_strides(shape) {
            Ok(v) => Ok(DynAxesRepr::from_slice(v.as_slice(), 0)),
            Err(e) => Err(e),
        }
    }
}

impl DefaultF for DStrides {
    open spec fn accepts_rank(n: nat) -> bool {
        true
    }

    fn default_f(shape: &[usize]) -> (r: Result<Self, ShapeStrideError>) {
        match f_strides(shape) {
            Ok(v) => Ok(DynAxesRepr::from_slice(v.as_slice(), 0)),
            Err(e) => Err(e),
        }
    }
}

impl<const N: usize> DefaultC for NStrides<N> {
    open spec fn accepts_rank(n: nat) -> bool {
        n == N
    }

    fn default_c(shape: &[usize]) -> (r: Result<Self, ShapeStrideError>) {
        if shape.len() != N {
            return Err(ShapeStrideError::BadDimality(shape.len()));
        }
        match c_strides(shape) {
            Ok(v) => Ok(ShapeStrideN(array_from_slice(v.as_slice(), 0))),
            Err(e) => Err(e),
        }
    }
}

impl<const N: usize> DefaultF for NStrides<N> {
    open spec fn accepts_rank(n: nat) -> bool {
        n == N
    }

    fn default_f(shape: &[usize]) -> (r: Result<Self, ShapeStrideError>) {
        if shape.len() != N {
            return Err(ShapeStrideError::BadDimality(shape.len()));
        }
        match f_strides(shape) {
            Ok(v) => Ok(ShapeStrideN(array_from_slice(v.as_slice(), 0))),
            Err(e) => Err(e),
        }
    }
}

/// A suffix product splits at any interior position into the product of
/// the middle block times the product of the remaining suffix.
pub proof fn lemma_prod_split(s: Seq<usize>, i: int, j: int)
    requires
        0 <= i <= j <= s.len(),
    ensures
        prod(s.skip(i)) == prod(s.subrange(i, j)) * prod(s.skip(j)),
    decreases j - i,
{
    if i == j {
        assert(s.subrange(i, i) =~= Seq::<usize>::empty());
        assert(1int * prod(s.skip(j)) == prod(s.skip(j))) by (nonlinear_arith);
    } else {
        lemma_prod_skip_step(s, i);
        lemma_prod_split(s, i + 1, j);
        lemma_prod_first(s.subrange(i, j));
        assert(s.subrange(i, j).subrange(1, s.subrange(i, j).len() as int) =~= s.subrange(
            i + 1,
            j,
        ));
        assert(s.subrange(i, j)[0] == s[i]);
        assert((s[i] as int) * (prod(s.subrange(i + 1, j)) * prod(s.skip(j))) == ((s[i] as int)
            * prod(s.subrange(i + 1, j))) * prod(s.skip(j))) by (nonlinear_arith);
    }
}

/// Row-major default strides are row-major ordered, zero-length axes
/// included: the zero strides such axes force are ties of the ordering.
pub proof fn lemma_default_c_strides_ordered(sh: Seq<usize>)
    requires
        c_strides_ok(sh),
    ensures
        spec_is_c_order(spec_c_strides(sh)),
        spec_is_c_order_for(sh, spec_c_strides(sh)),
{
    let st = spec_c_strides(sh);
    assert forall|i: int, j: int|
        #![trigger st[i], st[j]]
        0 <= i < j < st.len() && st[i] != 0 && st[j] != 0 implies st[i] >= st[j] by {
        lemma_prod_nonneg(sh.skip(i + 1));
        lemma_prod_nonneg(sh.skip(j + 1));
        lemma_prod_nonneg(sh.subrange(i + 1, j + 1));
        assert(st[i] as int == c_stride(sh, i) && st[j] as int == c_stride(sh, j));
        lemma_prod_split(sh, i + 1, j + 1);
        let mid = prod(sh.subrange(i + 1, j + 1));
        assert(c_stride(sh, i) >= c_stride(sh, j)) by (nonlinear_arith)
            requires
                c_stride(sh, i) == mid * c_stride(sh, j),
                c_stride(sh, i) >= 1,
                c_stride(sh, j) >= 1,
                mid >= 0,
        ;
    }
}

/// Column-major default strides are column-major ordered, zero-length
/// axes included.
pub proof fn lemma_default_f_strides_ordered(sh: Seq<usize>)
    requires
        f_strides_ok(sh),
    ensures
        spec_is_f_order(spec_f_strides(sh)),
        spec_is_f_order_for(sh, spec_f_strides(sh)),
{
    let st = spec_f_strides(sh);
    assert forall|i: int, j: int|
        #![trigger st[i], st[j]]
        0 <= i < j < st.len() && st[i] != 0 && st[j] != 0 implies st[i] <= st[j] by {
        lemma_prod_nonneg(sh.take(i));
        lemma_prod_nonneg(sh.take(j));
        assert(st[i] as int == f_stride(sh, i) && st[j] as int == f_stride(sh, j));
        lemma_prod_split(sh.take(j), 0, i);
        assert(sh.take(j).skip(0) =~= sh.take(j));
        assert(sh.take(j).subrange(0, i) =~= sh.take(i));
        lemma_prod_nonneg(sh.take(j).skip(i));
        let mid = prod(sh.take(j).skip(i));
        assert(f_stride(sh, j) >= f_stride(sh, i)) by (nonlinear_arith)
            requires
                f_stride(sh, j) == f_stride(sh, i) * mid,
                f_stride(sh, i) >= 1,
                f_stride(sh, j) >= 1,
                mid >= 0,
        ;
    }
}

/// A conversion trait for values that can act as strides.
pub trait IntoStrides {
    /// The per-axis steps the value stands for.
    spec fn into_st(&self) -> Seq<isize>;

    /// What the conversion requires of the value.
    spec fn into_st_inv(&self) -> bool;

    /// Convert to dynamic-rank strides.
    fn into_strides(&self) -> (r: DStrides)
        requires
            self.into_st_inv(),
        ensures
            DynAxesRepr::inv(&r),
            DynAxesRepr::view(&r) == self.into_st(),
    ;
}

impl IntoStrides for DStrides {
    open spec fn into_st(&self) -> Seq<isize> {
        DynAxesRepr::view(self)
    }

    open spec fn into_st_inv(&self) -> bool {
        DynAxesRepr::inv(self)
    }

    fn into_strides(&self) -> (r: DStrides) {
        DynAxesRepr::from_slice(self.as_slice(), 0)
    }
}

impl<const N: usize> IntoStrides for NStrides<N> {
    open spec fn into_st(&self) -> Seq<isize> {
        self.view()
    }

    open spec fn into_st_inv(&self) -> bool {
        true
    }

    fn into_strides(&self) -> (r: DStrides) {
        DynAxesRepr::from_slice(self.as_slice(), 0)
    }
}

impl IntoStrides for Vec<isize> {
    open spec fn into_st(&self) -> Seq<isize> {
        self@
    }

    open spec fn into_st_inv(&self) -> bool {
        true
    }

    fn into_strides(&self) -> (r: DStrides) {
        DynAxesRepr::from_slice(self.as_slice(), 0)
    }
}

} // verus!
