//! The offset engine: maps indices to signed element offsets and bounds the
//! offset range a layout can reach.

use vstd::prelude::*;

use crate::shape::{lemma_prod_nonneg, lemma_prod_pos, prod};
use crate::strides::{c_stride, c_strides_ok, f_stride, f_strides_ok, spec_c_strides, spec_f_strides};

verus! {

/// The number of reachable steps along an axis: a zero-length axis offers
/// no steps of its own, like an axis of length one, but still takes part in
/// the accumulation.
pub open spec fn eff_len(len: usize) -> int {
    if len == 0 {
        1
    } else {
        len as int
    }
}

/// The most negative offset contribution of one axis.
pub open spec fn axis_lo(len: usize, st: isize) -> int {
    let c = (eff_len(len) - 1) * (st as int);
    if c < 0 {
        c
    } else {
        0
    }
}

/// The most positive offset contribution of one axis.
pub open spec fn axis_hi(len: usize, st: isize) -> int {
    let c = (eff_len(len) - 1) * (st as int);
    if c > 0 {
        c
    } else {
        0
    }
}

/// The minimum offset reachable using the first `i` axes.
pub open spec fn min_off(sh: Seq<usize>, st: Seq<isize>, i: int) -> int
    decreases i,
{
    if i <= 0 {
        0
    } else {
        min_off(sh, st, i - 1) + axis_lo(sh[i - 1], st[i - 1])
    }
}

/// The maximum offset reachable using the first `i` axes.
pub open spec fn max_off(sh: Seq<usize>, st: Seq<isize>, i: int) -> int
    decreases i,
{
    if i <= 0 {
        0
    } else {
        max_off(sh, st, i - 1) + axis_hi(sh[i - 1], st[i - 1])
    }
}

/// The distance in elements between the minimum and maximum addresses the
/// layout can produce.
pub open spec fn spec_span(sh: Seq<usize>, st: Seq<isize>) -> int {
    max_off(sh, st, sh.len() as int) - min_off(sh, st, sh.len() as int)
}

/// Partial minima are never positive and partial maxima never negative.
pub proof fn lemma_off_signs(sh: Seq<usize>, st: Seq<isize>, i: int)
    ensures
        min_off(sh, st, i) <= 0,
        max_off(sh, st, i) >= 0,
    decreases i,
{
    if i > 0 {
        lemma_off_signs(sh, st, i - 1);
    }
}

/// Partial minima only fall and partial maxima only rise as axes are added.
pub proof fn lemma_off_monotone(sh: Seq<usize>, st: Seq<isize>, i: int, j: int)
    requires
        i <= j,
    ensures
        min_off(sh, st, j) <= min_off(sh, st, i),
        max_off(sh, st, j) >= max_off(sh, st, i),
    decreases j - i,
{
    if i < j {
        lemma_off_monotone(sh, st, i, j - 1);
    }
}

/// Compute the checked offset range of a shape/strides pair.
///
/// Per axis, the reachable contribution `(length - 1) * stride` (a
/// zero-length axis counts as length one) extends a running minimum and
/// maximum of accumulated partial sums; the result is the final maximum
/// minus the final minimum.  Returns no value exactly when that distance
/// exceeds the maximum signed offset; no intermediate step ever wraps.
pub fn offset_range_checked(shape: &[usize], strides: &[isize]) -> (r: Option<usize>)
    requires
        shape@.len() == strides@.len(),
    ensures
        spec_span(shape@, strides@) <= isize::MAX as int ==> r == Some(
            spec_span(shape@, strides@) as usize,
        ),
        spec_span(shape@, strides@) > isize::MAX as int ==> r is None,
{
    let n = shape.len();
    let ghost sh = shape@;
    let ghost st = strides@;
    let mut lo: isize = 0;
    let mut hi: isize = 0;
    let mut i: usize = 0;
    while i < n
        invariant
            0 <= i <= n,
            n == sh.len(),
            n == st.len(),
            sh == shape@,
            st == strides@,
            lo as int == min_off(sh, st, i as int),
            hi as int == max_off(sh, st, i as int),
            lo <= 0,
            hi >= 0,
        decreases n - i,
    {
        let len_i = shape[i];
        let st_i = strides[i];
        proof {
            lemma_off_signs(sh, st, i as int);
        }
        if st_i != 0 && len_i > 1 {
            // The axis really moves: account for (len - 1) * stride.
            if len_i - 1 > (isize::MAX as usize) {
                proof {
                    let c = (eff_len(sh[i as int]) - 1) * (st[i as int] as int);
                    assert(c > isize::MAX as int || c < -(isize::MAX as int))
                        by (nonlinear_arith)
                        requires
                            c == (eff_len(sh[i as int]) - 1) * (st[i as int] as int),
                            eff_len(sh[i as int]) - 1 > isize::MAX as int,
                            st[i as int] as int != 0,
                    ;
                    lemma_span_exceeds(sh, st, i as int);
                }
                return None;
            }
            let m = (len_i - 1) as isize;
            match m.checked_mul(st_i) {
                Some(c) => {
                    if c > 0 {
                        match hi.checked_add(c) {
                            Some(h) => {
                                hi = h;
                            },
                            None => {
                                proof {
                                    lemma_span_exceeds(sh, st, i as int);
                                }
                                return None;
                            },
                        }
                        proof {
                            assert(axis_lo(sh[i as int], st[i as int]) == 0);
                        }
                    } else {
                        match lo.checked_add(c) {
                            Some(l) => {
                                lo = l;
                            },
                            None => {
                                proof {
                                    lemma_span_exceeds(sh, st, i as int);
                                }
                                return None;
                            },
                        }
                        proof {
                            assert(axis_hi(sh[i as int], st[i as int]) == 0);
                        }
                    }
                },
                None => {
                    proof {
                        lemma_span_exceeds(sh, st, i as int);
                    }
                    return None;
                },
            }
        } else {
            // A frozen axis (stride zero or length at most one) adds nothing.
            proof {
                assert((eff_len(sh[i as int]) - 1) * (st[i as int] as int) == 0)
                    by (nonlinear_arith)
                    requires
                        eff_len(sh[i as int]) - 1 == 0 || st[i as int] as int == 0,
                ;
            }
        }
        i += 1;
    }
    let span_wide: i128 = (hi as i128) - (lo as i128);
    if span_wide > (isize::MAX as i128) {
        None
    } else {
        proof {
            lemma_off_signs(sh, st, n as int);
        }
        Some(span_wide as usize)
    }
}

/// When a step of the accumulation leaves the signed range, so does the
/// whole span: the contribution of axis `i` alone already exceeds it, or
/// pushes a partial extreme past it, and later axes only widen the range.
proof fn lemma_span_exceeds(sh: Seq<usize>, st: Seq<isize>, i: int)
    requires
        0 <= i < sh.len(),
        sh.len() == st.len(),
        max_off(sh, st, i + 1) > isize::MAX as int || min_off(sh, st, i + 1) < -(isize::MAX
            as int),
    ensures
        spec_span(sh, st) > isize::MAX as int,
{
    lemma_off_monotone(sh, st, i + 1, sh.len() as int);
    lemma_off_signs(sh, st, sh.len() as int);
}

/// Compute the checked offset range in bytes for a given element size.
///
/// Scales the element span by the element size with one more checked
/// multiplication; returns no value exactly when the element span or the
/// byte total exceeds the maximum signed offset.
pub fn offset_range_bytes_checked(shape: &[usize], strides: &[isize], elem_size: usize) -> (r:
    Option<usize>)
    requires
        shape@.len() == strides@.len(),
    ensures
        ({
            let span = spec_span(shape@, strides@);
            if span <= isize::MAX as int && span * (elem_size as int) <= isize::MAX as int {
                r == Some((span * (elem_size as int)) as usize)
            } else {
                r is None
            }
        }),
{
    proof {
        lemma_off_signs(shape@, strides@, shape@.len() as int);
    }
    match offset_range_checked(shape, strides) {
        Some(span) => {
            match span.checked_mul(elem_size) {
                Some(bytes) => {
                    if bytes > (isize::MAX as usize) {
                        None
                    } else {
                        Some(bytes)
                    }
                },
                None => None,
            }
        },
        None => None,
    }
}

/// The signed element offset of a full multidimensional index: the dot
/// product of the index coordinates with the strides, over the first `i`
/// axes.
pub open spec fn dot(idx: Seq<usize>, st: Seq<isize>, i: int) -> int
    decreases i,
{
    if i <= 0 {
        0
    } else {
        dot(idx, st, i - 1) + (idx[i - 1] as int) * (st[i - 1] as int)
    }
}

/// One in-bounds coordinate keeps its contribution between the axis
/// extremes.
proof fn lemma_term_bounds(k: int, len: usize, st: isize)
    requires
        0 <= k < len,
    ensures
        axis_lo(len, st) <= k * (st as int) <= axis_hi(len, st),
{
    assert(len >= 1);
    assert(eff_len(len) == len as int);
    if st >= 0 {
        assert(0 <= k * (st as int) <= (len as int - 1) * (st as int)) by (nonlinear_arith)
            requires
                0 <= k <= len as int - 1,
                st as int >= 0,
        ;
    } else {
        assert((len as int - 1) * (st as int) <= k * (st as int) <= 0) by (nonlinear_arith)
            requires
                0 <= k <= len as int - 1,
                (st as int) < 0,
        ;
    }
}

/// The signed element offset of a full multidimensional index.
///
/// The caller must have validated the layout: the offset range fits the
/// signed range (see [`offset_range_checked`]) and every coordinate is
/// within its axis.  The result is the dot product of the coordinates with
/// the strides and always lies between the layout's minimum and maximum
/// reachable offsets.
pub fn offset_of(index: &[usize], shape: &[usize], strides: &[isize]) -> (r: isize)
    requires
        index@.len() == shape@.len(),
        shape@.len() == strides@.len(),
        forall|i: int| 0 <= i < index@.len() ==> index@[i] < shape@[i],
        spec_span(shape@, strides@) <= isize::MAX as int,
    ensures
        r as int == dot(index@, strides@, index@.len() as int),
        min_off(shape@, strides@, shape@.len() as int) <= r as int <= max_off(
            shape@,
            strides@,
            shape@.len() as int,
        ),
{
    let n = index.len();
    let ghost ix = index@;
    let ghost sh = shape@;
    let ghost st = strides@;
    let mut acc: isize = 0;
    let mut i: usize = 0;
    proof {
        lemma_off_signs(sh, st, n as int);
    }
    while i < n
        invariant
            0 <= i <= n,
            n == ix.len(),
            n == sh.len(),
            n == st.len(),
            ix == index@,
            sh == shape@,
            st == strides@,
            forall|j: int| 0 <= j < n ==> ix[j] < sh[j],
            spec_span(sh, st) <= isize::MAX as int,
            acc as int == dot(ix, st, i as int),
            min_off(sh, st, i as int) <= acc as int <= max_off(sh, st, i as int),
        decreases n - i,
    {
        proof {
            lemma_term_bounds(ix[i as int] as int, sh[i as int], st[i as int]);
            lemma_off_monotone(sh, st, i as int + 1, n as int);
            lemma_off_signs(sh, st, n as int);
        }
        if strides[i] != 0 {
            // The coordinate fits isize: the axis span alone bounds it.
            proof {
                assert(ix[i as int] as int <= (eff_len(sh[i as int]) - 1) * (st[i as int]
                    as int) || ix[i as int] as int <= -((eff_len(sh[i as int]) - 1) * (st[i
                    as int] as int))) by (nonlinear_arith)
                    requires
                        0 <= ix[i as int] as int <= eff_len(sh[i as int]) - 1,
                        st[i as int] as int != 0,
                ;
                assert(axis_hi(sh[i as int], st[i as int]) - axis_lo(sh[i as int], st[i as int])
                    <= spec_span(sh, st)) by {
                    lemma_off_monotone(sh, st, 0, i as int);
                }
            }
            let t = (index[i] as isize) * strides[i];
            acc = acc + t;
        } else {
            proof {
                assert((ix[i as int] as int) * (st[i as int] as int) == 0) by (nonlinear_arith)
                    requires
                        st[i as int] as int == 0,
                ;
            }
        }
        i += 1;
    }
    acc
}

/// The coordinates of linear position `pos` when the last axis varies
/// fastest (row-major traversal order).
pub open spec fn unravel_c(sh: Seq<usize>, pos: int) -> Seq<usize>
    decreases sh.len(),
{
    if sh.len() == 0 {
        Seq::empty()
    } else {
        unravel_c(sh.drop_last(), pos / (sh.last() as int)).push(
            (pos % (sh.last() as int)) as usize,
        )
    }
}

/// The coordinates of linear position `pos` when the first axis varies
/// fastest (column-major traversal order).
pub open spec fn unravel_f(sh: Seq<usize>, pos: int) -> Seq<usize>
    decreases sh.len(),
{
    if sh.len() == 0 {
        Seq::empty()
    } else {
        seq![(pos % (sh[0] as int)) as usize] + unravel_f(
            sh.subrange(1, sh.len() as int),
            pos / (sh[0] as int),
        )
    }
}

/// Unravelled row-major coordinates stay within their axes.
pub proof fn lemma_unravel_c_in_bounds(sh: Seq<usize>, pos: int)
    requires
        pos >= 0,
        forall|i: int| 0 <= i < sh.len() ==> sh[i] > 0,
    ensures
        unravel_c(sh, pos).len() == sh.len(),
        forall|i: int| 0 <= i < sh.len() ==> #[trigger] unravel_c(sh, pos)[i] < sh[i],
    decreases sh.len(),
{
    if sh.len() > 0 {
        let last = sh.last() as int;
        vstd::arithmetic::div_mod::lemma_mod_bound(pos, last);
        vstd::arithmetic::div_mod::lemma_div_pos_is_pos(pos, last);
        lemma_unravel_c_in_bounds(sh.drop_last(), pos / last);
        assert forall|i: int| 0 <= i < sh.len() implies #[trigger] unravel_c(sh, pos)[i]
            < sh[i] by {
            if i < sh.len() - 1 {
                assert(unravel_c(sh, pos)[i] == unravel_c(sh.drop_last(), pos / last)[i]);
            }
        }
    }
}

/// Unravelled column-major coordinates stay within their axes.
pub proof fn lemma_unravel_f_in_bounds(sh: Seq<usize>, pos: int)
    requires
        pos >= 0,
        forall|i: int| 0 <= i < sh.len() ==> sh[i] > 0,
    ensures
        unravel_f(sh, pos).len() == sh.len(),
        forall|i: int| 0 <= i < sh.len() ==> #[trigger] unravel_f(sh, pos)[i] < sh[i],
    decreases sh.len(),
{
    if sh.len() > 0 {
        let first = sh[0] as int;
        vstd::arithmetic::div_mod::lemma_mod_bound(pos, first);
        vstd::arithmetic::div_mod::lemma_div_pos_is_pos(pos, first);
        let tail = sh.subrange(1, sh.len() as int);
        lemma_unravel_f_in_bounds(tail, pos / first);
        assert forall|i: int| 0 <= i < sh.len() implies #[trigger] unravel_f(sh, pos)[i]
            < sh[i] by {
            if i >= 1 {
                assert(unravel_f(sh, pos)[i] == unravel_f(tail, pos / first)[i - 1]);
            }
        }
    }
}

/// The row-major coordinates of linear position `pos`, as a vector.
pub fn coords_linear_right(shape: &[usize], pos: usize) -> (r: Vec<usize>)
    requires
        forall|i: int| 0 <= i < shape@.len() ==> shape@[i] > 0,
    ensures
        r@ == unravel_c(shape@, pos as int),
        r@.len() == shape@.len(),
{
    let n = shape.len();
    let ghost sh = shape@;
    let mut coords: Vec<usize> = vec![0usize; n];
    let mut rem: usize = pos;
    let mut i: usize = n;
    proof {
        assert(sh.take(n as int) =~= sh);
        assert(unravel_c(sh, pos as int) =~= unravel_c(sh.take(n as int), pos as int)
            + coords@.skip(n as int));
    }
    while i > 0
        invariant
            0 <= i <= n,
            n == sh.len(),
            sh == shape@,
            coords@.len() == n,
            forall|j: int| 0 <= j < sh.len() ==> sh[j] > 0,
            unravel_c(sh, pos as int) =~= unravel_c(sh.take(i as int), rem as int)
                + coords@.skip(i as int),
        decreases i,
    {
        i -= 1;
        let len_i = shape[i];
        let c = rem % len_i;
        let ghost old_coords = coords@;
        let ghost old_rem = rem as int;
        coords[i] = c;
        rem = rem / len_i;
        proof {
            let pre = sh.take(i as int + 1);
            assert(pre.last() == sh[i as int]);
            assert(pre.drop_last() =~= sh.take(i as int));
            assert(unravel_c(pre, old_rem) == unravel_c(sh.take(i as int), old_rem / (sh[i
                as int] as int)).push((old_rem % (sh[i as int] as int)) as usize));
            assert(coords@.skip(i as int + 1) =~= old_coords.skip(i as int + 1));
            assert(coords@.skip(i as int) =~= seq![c] + coords@.skip(i as int + 1));
            assert(unravel_c(sh.take(i as int), rem as int).push(c) + coords@.skip(i as int + 1)
                =~= unravel_c(sh.take(i as int), rem as int) + coords@.skip(i as int));
        }
    }
    proof {
        assert(sh.take(0) =~= Seq::<usize>::empty());
        assert(unravel_c(sh, pos as int) =~= coords@);
    }
    coords
}

/// The column-major coordinates of linear position `pos`, as a vector.
pub fn coords_linear_left(shape: &[usize], pos: usize) -> (r: Vec<usize>)
    requires
        forall|i: int| 0 <= i < shape@.len() ==> shape@[i] > 0,
    ensures
        r@ == unravel_f(shape@, pos as int),
        r@.len() == shape@.len(),
{
    let n = shape.len();
    let ghost sh = shape@;
    let mut coords: Vec<usize> = vec![0usize; n];
    let mut rem: usize = pos;
    let mut i: usize = 0;
    proof {
        assert(sh.skip(0) =~= sh);
        assert(unravel_f(sh, pos as int) =~= coords@.take(0) + unravel_f(sh.skip(0), pos as int));
    }
    while i < n
        invariant
            0 <= i <= n,
            n == sh.len(),
            sh == shape@,
            coords@.len() == n,
            forall|j: int| 0 <= j < sh.len() ==> sh[j] > 0,
            unravel_f(sh, pos as int) =~= coords@.take(i as int) + unravel_f(
                sh.skip(i as int),
                rem as int,
            ),
        decreases n - i,
    {
        let len_i = shape[i];
        let c = rem % len_i;
        let ghost old_coords = coords@;
        let ghost old_rem = rem as int;
        coords[i] = c;
        rem = rem / len_i;
        proof {
            let suf = sh.skip(i as int);
            assert(suf[0] == sh[i as int]);
            assert(suf.subrange(1, suf.len() as int) =~= sh.skip(i as int + 1));
            assert(unravel_f(suf, old_rem) == seq![(old_rem % (sh[i as int] as int)) as usize]
                + unravel_f(sh.skip(i as int + 1), old_rem / (sh[i as int] as int)));
            assert(coords@.take(i as int) =~= old_coords.take(i as int));
            assert(coords@.take(i as int + 1) =~= coords@.take(i as int) + seq![c]);
            assert(coords@.take(i as int) + (seq![c] + unravel_f(sh.skip(i as int + 1), rem as int))
                =~= coords@.take(i as int + 1) + unravel_f(sh.skip(i as int + 1), rem as int));
        }
        i += 1;
    }
    proof {
        assert(sh.skip(n as int) =~= Seq::<usize>::empty());
        assert(unravel_f(sh, pos as int) =~= coords@);
    }
    coords
}

/// The offset of linear position `pos` when traversal moves across axes
/// from the right: the last axis varies fastest (row-major order).
pub fn index_linear_right(shape: &[usize], strides: &[isize], pos: usize) -> (r: isize)
    requires
        shape@.len() == strides@.len(),
        forall|i: int| 0 <= i < shape@.len() ==> shape@[i] > 0,
        pos < prod(shape@),
        spec_span(shape@, strides@) <= isize::MAX as int,
    ensures
        r as int == dot(unravel_c(shape@, pos as int), strides@, shape@.len() as int),
{
    proof {
        lemma_unravel_c_in_bounds(shape@, pos as int);
    }
    let coords = coords_linear_right(shape, pos);
    offset_of(coords.as_slice(), shape, strides)
}

/// The offset of linear position `pos` when traversal moves across axes
/// from the left: the first axis varies fastest (column-major order).
pub fn index_linear_left(shape: &[usize], strides: &[isize], pos: usize) -> (r: isize)
    requires
        shape@.len() == strides@.len(),
        forall|i: int| 0 <= i < shape@.len() ==> shape@[i] > 0,
        pos < prod(shape@),
        spec_span(shape@, strides@) <= isize::MAX as int,
    ensures
        r as int == dot(unravel_f(shape@, pos as int), strides@, shape@.len() as int),
{
    proof {
        lemma_unravel_f_in_bounds(shape@, pos as int);
    }
    let coords = coords_linear_left(shape, pos);
    offset_of(coords.as_slice(), shape, strides)
}

/// The first multidimensional index of a layout in traversal order: all
/// zeros when the layout holds at least one element, no value otherwise.
pub fn first_index(shape: &[usize]) -> (r: Option<Vec<usize>>)
    ensures
        (r is Some) == (forall|i: int| 0 <= i < shape@.len() ==> shape@[i] > 0),
        r matches Some(v) ==> v@ =~= Seq::new(shape@.len(), |i: int| 0usize),
{
    let n = shape.len();
    let mut i: usize = 0;
    while i < n
        invariant
            0 <= i <= n,
            n == shape@.len(),
            forall|j: int| 0 <= j < i ==> shape@[j] > 0,
        decreases n - i,
    {
        if shape[i] == 0 {
            return None;
        }
        i += 1;
    }
    let zeros: Vec<usize> = vec![0usize; n];
    proof {
        assert(zeros@ =~= Seq::new(shape@.len(), |k: int| 0usize));
    }
    Some(zeros)
}

/// The successor of `idx` in row-major traversal order: bump the last axis,
/// carrying leftwards; no value once every coordinate is at its maximum.
pub open spec fn spec_next_for(sh: Seq<usize>, idx: Seq<usize>) -> Option<Seq<usize>>
    decreases sh.len(),
{
    if sh.len() == 0 {
        None
    } else if idx.last() + 1 < sh.last() {
        Some(idx.update(sh.len() - 1, (idx.last() + 1) as usize))
    } else {
        match spec_next_for(sh.drop_last(), idx.drop_last()) {
            Some(p) => Some(p.push(0)),
            None => None,
        }
    }
}

/// The next multidimensional index after `index` in row-major traversal
/// order, or no value when `index` is the last one.
pub fn next_for(shape: &[usize], index: &[usize]) -> (r: Option<Vec<usize>>)
    requires
        shape@.len() == index@.len(),
        forall|i: int| 0 <= i < index@.len() ==> index@[i] < shape@[i],
    ensures
        match r {
            Some(v) => spec_next_for(shape@, index@) == Some(v@),
            None => spec_next_for(shape@, index@) is None,
        },
{
    let n = shape.len();
    let ghost sh = shape@;
    let ghost ix = index@;
    let mut next: Vec<usize> = Vec::new();
    let mut k: usize = 0;
    while k < n
        invariant
            0 <= k <= n,
            n == ix.len(),
            ix == index@,
            next@ =~= ix.take(k as int),
        decreases n - k,
    {
        next.push(index[k]);
        proof {
            assert(next@ =~= ix.take(k as int + 1));
        }
        k += 1;
    }
    proof {
        assert(next@ =~= ix);
        assert(sh.take(n as int) =~= sh);
        assert(ix.take(n as int) =~= ix);
        assert forall|p: Seq<usize>| true implies p + next@.skip(n as int) =~= p by {
            assert(next@.skip(n as int) =~= Seq::<usize>::empty());
        }
    }
    let mut i: usize = n;
    while i > 0
        invariant
            0 <= i <= n,
            n == sh.len(),
            n == ix.len(),
            sh == shape@,
            ix == index@,
            next@.len() == n,
            forall|j: int| 0 <= j < n ==> ix[j] < sh[j],
            next@.take(i as int) =~= ix.take(i as int),
            forall|j: int| i <= j < n ==> next@[j] == 0,
            spec_next_for(sh, ix) == match spec_next_for(sh.take(i as int), ix.take(i as int)) {
                Some(p) => Some(p + next@.skip(i as int)),
                None => None::<Seq<usize>>,
            },
        decreases i,
    {
        let ghost pre_sh = sh.take(i as int);
        let ghost pre_ix = ix.take(i as int);
        proof {
            assert(pre_sh.last() == sh[i as int - 1]);
            assert(pre_ix.last() == ix[i as int - 1]);
            assert(pre_sh.drop_last() =~= sh.take(i as int - 1));
            assert(pre_ix.drop_last() =~= ix.take(i as int - 1));
        }
        if index[i - 1] + 1 < shape[i - 1] {
            let ghost old_next = next@;
            next[i - 1] = index[i - 1] + 1;
            proof {
                assert(pre_ix.update(i as int - 1, (ix[i as int - 1] + 1) as usize)
                    + old_next.skip(i as int) =~= next@);
            }
            return Some(next);
        }
        let ghost old_next = next@;
        next[i - 1] = 0;
        proof {
            assert(spec_next_for(pre_sh, pre_ix) == match spec_next_for(
                sh.take(i as int - 1),
                ix.take(i as int - 1),
            ) {
                Some(p) => Some(p.push(0)),
                None => None::<Seq<usize>>,
            });
            assert(next@.take(i as int - 1) =~= ix.take(i as int - 1));
            assert forall|p: Seq<usize>| true implies p.push(0) + old_next.skip(i as int)
                =~= p + next@.skip(i as int - 1) by {
                assert(next@.skip(i as int - 1) =~= seq![0usize] + old_next.skip(i as int));
            }
        }
        i -= 1;
    }
    proof {
        assert(sh.take(0) =~= Seq::<usize>::empty());
        assert(ix.take(0) =~= Seq::<usize>::empty());
    }
    None
}


/// A dot product only reads the first `k` coordinates.
proof fn lemma_dot_congruent(a: Seq<usize>, b: Seq<usize>, st: Seq<isize>, k: int)
    requires
        forall|i: int| 0 <= i < k ==> a[i] == b[i],
    ensures
        dot(a, st, k) == dot(b, st, k),
    decreases k,
{
    if k > 0 {
        lemma_dot_congruent(a, b, st, k - 1);
    }
}

/// Scaling every stride by `l` scales the dot product by `l`.
proof fn lemma_dot_scaled(ix: Seq<usize>, st1: Seq<isize>, st2: Seq<isize>, l: int, k: int)
    requires
        forall|i: int| 0 <= i < k ==> st1[i] as int == (st2[i] as int) * l,
    ensures
        dot(ix, st1, k) == l * dot(ix, st2, k),
    decreases k,
{
    if k > 0 {
        lemma_dot_scaled(ix, st1, st2, l, k - 1);
        assert((ix[k - 1] as int) * ((st2[k - 1] as int) * l) + l * dot(ix, st2, k - 1) == l * (
        dot(ix, st2, k - 1) + (ix[k - 1] as int) * (st2[k - 1] as int))) by (nonlinear_arith);
    } else {
        assert(l * 0int == 0int) by (nonlinear_arith);
    }
}

/// Linear indexing round-trips through the row-major default strides:
/// the offset of linear position `pos`, taken in the traversal order
/// where the last axis varies fastest, is `pos` itself.
pub proof fn lemma_default_strides_linear(sh: Seq<usize>, pos: int)
    requires
        c_strides_ok(sh),
        forall|i: int| 0 <= i < sh.len() ==> sh[i] > 0,
        0 <= pos < prod(sh),
    ensures
        dot(unravel_c(sh, pos), spec_c_strides(sh), sh.len() as int) == pos,
    decreases sh.len(),
{
    let n = sh.len() as int;
    if n == 0 {
    } else {
        let l = sh.last() as int;
        let drop = sh.drop_last();
        let q = pos / l;
        let r = pos % l;
        vstd::arithmetic::div_mod::lemma_fundamental_div_mod(pos, l);
        vstd::arithmetic::div_mod::lemma_mod_bound(pos, l);
        vstd::arithmetic::div_mod::lemma_div_pos_is_pos(pos, l);
        // The suffix products of the shorter shape are those of the full
        // shape divided by the last axis length.
        assert forall|i: int| 0 <= i < n - 1 implies #[trigger] c_stride(sh, i) == c_stride(
            drop,
            i,
        ) * l by {
            assert(sh.skip(i + 1).drop_last() =~= drop.skip(i + 1));
            assert(sh.skip(i + 1).last() == sh.last());
        }
        assert forall|i: int| 0 <= i < drop.len() implies #[trigger] c_stride(drop, i)
            <= isize::MAX as int by {
            lemma_prod_nonneg(drop.skip(i + 1));
            assert(c_stride(sh, i) == c_stride(drop, i) * l);
            assert(c_stride(sh, i) <= isize::MAX as int);
            assert(c_stride(drop, i) <= c_stride(drop, i) * l) by (nonlinear_arith)
                requires
                    c_stride(drop, i) >= 0,
                    l >= 1,
            ;
        }
        // The quotient stays within the shorter shape.
        assert(prod(sh) == prod(drop) * l);
        lemma_prod_pos(drop);
        assert(q < prod(drop)) by (nonlinear_arith)
            requires
                l * q <= pos,
                pos < prod(drop) * l,
                l >= 1,
        ;
        lemma_default_strides_linear(drop, q);
        let ix = unravel_c(sh, pos);
        let full = spec_c_strides(sh);
        let part = spec_c_strides(drop);
        let prefix = unravel_c(drop, q);
        assert(ix == prefix.push(r as usize));
        lemma_unravel_c_in_bounds(drop, q);
        assert(forall|i: int| 0 <= i < n - 1 ==> ix[i] == prefix[i]);
        lemma_dot_congruent(ix, prefix, full, n - 1);
        assert forall|i: int| 0 <= i < n - 1 implies #[trigger] full[i] as int == (part[i]
            as int) * l by {
            lemma_prod_nonneg(sh.skip(i + 1));
            lemma_prod_nonneg(drop.skip(i + 1));
            assert(c_stride(sh, i) == c_stride(drop, i) * l);
            assert(c_stride(sh, i) <= isize::MAX as int);
            assert(c_stride(drop, i) <= isize::MAX as int);
        }
        lemma_dot_scaled(prefix, full, part, l, n - 1);
        assert(full[n - 1] as int == c_stride(sh, n - 1));
        assert(sh.skip(n) =~= Seq::<usize>::empty());
        assert(c_stride(sh, n - 1) == 1);
        assert(dot(ix, full, n) == l * q + r * 1);
        assert(r * 1int == r) by (nonlinear_arith);
    }
}


/// A dot product peels its first term off the front.
proof fn lemma_dot_front(ix: Seq<usize>, st: Seq<isize>, k: int)
    requires
        1 <= k <= ix.len(),
        k <= st.len(),
    ensures
        dot(ix, st, k) == (ix[0] as int) * (st[0] as int) + dot(
            ix.subrange(1, ix.len() as int),
            st.subrange(1, st.len() as int),
            k - 1,
        ),
    decreases k,
{
    let tix = ix.subrange(1, ix.len() as int);
    let tst = st.subrange(1, st.len() as int);
    if k == 1 {
        assert(dot(ix, st, 1) == dot(ix, st, 0) + (ix[0] as int) * (st[0] as int));
        assert(dot(ix, st, 0) == 0);
        assert(dot(tix, tst, 0) == 0);
    } else {
        lemma_dot_front(ix, st, k - 1);
        assert(tix[k - 2] == ix[k - 1]);
        assert(tst[k - 2] == st[k - 1]);
        assert(dot(ix, st, k) == dot(ix, st, k - 1) + (ix[k - 1] as int) * (st[k - 1] as int));
        assert(dot(tix, tst, k - 1) == dot(tix, tst, k - 2) + (tix[k - 2] as int) * (tst[k - 2]
            as int));
    }
}

/// Linear indexing round-trips through the column-major default strides:
/// the offset of linear position `pos`, taken in the traversal order
/// where the first axis varies fastest, is `pos` itself.
pub proof fn lemma_default_f_strides_linear(sh: Seq<usize>, pos: int)
    requires
        f_strides_ok(sh),
        forall|i: int| 0 <= i < sh.len() ==> sh[i] > 0,
        0 <= pos < prod(sh),
    ensures
        dot(unravel_f(sh, pos), spec_f_strides(sh), sh.len() as int) == pos,
    decreases sh.len(),
{
    let n = sh.len() as int;
    if n == 0 {
    } else {
        let l = sh[0] as int;
        let tail = sh.subrange(1, n);
        let q = pos / l;
        let r = pos % l;
        vstd::arithmetic::div_mod::lemma_fundamental_div_mod(pos, l);
        vstd::arithmetic::div_mod::lemma_mod_bound(pos, l);
        vstd::arithmetic::div_mod::lemma_div_pos_is_pos(pos, l);
        // The prefix products of the shorter shape are those of the full
        // shape divided by the first axis length.
        assert forall|i: int| 0 <= i < n - 1 implies #[trigger] f_stride(sh, i + 1) == l
            * f_stride(tail, i) by {
            lemma_prod_first_factor(sh, i + 1);
        }
        assert forall|i: int| 0 <= i < tail.len() implies #[trigger] f_stride(tail, i)
            <= isize::MAX as int by {
            lemma_prod_nonneg(tail.take(i));
            assert(f_stride(sh, i + 1) == l * f_stride(tail, i));
            assert(f_stride(sh, i + 1) <= isize::MAX as int);
            assert(f_stride(tail, i) <= l * f_stride(tail, i)) by (nonlinear_arith)
                requires
                    f_stride(tail, i) >= 0,
                    l >= 1,
            ;
        }
        assert(prod(sh) == l * prod(tail)) by {
            lemma_prod_first_factor(sh, n);
            assert(sh.take(n) =~= sh);
            assert(tail.take(n - 1) =~= tail);
        }
        lemma_prod_pos(tail);
        assert(q < prod(tail)) by (nonlinear_arith)
            requires
                l * q <= pos,
                pos < l * prod(tail),
                l >= 1,
        ;
        lemma_default_f_strides_linear(tail, q);
        let ix = unravel_f(sh, pos);
        let full = spec_f_strides(sh);
        let part = spec_f_strides(tail);
        let tail_ix = unravel_f(tail, q);
        assert(ix == seq![r as usize] + tail_ix);
        lemma_unravel_f_in_bounds(tail, q);
        lemma_dot_front(ix, full, n);
        assert(ix.subrange(1, ix.len() as int) =~= tail_ix);
        assert forall|i: int| 0 <= i < n - 1 implies #[trigger] full.subrange(
            1,
            full.len() as int,
        )[i] as int == (part[i] as int) * l by {
            lemma_prod_nonneg(sh.take(i + 1));
            lemma_prod_nonneg(tail.take(i));
            assert(full.subrange(1, full.len() as int)[i] == full[i + 1]);
            assert(f_stride(sh, i + 1) == l * f_stride(tail, i));
            assert(f_stride(sh, i + 1) <= isize::MAX as int);
            assert(f_stride(tail, i) <= isize::MAX as int);
            assert(l * f_stride(tail, i) == f_stride(tail, i) * l) by (nonlinear_arith);
        }
        lemma_dot_scaled(tail_ix, full.subrange(1, full.len() as int), part, l, n - 1);
        assert(full[0] as int == f_stride(sh, 0));
        assert(sh.take(0) =~= Seq::<usize>::empty());
        assert(dot(ix, full, n) == r * 1 + l * q);
        assert(r * 1int == r) by (nonlinear_arith);
    }
}

/// A prefix product peels its first factor off the front: the product of
/// `sh[..i]` is `sh[0]` times the product of `sh[1..][..i - 1]`.
proof fn lemma_prod_first_factor(sh: Seq<usize>, i: int)
    requires
        1 <= i <= sh.len(),
    ensures
        prod(sh.take(i)) == (sh[0] as int) * prod(sh.subrange(1, sh.len() as int).take(i - 1)),
{
    crate::strides::lemma_prod_skip_step(sh.take(i), 0);
    assert(sh.take(i).skip(0) =~= sh.take(i));
    assert(sh.take(i).skip(1) =~= sh.subrange(1, sh.len() as int).take(i - 1));
    assert(sh.take(i)[0] == sh[0]);
}


/// The linear position of a multidimensional index in row-major traversal
/// order: the last axis varies fastest.
pub open spec fn ravel_c(sh: Seq<usize>, ix: Seq<usize>) -> int
    decreases sh.len(),
{
    if sh.len() == 0 {
        0
    } else {
        ravel_c(sh.drop_last(), ix.drop_last()) * (sh.last() as int) + ix.last()
    }
}

/// An in-bounds index has a linear position inside the element count.
pub proof fn lemma_ravel_c_bounds(sh: Seq<usize>, ix: Seq<usize>)
    requires
        ix.len() == sh.len(),
        forall|i: int| 0 <= i < sh.len() ==> ix[i] < sh[i],
    ensures
        0 <= ravel_c(sh, ix) < prod(sh),
    decreases sh.len(),
{
    if sh.len() > 0 {
        lemma_ravel_c_bounds(sh.drop_last(), ix.drop_last());
        let p = ravel_c(sh.drop_last(), ix.drop_last());
        let l = sh.last() as int;
        assert(p * l + ix.last() < prod(sh.drop_last()) * l) by (nonlinear_arith)
            requires
                0 <= p,
                p <= prod(sh.drop_last()) - 1,
                0 <= (ix.last() as int) < l,
        ;
        assert(p * l >= 0) by (nonlinear_arith)
            requires
                p >= 0,
                l >= 0,
        ;
    }
}

/// The index whose every coordinate is at its maximum sits at the last
/// linear position.
proof fn lemma_ravel_c_last(sh: Seq<usize>, ix: Seq<usize>)
    requires
        ix.len() == sh.len(),
        forall|i: int| 0 <= i < sh.len() ==> ix[i] < sh[i],
        forall|i: int| 0 <= i < sh.len() ==> ix[i] + 1 >= sh[i],
    ensures
        ravel_c(sh, ix) == prod(sh) - 1,
    decreases sh.len(),
{
    if sh.len() > 0 {
        lemma_ravel_c_last(sh.drop_last(), ix.drop_last());
        let l = sh.last() as int;
        assert(ix.last() as int == l - 1);
        assert((prod(sh.drop_last()) - 1) * l + (l - 1) == prod(sh.drop_last()) * l - 1)
            by (nonlinear_arith);
    }
}

/// The row-major successor really is the successor: stepping `next_for`
/// advances the linear position by exactly one, and only the very last
/// index, at linear position `count - 1`, has no successor.
pub proof fn lemma_next_for_advances(sh: Seq<usize>, ix: Seq<usize>)
    requires
        ix.len() == sh.len(),
        forall|i: int| 0 <= i < sh.len() ==> ix[i] < sh[i],
    ensures
        spec_next_for(sh, ix) matches Some(j) ==> ravel_c(sh, j) == ravel_c(sh, ix) + 1,
        spec_next_for(sh, ix) is None ==> ravel_c(sh, ix) == prod(sh) - 1,
    decreases sh.len(),
{
    if sh.len() == 0 {
    } else {
        let l = sh.last() as int;
        if ix.last() + 1 < sh.last() {
            let j = ix.update(sh.len() - 1, (ix.last() + 1) as usize);
            assert(j.drop_last() =~= ix.drop_last());
            assert(j.last() == ix.last() + 1);
        } else {
            assert(ix.last() as int == l - 1);
            lemma_next_for_advances(sh.drop_last(), ix.drop_last());
            match spec_next_for(sh.drop_last(), ix.drop_last()) {
                Some(p) => {
                    let j = p.push(0);
                    assert(j.drop_last() =~= p);
                    assert(j.last() == 0);
                    assert((ravel_c(sh.drop_last(), ix.drop_last()) + 1) * l == ravel_c(
                        sh.drop_last(),
                        ix.drop_last(),
                    ) * l + l) by (nonlinear_arith);
                },
                None => {
                    lemma_next_none_means_maxed(sh.drop_last(), ix.drop_last());
                    assert forall|i: int| 0 <= i < sh.len() implies ix[i] + 1 >= sh[i] by {
                        if i < sh.len() - 1 {
                            assert(ix.drop_last()[i] == ix[i] && sh.drop_last()[i] == sh[i]);
                        }
                    }
                    lemma_ravel_c_last(sh, ix);
                },
            }
        }
    }
}


/// An index with no successor has every coordinate at its maximum.
proof fn lemma_next_none_means_maxed(sh: Seq<usize>, ix: Seq<usize>)
    requires
        ix.len() == sh.len(),
        spec_next_for(sh, ix) is None,
    ensures
        forall|i: int| 0 <= i < sh.len() ==> ix[i] + 1 >= sh[i],
    decreases sh.len(),
{
    if sh.len() > 0 {
        lemma_next_none_means_maxed(sh.drop_last(), ix.drop_last());
        assert forall|i: int| 0 <= i < sh.len() implies ix[i] + 1 >= sh[i] by {
            if i < sh.len() - 1 {
                assert(ix.drop_last()[i] == ix[i] && sh.drop_last()[i] == sh[i]);
            }
        }
    }
}

} // verus!
