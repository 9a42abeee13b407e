//! Classification of a shape/strides pair into layout flags.
//!
//! A pair is exactly row-major (C-order) when, scanning axes from the right
//! and skipping axes of length at most one, each stride equals the running
//! product of the axis lengths already scanned; column-major (F-order) is
//! the mirror image.  A pair with a zero-length axis holds no elements and
//! counts as contiguous in both orders.  Axes of length at most one are
//! ties: they satisfy both orders whatever their stride.

use vstd::prelude::*;

use crate::bitset::LayoutBitset;
use crate::shape::{lemma_prod_nonneg, prod};
use crate::strides::{
    c_stride, c_strides_ok, lemma_prod_skip_step, order_tie, spec_c_strides, spec_is_c_order_for,
    spec_is_f_order_for,
};

verus! {

/// Whether some axis has length zero, making the array empty.
pub open spec fn has_zero_axis(sh: Seq<usize>) -> bool {
    exists|i: int| 0 <= i < sh.len() && sh[i] == 0
}

/// The row-major contiguity scan over axes `0 .. i`, moving right to left
/// with `expected` as the stride the next effective axis must carry.
pub open spec fn c_contig_from(sh: Seq<usize>, st: Seq<isize>, i: int, expected: int) -> bool
    decreases i,
{
    if i <= 0 {
        true
    } else if sh[i - 1] <= 1 {
        c_contig_from(sh, st, i - 1, expected)
    } else {
        st[i - 1] == expected && c_contig_from(sh, st, i - 1, expected * sh[i - 1])
    }
}

/// The column-major contiguity scan over axes `i ..`, moving left to right
/// with `expected` as the stride the next effective axis must carry.
pub open spec fn f_contig_from(sh: Seq<usize>, st: Seq<isize>, i: int, expected: int) -> bool
    decreases sh.len() - i,
{
    if i >= sh.len() {
        true
    } else if sh[i] <= 1 {
        f_contig_from(sh, st, i + 1, expected)
    } else {
        st[i] == expected && f_contig_from(sh, st, i + 1, expected * sh[i])
    }
}

/// Whether the pair is exactly row-major contiguous.
pub open spec fn spec_is_layout_c(sh: Seq<usize>, st: Seq<isize>) -> bool {
    has_zero_axis(sh) || c_contig_from(sh, st, sh.len() as int, 1)
}

/// Whether the pair is exactly column-major contiguous.
pub open spec fn spec_is_layout_f(sh: Seq<usize>, st: Seq<isize>) -> bool {
    has_zero_axis(sh) || f_contig_from(sh, st, 0, 1)
}

/// How many axes have a length above one; only these distinguish the
/// traversal orders.
pub open spec fn count_effective(sh: Seq<usize>) -> int
    decreases sh.len(),
{
    if sh.len() == 0 {
        0
    } else {
        count_effective(sh.drop_last()) + if sh.last() > 1 {
            1int
        } else {
            0int
        }
    }
}

/// The stride of the leftmost axis of length above one from position `i` on.
pub open spec fn first_eff_stride_from(sh: Seq<usize>, st: Seq<isize>, i: int) -> Option<isize>
    decreases sh.len() - i,
{
    if i >= sh.len() {
        None
    } else if sh[i] > 1 {
        Some(st[i])
    } else {
        first_eff_stride_from(sh, st, i + 1)
    }
}

/// The stride of the rightmost axis of length above one below position `i`.
pub open spec fn last_eff_stride_from(sh: Seq<usize>, st: Seq<isize>, i: int) -> Option<isize>
    decreases i,
{
    if i <= 0 {
        None
    } else if sh[i - 1] > 1 {
        Some(st[i - 1])
    } else {
        last_eff_stride_from(sh, st, i - 1)
    }
}

/// The layout flags of a shape/strides pair.
///
/// An exactly contiguous pair with at most one effective axis satisfies all
/// four flags; otherwise exact contiguity in one order carries the matching
/// preference with it.  A non-contiguous pair still prefers column-major
/// traversal when its first effective axis is unit-strided, or row-major
/// traversal when its last effective axis is, and has no particular layout
/// otherwise.
pub open spec fn spec_classify(sh: Seq<usize>, st: Seq<isize>) -> LayoutBitset {
    if spec_is_layout_c(sh, st) {
        if count_effective(sh) <= 1 {
            LayoutBitset { corder: true, forder: true, cprefer: true, fprefer: true }
        } else {
            LayoutBitset { corder: true, forder: false, cprefer: true, fprefer: false }
        }
    } else if spec_is_layout_f(sh, st) {
        LayoutBitset { corder: false, forder: true, cprefer: false, fprefer: true }
    } else if first_eff_stride_from(sh, st, 0) == Some(1isize) {
        LayoutBitset { corder: false, forder: false, cprefer: false, fprefer: true }
    } else if last_eff_stride_from(sh, st, sh.len() as int) == Some(1isize) {
        LayoutBitset { corder: false, forder: false, cprefer: true, fprefer: false }
    } else {
        LayoutBitset { corder: false, forder: false, cprefer: false, fprefer: false }
    }
}

/// Whether some axis length is zero.
fn has_zero(shape: &[usize]) -> (r: bool)
    ensures
        r == has_zero_axis(shape@),
{
    let n = shape.len();
    let mut i: usize = 0;
    while i < n
        invariant
            0 <= i <= n,
            n == shape@.len(),
            forall|j: int| 0 <= j < i ==> shape@[j] != 0,
        decreases n - i,
    {
        if shape[i] == 0 {
            return true;
        }
        i += 1;
    }
    false
}

/// Once the expected stride exceeds the signed range, no axis can carry it,
/// so the scan succeeds only if no effective axis remains.
proof fn lemma_c_contig_big_expected(sh: Seq<usize>, st: Seq<isize>, i: int, expected: int)
    requires
        st.len() == sh.len(),
        0 <= i <= sh.len(),
        expected > isize::MAX as int,
    ensures
        c_contig_from(sh, st, i, expected) == (forall|j: int| 0 <= j < i ==> sh[j] <= 1),
    decreases i,
{
    if i > 0 {
        if sh[i - 1] <= 1 {
            lemma_c_contig_big_expected(sh, st, i - 1, expected);
        } else {
            assert(st[i - 1] as int <= isize::MAX as int);
            assert(!c_contig_from(sh, st, i, expected));
            assert(!(forall|j: int| 0 <= j < i ==> sh[j] <= 1)) by {
                assert(0 <= i - 1 < i && sh[i - 1] > 1);
            }
        }
    }
}

/// The mirror of the lemma above, for the column-major scan.
proof fn lemma_f_contig_big_expected(sh: Seq<usize>, st: Seq<isize>, i: int, expected: int)
    requires
        st.len() == sh.len(),
        0 <= i <= sh.len(),
        expected > isize::MAX as int,
    ensures
        f_contig_from(sh, st, i, expected) == (forall|j: int| i <= j < sh.len() ==> sh[j] <= 1),
    decreases sh.len() - i,
{
    if i < sh.len() {
        if sh[i] <= 1 {
            lemma_f_contig_big_expected(sh, st, i + 1, expected);
        } else {
            assert(st[i] as int <= isize::MAX as int);
            assert(!(forall|j: int| i <= j < sh.len() ==> sh[j] <= 1)) by {
                assert(i <= i < sh.len() && sh[i] > 1);
            }
        }
    }
}

/// Whether the pair is exactly row-major contiguous: scanning from the
/// right and skipping axes of length at most one, each effective stride
/// equals the running product of the effective lengths already passed.
pub fn is_layout_c(shape: &[usize], strides: &[isize]) -> (r: bool)
    requires
        shape@.len() == strides@.len(),
    ensures
        r == spec_is_layout_c(shape@, strides@),
{
    if has_zero(shape) {
        return true;
    }
    let n = shape.len();
    let mut i: usize = n;
    let mut expected: isize = 1;
    let mut overflowed = false;
    let ghost mut exp_math: int = 1;
    while i > 0
        invariant
            0 <= i <= n,
            n == shape@.len(),
            n == strides@.len(),
            !has_zero_axis(shape@),
            c_contig_from(shape@, strides@, n as int, 1) == c_contig_from(
                shape@,
                strides@,
                i as int,
                exp_math,
            ),
            !overflowed ==> exp_math == expected as int,
            overflowed ==> exp_math > isize::MAX as int,
            expected >= 1,
            exp_math >= 1,
        decreases i,
    {
        let len_i = shape[i - 1];
        if len_i > 1 {
            if overflowed {
                proof {
                    lemma_c_contig_big_expected(shape@, strides@, i as int, exp_math);
                    assert(0 <= i - 1 < i && shape@[i as int - 1] > 1);
                }
                return false;
            }
            if strides[i - 1] != expected {
                return false;
            }
            proof {
                exp_math = exp_math * (len_i as int);
                assert(exp_math >= expected as int && exp_math >= len_i as int)
                    by (nonlinear_arith)
                    requires
                        exp_math == (expected as int) * (len_i as int),
                        expected as int >= 1,
                        len_i as int >= 2,
                ;
            }
            if len_i > (isize::MAX as usize) {
                overflowed = true;
            } else {
                match expected.checked_mul(len_i as isize) {
                    Some(next) => {
                        expected = next;
                    },
                    None => {
                        overflowed = true;
                    },
                }
            }
        }
        i -= 1;
    }
    true
}

/// Whether the pair is exactly column-major contiguous: the mirror scan,
/// from the left.
pub fn is_layout_f(shape: &[usize], strides: &[isize]) -> (r: bool)
    requires
        shape@.len() == strides@.len(),
    ensures
        r == spec_is_layout_f(shape@, strides@),
{
    if has_zero(shape) {
        return true;
    }
    let n = shape.len();
    let mut i: usize = 0;
    let mut expected: isize = 1;
    let mut overflowed = false;
    let ghost mut exp_math: int = 1;
    while i < n
        invariant
            0 <= i <= n,
            n == shape@.len(),
            n == strides@.len(),
            !has_zero_axis(shape@),
            f_contig_from(shape@, strides@, 0, 1) == f_contig_from(
                shape@,
                strides@,
                i as int,
                exp_math,
            ),
            !overflowed ==> exp_math == expected as int,
            overflowed ==> exp_math > isize::MAX as int,
            expected >= 1,
            exp_math >= 1,
        decreases n - i,
    {
        let len_i = shape[i];
        if len_i > 1 {
            if overflowed {
                proof {
                    lemma_f_contig_big_expected(shape@, strides@, i as int, exp_math);
                    assert(i <= i < n && shape@[i as int] > 1);
                }
                return false;
            }
            if strides[i] != expected {
                return false;
            }
            proof {
                exp_math = exp_math * (len_i as int);
                assert(exp_math >= expected as int && exp_math >= len_i as int)
                    by (nonlinear_arith)
                    requires
                        exp_math == (expected as int) * (len_i as int),
                        expected as int >= 1,
                        len_i as int >= 2,
                ;
            }
            if len_i > (isize::MAX as usize) {
                overflowed = true;
            } else {
                match expected.checked_mul(len_i as isize) {
                    Some(next) => {
                        expected = next;
                    },
                    None => {
                        overflowed = true;
                    },
                }
            }
        }
        i += 1;
    }
    true
}

/// How many axes have a length above one.
pub fn count_effective_axes(shape: &[usize]) -> (r: usize)
    ensures
        r as int == count_effective(shape@),
{
    let n = shape.len();
    let mut count: usize = 0;
    let mut i: usize = 0;
    while i < n
        invariant
            0 <= i <= n,
            n == shape@.len(),
            count as int == count_effective(shape@.take(i as int)),
            count <= i,
        decreases n - i,
    {
        proof {
            assert(shape@.take(i as int + 1).drop_last() =~= shape@.take(i as int));
        }
        if shape[i] > 1 {
            count += 1;
        }
        i += 1;
    }
    proof {
        assert(shape@.take(n as int) =~= shape@);
    }
    count
}

/// The stride of the leftmost axis of length above one, if any.
fn first_eff_stride(shape: &[usize], strides: &[isize]) -> (r: Option<isize>)
    requires
        shape@.len() == strides@.len(),
    ensures
        r == first_eff_stride_from(shape@, strides@, 0),
{
    let n = shape.len();
    let mut i: usize = 0;
    while i < n
        invariant
            0 <= i <= n,
            n == shape@.len(),
            n == strides@.len(),
            first_eff_stride_from(shape@, strides@, 0) == first_eff_stride_from(
                shape@,
                strides@,
                i as int,
            ),
        decreases n - i,
    {
        if shape[i] > 1 {
            return Some(strides[i]);
        }
        i += 1;
    }
    None
}

/// The stride of the rightmost axis of length above one, if any.
fn last_eff_stride(shape: &[usize], strides: &[isize]) -> (r: Option<isize>)
    requires
        shape@.len() == strides@.len(),
    ensures
        r == last_eff_stride_from(shape@, strides@, shape@.len() as int),
{
    let n = shape.len();
    let mut i: usize = n;
    while i > 0
        invariant
            0 <= i <= n,
            n == shape@.len(),
            n == strides@.len(),
            last_eff_stride_from(shape@, strides@, n as int) == last_eff_stride_from(
                shape@,
                strides@,
                i as int,
            ),
        decreases i,
    {
        if shape[i - 1] > 1 {
            return Some(strides[i - 1]);
        }
        i -= 1;
    }
    None
}

/// Compute the layout flags of a shape/strides pair.
///
/// The result is a pure function of the pair: classifying the same pair
/// again, with no intervening mutation, returns identical flags.
pub fn classify(shape: &[usize], strides: &[isize]) -> (r: LayoutBitset)
    requires
        shape@.len() == strides@.len(),
    ensures
        r == spec_classify(shape@, strides@),
{
    if is_layout_c(shape, strides) {
        if count_effective_axes(shape) <= 1 {
            LayoutBitset::one_dimensional()
        } else {
            LayoutBitset::c()
        }
    } else if is_layout_f(shape, strides) {
        LayoutBitset::f()
    } else {
        let first = first_eff_stride(shape, strides);
        if first == Some(1isize) {
            LayoutBitset::fpref()
        } else {
            let last = last_eff_stride(shape, strides);
            if last == Some(1isize) {
                LayoutBitset::cpref()
            } else {
                LayoutBitset::none()
            }
        }
    }
}

/// Classification is a function of the shape/strides pair alone: two
/// classifications of the same pair, with no intervening mutation, are
/// identical.
pub proof fn lemma_classify_deterministic(
    sh: Seq<usize>,
    st: Seq<isize>,
    r1: LayoutBitset,
    r2: LayoutBitset,
)
    requires
        r1 == spec_classify(sh, st),
        r2 == spec_classify(sh, st),
    ensures
        r1 == r2,
{
}


/// The effective-axis count is never negative.
proof fn lemma_count_nonneg(sh: Seq<usize>)
    ensures
        count_effective(sh) >= 0,
    decreases sh.len(),
{
    if sh.len() > 0 {
        lemma_count_nonneg(sh.drop_last());
    }
}

/// One axis longer than one makes the effective-axis count at least one.
proof fn lemma_count_one_effective(sh: Seq<usize>, i: int)
    requires
        0 <= i < sh.len(),
        sh[i] > 1,
    ensures
        count_effective(sh) >= 1,
    decreases sh.len(),
{
    lemma_count_nonneg(sh.drop_last());
    if i < sh.len() - 1 {
        lemma_count_one_effective(sh.drop_last(), i);
    }
}

/// Two axes longer than one make the effective-axis count at least two.
proof fn lemma_count_two_effective(sh: Seq<usize>, i: int, j: int)
    requires
        0 <= i < j < sh.len(),
        sh[i] > 1,
        sh[j] > 1,
    ensures
        count_effective(sh) >= 2,
    decreases sh.len(),
{
    if j == sh.len() - 1 {
        lemma_count_one_effective(sh.drop_last(), i);
    } else {
        lemma_count_two_effective(sh.drop_last(), i, j);
    }
}

/// A product of all-one axis lengths is one.
proof fn lemma_prod_ones(s: Seq<usize>)
    requires
        forall|j: int| 0 <= j < s.len() ==> s[j] == 1,
    ensures
        prod(s) == 1,
    decreases s.len(),
{
    if s.len() > 0 {
        lemma_prod_ones(s.drop_last());
    }
}

/// The column-major scan succeeds over a tail of degenerate axes,
/// whatever stride it expects.
proof fn lemma_f_contig_all_small(sh: Seq<usize>, st: Seq<isize>, i: int, expected: int)
    requires
        0 <= i <= sh.len(),
        forall|j: int| i <= j < sh.len() ==> sh[j] <= 1,
    ensures
        f_contig_from(sh, st, i, expected),
    decreases sh.len() - i,
{
    if i < sh.len() {
        lemma_f_contig_all_small(sh, st, i + 1, expected);
    }
}

/// A shape with at most one axis longer than one satisfies both ordering
/// queries under any strides at all: every other axis is a tie, and a
/// single effective axis has nothing to be out of order with.
pub proof fn lemma_degenerate_both_ordered(sh: Seq<usize>, st: Seq<isize>)
    requires
        st.len() == sh.len(),
        count_effective(sh) <= 1,
    ensures
        spec_is_c_order_for(sh, st),
        spec_is_f_order_for(sh, st),
{
    assert forall|i: int, j: int|
        #![trigger st[i], st[j]]
        0 <= i < j < st.len() && !order_tie(sh[i], st[i]) && !order_tie(sh[j], st[j])
            implies st[i] == st[j] by {
        lemma_count_two_effective(sh, i, j);
    }
}

/// The row-major scan accepts the row-major default strides: at each
/// position the expected stride is exactly the product of the axis
/// lengths to the right.
proof fn lemma_c_contig_default(sh: Seq<usize>, i: int)
    requires
        0 <= i <= sh.len(),
        c_strides_ok(sh),
        forall|j: int| 0 <= j < sh.len() ==> sh[j] >= 1,
    ensures
        c_contig_from(sh, spec_c_strides(sh), i, prod(sh.skip(i))),
    decreases i,
{
    if i > 0 {
        lemma_prod_skip_step(sh, i - 1);
        lemma_prod_nonneg(sh.skip(i));
        lemma_c_contig_default(sh, i - 1);
        let st = spec_c_strides(sh);
        if sh[i - 1] <= 1 {
            assert(prod(sh.skip(i - 1)) == prod(sh.skip(i))) by {
                assert((1int) * prod(sh.skip(i)) == prod(sh.skip(i))) by (nonlinear_arith);
            }
        } else {
            assert(st[i - 1] as int == c_stride(sh, i - 1));
            assert(prod(sh.skip(i)) * (sh[i - 1] as int) == (sh[i - 1] as int) * prod(
                sh.skip(i),
            )) by (nonlinear_arith);
        }
    }
}

/// A shape laid out with its row-major default strides is exactly
/// row-major contiguous; a rank-zero layout is so whatever its strides.
pub proof fn lemma_default_c_is_layout_c(sh: Seq<usize>, st: Seq<isize>)
    requires
        c_strides_ok(sh),
    ensures
        spec_is_layout_c(sh, spec_c_strides(sh)),
        sh.len() == 0 ==> spec_is_layout_c(sh, st),
{
    if !has_zero_axis(sh) {
        assert(forall|j: int| 0 <= j < sh.len() ==> sh[j] >= 1);
        lemma_c_contig_default(sh, sh.len() as int);
        assert(sh.skip(sh.len() as int) =~= Seq::<usize>::empty());
    }
}

/// A shape with at most one axis longer than one, laid out with its
/// row-major default strides, is exactly contiguous in both orders at
/// once: the degenerate, effectively one-dimensional case.
pub proof fn lemma_degenerate_both_orders(sh: Seq<usize>)
    requires
        c_strides_ok(sh),
        count_effective(sh) <= 1,
    ensures
        spec_is_layout_c(sh, spec_c_strides(sh)),
        spec_is_layout_f(sh, spec_c_strides(sh)),
{
    lemma_default_c_is_layout_c(sh, spec_c_strides(sh));
    if !has_zero_axis(sh) {
        assert(forall|j: int| 0 <= j < sh.len() ==> sh[j] >= 1);
        lemma_f_contig_default_degenerate(sh, 0);
    }
}

/// The column-major scan accepts the row-major default strides of a shape
/// with at most one effective axis, starting anywhere left of that axis.
proof fn lemma_f_contig_default_degenerate(sh: Seq<usize>, i: int)
    requires
        0 <= i <= sh.len(),
        c_strides_ok(sh),
        count_effective(sh) <= 1,
        forall|j: int| 0 <= j < sh.len() ==> sh[j] >= 1,
    ensures
        f_contig_from(sh, spec_c_strides(sh), i, 1),
    decreases sh.len() - i,
{
    if i < sh.len() {
        if sh[i] <= 1 {
            lemma_f_contig_default_degenerate(sh, i + 1);
        } else {
            // All other axes are degenerate, else there would be two
            // effective axes.
            assert forall|j: int| i + 1 <= j < sh.len() implies sh[j] <= 1 by {
                if sh[j] > 1 {
                    lemma_count_two_effective(sh, i, j);
                }
            }
            assert forall|j: int| 0 <= j < sh.skip(i + 1).len() implies #[trigger] sh.skip(
                i + 1,
            )[j] == 1 by {
                assert(sh.skip(i + 1)[j] == sh[i + 1 + j]);
            }
            lemma_prod_ones(sh.skip(i + 1));
            assert(spec_c_strides(sh)[i] as int == c_stride(sh, i));
            assert(c_stride(sh, i) == 1);
            lemma_f_contig_all_small(sh, spec_c_strides(sh), i + 1, 1 * (sh[i] as int));
        }
    }
}

} // verus!
