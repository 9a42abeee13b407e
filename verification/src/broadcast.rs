//! The broadcast resolver: the unique minimal common shape of two shapes,
//! and broadcast-view strides against a resolved target shape.

use vstd::prelude::*;

use crate::dyn_repr::{DShape, DStrides, DynAxesRepr};
use crate::error::ShapeStrideError;
use crate::layout::NLayout;

verus! {

/// The axis length of `s` at result axis `i` once `s` is aligned at the
/// trailing end of a rank-`n` result: missing leading axes count as one.
pub open spec fn padded(s: Seq<usize>, n: int, i: int) -> int {
    if i < n - s.len() {
        1
    } else {
        s[i - (n - s.len())] as int
    }
}

/// Two aligned axis lengths can be broadcast together when they are equal
/// or either is one.
pub open spec fn axes_compatible(a: int, b: int) -> bool {
    a == b || a == 1 || b == 1
}

/// The broadcast result of two compatible axis lengths: whichever is not
/// one.
pub open spec fn broadcast_axis(a: int, b: int) -> int {
    if a == 1 {
        b
    } else {
        a
    }
}

/// The rank of the broadcast result: the larger of the two ranks.
pub open spec fn broadcast_rank(a: Seq<usize>, b: Seq<usize>) -> int {
    if a.len() >= b.len() {
        a.len() as int
    } else {
        b.len() as int
    }
}

/// Whether the two shapes can be broadcast together: every pair of
/// trailing-aligned axis lengths is compatible.
pub open spec fn spec_broadcast_ok(a: Seq<usize>, b: Seq<usize>) -> bool {
    forall|i: int|
        0 <= i < broadcast_rank(a, b) ==> axes_compatible(
            padded(a, broadcast_rank(a, b), i),
            padded(b, broadcast_rank(a, b), i),
        )
}

/// The common shape of two broadcastable shapes.
pub open spec fn spec_broadcast_shape(a: Seq<usize>, b: Seq<usize>) -> Seq<usize> {
    Seq::new(
        broadcast_rank(a, b) as nat,
        |i: int|
            broadcast_axis(
                padded(a, broadcast_rank(a, b), i),
                padded(b, broadcast_rank(a, b), i),
            ) as usize,
    )
}

/// Resolve the broadcast of two shapes.
///
/// Axes are aligned from the trailing end; the shorter shape's missing
/// leading axes count as length one.  Each result axis is whichever of the
/// two aligned lengths is not one; the call fails with
/// `IncompatibleShapes` naming the leftmost result axis whose aligned
/// lengths differ with neither being one.
pub fn co_broadcast(a: &[usize], b: &[usize]) -> (r: Result<Vec<usize>, ShapeStrideError>)
    ensures
        r is Ok <==> spec_broadcast_ok(a@, b@),
        r matches Ok(v) ==> v@ == spec_broadcast_shape(a@, b@),
        r matches Err(e) ==> (e matches ShapeStrideError::IncompatibleShapes(i)
            && 0 <= i < broadcast_rank(a@, b@) && !axes_compatible(
            padded(a@, broadcast_rank(a@, b@), i as int),
            padded(b@, broadcast_rank(a@, b@), i as int),
        ) && forall|j: int|
            0 <= j < i ==> axes_compatible(
                padded(a@, broadcast_rank(a@, b@), j),
                padded(b@, broadcast_rank(a@, b@), j),
            )),
{
    let na = a.len();
    let nb = b.len();
    let n = if na >= nb {
        na
    } else {
        nb
    };
    let mut out: Vec<usize> = Vec::new();
    let mut i: usize = 0;
    while i < n
        invariant
            0 <= i <= n,
            na == a@.len(),
            nb == b@.len(),
            n as int == broadcast_rank(a@, b@),
            out@.len() == i,
            forall|j: int|
                0 <= j < i ==> axes_compatible(padded(a@, n as int, j), padded(b@, n as int, j)),
            forall|j: int|
                0 <= j < i ==> out@[j] as int == broadcast_axis(
                    padded(a@, n as int, j),
                    padded(b@, n as int, j),
                ),
        decreases n - i,
    {
        let ai: usize = if i < n - na {
            1
        } else {
            a[i - (n - na)]
        };
        let bi: usize = if i < n - nb {
            1
        } else {
            b[i - (n - nb)]
        };
        if ai == bi || ai == 1 || bi == 1 {
            let c = if ai == 1 {
                bi
            } else {
                ai
            };
            out.push(c);
        } else {
            proof {
                assert(ai as int == padded(a@, n as int, i as int));
                assert(bi as int == padded(b@, n as int, i as int));
                assert(!axes_compatible(
                    padded(a@, n as int, i as int),
                    padded(b@, n as int, i as int),
                ));
            }
            return Err(ShapeStrideError::IncompatibleShapes(i));
        }
        i += 1;
    }
    proof {
        assert(out@ =~= spec_broadcast_shape(a@, b@));
    }
    Ok(out)
}

/// Broadcast resolution is commutative in the resulting shape: whether the
/// two shapes combine, and what shape they combine to, does not depend on
/// the order of the operands.
pub proof fn lemma_broadcast_commutes(a: Seq<usize>, b: Seq<usize>)
    ensures
        spec_broadcast_ok(a, b) == spec_broadcast_ok(b, a),
        spec_broadcast_ok(a, b) ==> spec_broadcast_shape(a, b) == spec_broadcast_shape(b, a),
{
    assert(broadcast_rank(a, b) == broadcast_rank(b, a));
    if spec_broadcast_ok(a, b) {
        assert(spec_broadcast_ok(b, a));
        assert(spec_broadcast_shape(a, b) =~= spec_broadcast_shape(b, a));
    }
    if spec_broadcast_ok(b, a) {
        assert(spec_broadcast_ok(a, b));
    }
}

/// The resolved common shape accepts both of its operands: stretching
/// either operand to the shape `co_broadcast` produced always succeeds,
/// so each operand has a broadcast view against it.
pub proof fn lemma_resolved_shape_accepts_operands(a: Seq<usize>, b: Seq<usize>)
    requires
        spec_broadcast_ok(a, b),
    ensures
        spec_upcast_ok(spec_broadcast_shape(a, b), a),
        spec_upcast_ok(spec_broadcast_shape(a, b), b),
{
    let n = broadcast_rank(a, b);
    let t = spec_broadcast_shape(a, b);
    assert(t.len() == n);
    assert forall|i: int| 0 <= i < a.len() implies (a[i] == t[i + t.len() - a.len()] || a[i]
        == 1) by {
        let k = i + n - a.len();
        assert(padded(a, n, k) == a[i] as int);
        assert(axes_compatible(padded(a, n, k), padded(b, n, k)));
        assert(t[k] as int == broadcast_axis(padded(a, n, k), padded(b, n, k)));
    }
    assert forall|i: int| 0 <= i < b.len() implies (b[i] == t[i + t.len() - b.len()] || b[i]
        == 1) by {
        let k = i + n - b.len();
        assert(padded(b, n, k) == b[i] as int);
        assert(axes_compatible(padded(a, n, k), padded(b, n, k)));
        assert(t[k] as int == broadcast_axis(padded(a, n, k), padded(b, n, k)));
    }
}

/// Whether one shape can be stretched to a resolved target shape: aligned
/// at the trailing end, every axis length must equal the target's or be
/// one.
pub open spec fn spec_upcast_ok(to: Seq<usize>, from: Seq<usize>) -> bool {
    to.len() >= from.len() && forall|i: int|
        0 <= i < from.len() ==> (from[i] == to[i + to.len() - from.len()] || from[i] == 1)
}

/// The strides of the broadcast view of `(from, st)` against target `to`:
/// axes stretched from length one, and the new leading axes, get stride
/// zero so that repeated logical positions read the same stored element.
pub open spec fn spec_upcast_strides(to: Seq<usize>, from: Seq<usize>, st: Seq<isize>) -> Seq<
    isize,
> {
    Seq::new(
        to.len(),
        |i: int|
            if i < to.len() - from.len() {
                0isize
            } else if from[i - (to.len() - from.len())] == to[i] {
                st[i - (to.len() - from.len())]
            } else {
                0isize
            },
    )
}

/// Compute the strides of a broadcast view against a resolved target shape.
///
/// Every axis that was stretched from length one carries stride zero in
/// the view, so all logical positions along it alias one stored element; a
/// view must therefore never be written through along a stretched axis.
/// Returns no value when `from` cannot be stretched to `to`.
pub fn upcast(to: &[usize], from: &[usize], strides: &[isize]) -> (r: Option<Vec<isize>>)
    requires
        from@.len() == strides@.len(),
    ensures
        r is Some <==> spec_upcast_ok(to@, from@),
        r matches Some(v) ==> v@ == spec_upcast_strides(to@, from@, strides@),
{
    let nt = to.len();
    let nf = from.len();
    if nf > nt {
        return None;
    }
    let lead = nt - nf;
    let mut out: Vec<isize> = Vec::new();
    let mut i: usize = 0;
    while i < lead
        invariant
            0 <= i <= lead,
            lead == nt - nf,
            nt == to@.len(),
            nf == from@.len(),
            out@.len() == i,
            forall|j: int| 0 <= j < i ==> out@[j] == 0isize,
        decreases lead - i,
    {
        out.push(0isize);
        i += 1;
    }
    let mut k: usize = 0;
    while k < nf
        invariant
            0 <= k <= nf,
            lead == nt - nf,
            nt == to@.len(),
            nf == from@.len(),
            nf == strides@.len(),
            out@.len() == lead + k,
            forall|j: int| 0 <= j < lead ==> out@[j] == 0isize,
            forall|j: int|
                0 <= j < k ==> (from@[j] == to@[j + lead] || from@[j] == 1),
            forall|j: int|
                0 <= j < k ==> out@[lead + j] == (if from@[j] == to@[j + lead] {
                    strides@[j]
                } else {
                    0isize
                }),
        decreases nf - k,
    {
        let f = from[k];
        let t = to[lead + k];
        if f == t {
            out.push(strides[k]);
        } else if f == 1 {
            out.push(0isize);
        } else {
            return None;
        }
        k += 1;
    }
    proof {
        assert(out@ =~= spec_upcast_strides(to@, from@, strides@));
    }
    Some(out)
}


/// An operand that broadcasting can stretch against a target shape.
///
/// A rank-zero operand (a scalar) broadcasts to every target; an array
/// operand broadcasts when each of its trailing-aligned axes equals the
/// target's or is one.
pub trait Broadcastable {
    /// The operand's shape as broadcasting sees it.
    spec fn bc_shape(&self) -> Seq<usize>;

    /// The operand's strides as broadcasting sees them.
    spec fn bc_strides(&self) -> Seq<isize>;

    /// What the operations require of the operand.
    spec fn bc_inv(&self) -> bool;

    /// The operand carries one stride per axis.
    proof fn bc_rank_matches(&self)
        ensures
            self.bc_shape().len() == self.bc_strides().len(),
    ;

    /// The operand's shape, for resolving a common broadcast shape.
    fn broadcast_dim(&self) -> (r: DShape)
        requires
            self.bc_inv(),
        ensures
            DynAxesRepr::inv(&r),
            DynAxesRepr::view(&r) == self.bc_shape(),
    ;

    /// The strides of the operand's broadcast view against `target`, with
    /// stride zero on every stretched axis, or no value when the operand
    /// cannot be stretched to `target`.  The view aliases one stored
    /// element along each stretched axis and must not be written through
    /// there.
    fn maybe_broadcast(&self, target: &DShape) -> (r: Option<DStrides>)
        requires
            self.bc_inv(),
            DynAxesRepr::inv(target),
        ensures
            (r is Some) == spec_upcast_ok(DynAxesRepr::view(target), self.bc_shape()),
            r matches Some(v) ==> DynAxesRepr::inv(&v) && DynAxesRepr::view(&v)
                == spec_upcast_strides(
                DynAxesRepr::view(target),
                self.bc_shape(),
                self.bc_strides(),
            ),
    ;
}

impl<const N: usize> Broadcastable for NLayout<N> {
    open spec fn bc_shape(&self) -> Seq<usize> {
        self.sh()
    }

    open spec fn bc_strides(&self) -> Seq<isize> {
        self.st()
    }

    open spec fn bc_inv(&self) -> bool {
        true
    }

    proof fn bc_rank_matches(&self) {
        self.lemma_axes_len();
    }

    fn broadcast_dim(&self) -> (r: DShape) {
        DynAxesRepr::from_slice(self.shape().as_slice(), 0)
    }

    fn maybe_broadcast(&self, target: &DShape) -> (r: Option<DStrides>) {
        match upcast(target.as_slice(), self.shape().as_slice(), self.raw_strides().as_slice()) {
            Some(v) => Some(DynAxesRepr::from_slice(v.as_slice(), 0)),
            None => None,
        }
    }
}

/// A vector behaves as a one-dimensional, unit-strided operand.
impl<T> Broadcastable for Vec<T> {
    open spec fn bc_shape(&self) -> Seq<usize> {
        seq![self@.len() as usize]
    }

    open spec fn bc_strides(&self) -> Seq<isize> {
        seq![1isize]
    }

    open spec fn bc_inv(&self) -> bool {
        true
    }

    proof fn bc_rank_matches(&self) {
        assert(self.bc_shape().len() == 1);
        assert(self.bc_strides().len() == 1);
    }

    fn broadcast_dim(&self) -> (r: DShape) {
        let mut d: Vec<usize> = Vec::new();
        d.push(self.len());
        let r = DynAxesRepr::from_slice(d.as_slice(), 0);
        proof {
            assert(d@ =~= seq![self@.len() as usize]);
        }
        r
    }

    fn maybe_broadcast(&self, target: &DShape) -> (r: Option<DStrides>) {
        let mut sh: Vec<usize> = Vec::new();
        sh.push(self.len());
        let mut st: Vec<isize> = Vec::new();
        st.push(1isize);
        proof {
            assert(sh@ =~= self.bc_shape());
            assert(st@ =~= self.bc_strides());
        }
        match upcast(target.as_slice(), sh.as_slice(), st.as_slice()) {
            Some(v) => Some(DynAxesRepr::from_slice(v.as_slice(), 0)),
            None => None,
        }
    }
}

} // verus!
