//! Rank descriptors: how many axes a value has, when that is known at
//! build time, and the algebra for combining two descriptors.

use vstd::prelude::*;

verus! {

/// The largest rank that may be declared as known at build time; anything
/// above it degrades to the dynamic marker rather than wrapping.
pub const MAX_FIXED_RANK: usize = 12;

/// A rank descriptor: either a rank known at build time, or the marker for
/// a rank that can only be known at run time.
#[derive(Debug, Clone, Copy, PartialEq, Eq, Structural)]
pub enum Dimensionality {
    /// The rank is known at build time and has this value.
    NDim(usize),
    /// The rank cannot be known before run time.
    DDyn,
}

/// What combining two descriptors for broadcasting yields: two equal fixed
/// values within the ceiling keep that value; different fixed values, a
/// fixed value beyond the ceiling, or any dynamic operand yield the
/// dynamic marker.
pub open spec fn spec_dmax(a: Dimensionality, b: Dimensionality) -> Dimensionality {
    match (a, b) {
        (Dimensionality::NDim(x), Dimensionality::NDim(y)) => {
            if x == y && x <= MAX_FIXED_RANK {
                Dimensionality::NDim(x)
            } else {
                Dimensionality::DDyn
            }
        },
        _ => Dimensionality::DDyn,
    }
}

/// What combining two descriptors for concatenation yields: the sum of two
/// fixed values when it stays within the ceiling; the dynamic marker on
/// any overflow past the ceiling or any dynamic operand.
pub open spec fn spec_dadd(a: Dimensionality, b: Dimensionality) -> Dimensionality {
    match (a, b) {
        (Dimensionality::NDim(x), Dimensionality::NDim(y)) => {
            if x + y <= MAX_FIXED_RANK {
                Dimensionality::NDim((x + y) as usize)
            } else {
                Dimensionality::DDyn
            }
        },
        _ => Dimensionality::DDyn,
    }
}

/// The "maximum" of two rank descriptors, as broadcasting needs it.
pub trait DMax: Sized {
    /// What `dmax` returns.
    spec fn dmax_spec(self, other: Self) -> Self;

    /// Combine two descriptors into the descriptor of a broadcast result.
    fn dmax(self, other: Self) -> (r: Self)
        ensures
            r == self.dmax_spec(other),
    ;
}

/// The "sum" of two rank descriptors, as concatenation needs it.
pub trait DAdd: Sized {
    /// What `dadd` returns.
    spec fn dadd_spec(self, other: Self) -> Self;

    /// Combine two descriptors into the descriptor of a concatenation.
    fn dadd(self, other: Self) -> (r: Self)
        ensures
            r == self.dadd_spec(other),
    ;
}

impl DMax for Dimensionality {
    open spec fn dmax_spec(self, other: Self) -> Self {
        spec_dmax(self, other)
    }

    fn dmax(self, other: Self) -> (r: Self) {
        match (self, other) {
            (Dimensionality::NDim(x), Dimensionality::NDim(y)) => {
                if x == y && x <= MAX_FIXED_RANK {
                    Dimensionality::NDim(x)
                } else {
                    Dimensionality::DDyn
                }
            },
            _ => Dimensionality::DDyn,
        }
    }
}

impl DAdd for Dimensionality {
    open spec fn dadd_spec(self, other: Self) -> Self {
        spec_dadd(self, other)
    }

    fn dadd(self, other: Self) -> (r: Self) {
        match (self, other) {
            (Dimensionality::NDim(x), Dimensionality::NDim(y)) => {
                if x > MAX_FIXED_RANK || y > MAX_FIXED_RANK {
                    Dimensionality::DDyn
                } else if x + y <= MAX_FIXED_RANK {
                    Dimensionality::NDim(x + y)
                } else {
                    Dimensionality::DDyn
                }
            },
            _ => Dimensionality::DDyn,
        }
    }
}

impl Dimensionality {
    /// Whether the descriptor is consistent with an actual axis count: a
    /// fixed descriptor names it exactly, the dynamic marker allows any.
    pub open spec fn matches_rank(self, rank: nat) -> bool {
        match self {
            Dimensionality::NDim(n) => n == rank,
            Dimensionality::DDyn => true,
        }
    }

    /// The rank as a constant, when the descriptor is not dynamic.
    pub fn ndim_opt(self) -> (r: Option<usize>)
        ensures
            r == match self {
                Dimensionality::NDim(n) => Some(n),
                Dimensionality::DDyn => None::<usize>,
            },
    {
        match self {
            Dimensionality::NDim(n) => Some(n),
            Dimensionality::DDyn => None,
        }
    }

    /// Both operations degrade to the dynamic marker rather than ever
    /// truncating a rank: a fixed result only arises from fixed operands
    /// within the ceiling, and then carries exactly the declared value.
    pub proof fn lemma_total_no_truncation(a: Dimensionality, b: Dimensionality)
        ensures
            spec_dmax(a, b) matches Dimensionality::NDim(n) ==> n <= MAX_FIXED_RANK && a
                == Dimensionality::NDim(n) && b == Dimensionality::NDim(n),
            spec_dadd(a, b) matches Dimensionality::NDim(n) ==> (a matches Dimensionality::NDim(
                x,
            ) && b matches Dimensionality::NDim(y) && x + y == n && n <= MAX_FIXED_RANK),
    {
    }
}

/// A value that knows how many axes it stores.
pub trait Dimensioned {
    /// The number of axes the value stores.
    spec fn rank(&self) -> nat;

    /// The structural invariant of the representation; constructors
    /// establish it and every operation preserves it.
    spec fn inv(&self) -> bool;

    /// The rank descriptor of the value: a fixed descriptor always equals
    /// the stored axis count; the dynamic marker carries no claim.
    fn dimality(&self) -> (d: Dimensionality)
        requires
            self.inv(),
        ensures
            d.matches_rank(self.rank()),
    ;

    /// The number of axes, at run time.
    fn ndim(&self) -> (n: usize)
        requires
            self.inv(),
        ensures
            n == self.rank(),
    ;
}

} // verus!
