//! The error type for dealing with shapes and strides.

use vstd::prelude::*;

verus! {

/// The error type for the checked entry points over shapes and strides.
///
/// Every failure of the layout engine is reported as one of these values;
/// none of the checked operations panic.
#[derive(Debug, Clone, Copy, PartialEq, Eq, Structural)]
pub enum ShapeStrideError {
    /// An axis index is larger than the rank of the shape or strides queried.
    OutOfBounds(usize),
    /// An attempt to mutate an axis length that is fixed at build time.
    FixedIndex(usize),
    /// A requested fixed rank does not match the actual rank of a value.
    BadDimality(usize),
    /// A checked element count, byte count or offset range would exceed the
    /// representable signed range.
    ShapeOverflow,
    /// Two shapes cannot be broadcast together; the payload is the axis of
    /// the would-be result at which the lengths differ and neither is one.
    IncompatibleShapes(usize),
}

impl ShapeStrideError {
    /// A short description of the error, for diagnostics.
    pub fn message(&self) -> (r: &'static str)
        ensures
            r@ == self.spec_message(),
    {
        match self {
            ShapeStrideError::OutOfBounds(_) => "axis index is out of bounds for the rank",
            ShapeStrideError::FixedIndex(_) => "cannot mutate an axis that is fixed at build time",
            ShapeStrideError::BadDimality(_) => "rank does not match the requested dimensionality",
            ShapeStrideError::ShapeOverflow => "size or offset range exceeds the signed range",
            ShapeStrideError::IncompatibleShapes(_) => "shapes cannot be broadcast together",
        }
    }

    /// What `message` returns for each variant.
    pub open spec fn spec_message(&self) -> Seq<char> {
        match self {
            ShapeStrideError::OutOfBounds(_) => "axis index is out of bounds for the rank"@,
            ShapeStrideError::FixedIndex(_) => "cannot mutate an axis that is fixed at build time"@,
            ShapeStrideError::BadDimality(_) => "rank does not match the requested dimensionality"@,
            ShapeStrideError::ShapeOverflow => "size or offset range exceeds the signed range"@,
            ShapeStrideError::IncompatibleShapes(_) => "shapes cannot be broadcast together"@,
        }
    }
}

} // verus!
