//! The two ways an operation can be undefined.

use vstd::prelude::*;

verus! {

/// Why an operation has no result.
#[derive(Clone, Copy, Debug, PartialEq, Eq, Structural)]
pub enum GeometryError {
    /// A direction was asked of the zero vector.
    UndefinedNormalization,
    /// A polygon has fewer vertices than the operation consumes.
    InsufficientVertices,
}

} // verus!
