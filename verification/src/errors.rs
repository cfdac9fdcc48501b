//! Failure kinds surfaced by the array engine.

use vstd::prelude::*;

verus! {

/// Everything that an engine operation can report instead of a result.
///
/// Every operation is deterministic and pure with respect to its inputs, so
/// each variant identifies exactly the condition that produced it.
#[derive(Clone, Copy, Debug, PartialEq, Eq, Structural)]
pub enum NdarrayError {
    /// An index sequence whose length differs from the array's dimensionality.
    DimensionMismatch,
    /// A reshape to a shape whose element count differs from the current one.
    ShapeMismatch,
    /// A slice range with other than two or three components.
    SliceArityError,
    /// A mutation request on a buffer that more than one handle holds.
    AliasingError,
    /// An adapter value of unrecognized shape or type.
    UnsupportedKindError,
}

} // verus!
