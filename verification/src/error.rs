//! The ways in which building a frame fails.

use vstd::prelude::*;

verus! {

/// Why no frame could be built.
#[derive(Clone, Copy, Debug, PartialEq, Eq, Structural)]
pub enum FrameError {
    /// A header row index is not below the number of rows; it holds the
    /// index.
    OutOfBounds(usize),
    /// No header row was named, or one was named twice.
    InvalidConfiguration,
    /// The first header row has no cells, so there would be no columns.
    EmptyHeaderRow,
    /// A data row does not have one value for each column.
    ShapeMismatch,
}

} // verus!
