//! The ways in which a request to a grid can be refused.

use vstd::prelude::*;

verus! {

/// Why a grid refused a request.
#[derive(Debug, Clone, Copy, PartialEq, Eq, Structural)]
pub enum GridError {
    /// A grid was asked for with a dimension that is negative or too large
    /// to count.
    InvalidDimension,
    /// A coordinate names no cell of the grid.
    OutOfBounds,
}

/// A number of rows or columns that a grid can have.
pub open spec fn valid_dimension(n: int) -> bool {
    0 <= n <= u32::MAX
}

} // verus!
