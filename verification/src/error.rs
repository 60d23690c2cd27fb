//! The ways in which an operation on a grid can fail.

use vstd::prelude::*;

verus! {

/// Why a grid could not be built or a route could not be traced.
#[derive(Copy, Clone, PartialEq, Eq, Debug, Structural)]
pub enum GridError {
    /// A grid was asked for with no symbols to place.
    EmptyInput,
    /// The cell at the start of a route does not hold the first symbol.
    InvalidStart,
    /// No occupied neighbour of the current cell holds the next symbol.
    PathNotFound,
}

} // verus!
