//! Typed failures of the rules engine.

use vstd::prelude::*;

verus! {

/// Every way a match operation can fail.  All failures are terminal for the
/// attempted operation: the engine either applies an operation in full or
/// leaves the match record unchanged.
#[derive(Clone, Copy, Debug, PartialEq, Eq, Structural)]
pub enum BackgammonError {
    /// The submitted instruction bytes did not decode to an operation.
    InvalidInstruction,
    /// The operation is not legal in the match's current state.
    InvalidState,
    /// The acting color has no permission for this operation right now.
    UnauthorizedAction,
    /// A submitted move violates board legality.
    InvalidMove,
    /// A definite side was required but `Color::None` was supplied.
    InvalidColor,
    /// A point index outside the playing points was passed to a board query.
    InvalidPoint,
}

} // verus!
