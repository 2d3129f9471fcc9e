//! The operation classes a host submits against a match record.  Decoding
//! them from transport bytes is the host's job; the engine only defines the
//! shapes and acts on already-decoded values.

use vstd::prelude::*;

use crate::board::Move;

verus! {

/// One submitted operation.
#[derive(Clone, Copy, Debug, PartialEq)]
pub enum BackgammonInstruction {
    /// Set up the match record.
    InitGame { game_id: u64 },
    /// Decline to double and roll instead.
    SkipDouble {},
    /// Offer the doubling cube.
    RequestDouble {},
    /// Answer a pending double.
    RespondToDouble { accept: bool },
    /// Apply a batch of up to four moves.
    ApplyMoves { moves: [Move; 4] },
}

} // verus!
