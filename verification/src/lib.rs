//! Rules engine for a two-player backgammon match.
//!
//! The engine tracks match state, validates and applies dice-driven moves,
//! enforces the doubling-cube protocol, and counts the legal moves available
//! each turn.  It works on plain data values only: the caller supplies a
//! previously loaded match record, an identity-to-color resolution, and a
//! dice source, and receives back an updated record or a typed failure.
//! Persistence, signature checking, and transport belong to the host.

pub mod board;
pub mod color;
pub mod error;
pub mod game;
pub mod instruction;
