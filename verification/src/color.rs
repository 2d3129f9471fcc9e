//! The two sides of a match, and the `Neither` sentinel for empty points.

use vstd::prelude::*;

use crate::error::BackgammonError;

verus! {

/// One die face, `1..=6`; the value `0` marks an unset or spent dice slot.
pub type Die = u8;

/// A side of the match.  `Neither` marks an empty point and is invalid as an
/// operand of the direction, opponent and index helpers, which fail on it
/// rather than defaulting.
#[derive(Clone, Copy, Debug, PartialEq, Eq, Structural)]
pub enum Color {
    Neither,
    White,
    Black,
}

/// The index of a color's slot in per-color pairs such as the borne-off
/// counters: White is slot 0, Black slot 1.
pub open spec fn slot_of(c: Color) -> int {
    match c {
        Color::White => 0,
        Color::Black => 1,
        Color::Neither => 0,
    }
}

/// The opposing side; meaningful only for White and Black.
pub open spec fn opponent_of(c: Color) -> Color {
    match c {
        Color::White => Color::Black,
        Color::Black => Color::White,
        Color::Neither => Color::Neither,
    }
}

/// The bar slot of a color: index 0 for White, 25 for Black.
pub open spec fn bar_index_of(c: Color) -> int {
    match c {
        Color::White => 0,
        Color::Black => 25,
        Color::Neither => 0,
    }
}

/// True for the two definite sides.
pub open spec fn is_side(c: Color) -> bool {
    c == Color::White || c == Color::Black
}

impl Color {
    /// Slot of this color in per-color pairs; fails on `Neither`.
    pub fn index(&self) -> (r: Result<usize, BackgammonError>)
        ensures
            is_side(*self) ==> r == Ok::<usize, BackgammonError>(slot_of(*self) as usize),
            *self == Color::Neither ==> r == Err::<usize, BackgammonError>(
                BackgammonError::InvalidColor,
            ),
    {
        match self {
            Color::Neither => Err(BackgammonError::InvalidColor),
            Color::White => Ok(0),
            Color::Black => Ok(1),
        }
    }

    /// The opposing side; fails on `Neither`.
    pub fn opponent(&self) -> (r: Result<Color, BackgammonError>)
        ensures
            is_side(*self) ==> r == Ok::<Color, BackgammonError>(opponent_of(*self)),
            *self == Color::Neither ==> r == Err::<Color, BackgammonError>(
                BackgammonError::InvalidColor,
            ),
    {
        match self {
            Color::Neither => Err(BackgammonError::InvalidColor),
            Color::White => Ok(Color::Black),
            Color::Black => Ok(Color::White),
        }
    }

    /// Direction of travel along the point indices: +1 for White, -1 for
    /// Black, 0 for `Neither`.
    pub fn sign(color: Color) -> (r: i32)
        ensures
            r == match color {
                Color::Neither => 0int,
                Color::White => 1int,
                Color::Black => -1int,
            },
    {
        match color {
            Color::Neither => 0,
            Color::White => 1,
            Color::Black => -1,
        }
    }

    /// The slot just past a color's end of the board, from which distances
    /// are measured; the board's midpoint for `Neither`.
    pub fn middle_point_index(color: Color) -> (r: usize)
        ensures
            r == match color {
                Color::Neither => 13int,
                Color::White => 0int,
                Color::Black => 25int,
            },
    {
        match color {
            Color::Neither => 13,
            Color::White => 0,
            Color::Black => 25,
        }
    }

    /// The color's display name.
    pub fn to_string(&self) -> (r: &'static str)
        ensures
            *self == Color::Neither ==> r@ == "None"@,
            *self == Color::White ==> r@ == "White"@,
            *self == Color::Black ==> r@ == "Black"@,
    {
        match self {
            Color::Neither => "None",
            Color::White => "White",
            Color::Black => "Black",
        }
    }

    /// The color's bar slot; fails on `Neither`.
    pub fn get_bar_index(&self) -> (r: Result<usize, BackgammonError>)
        ensures
            is_side(*self) ==> r == Ok::<usize, BackgammonError>(bar_index_of(*self) as usize),
            *self == Color::Neither ==> r == Err::<usize, BackgammonError>(
                BackgammonError::InvalidColor,
            ),
    {
        match self {
            Color::White => Ok(0),
            Color::Black => Ok(25),
            Color::Neither => Err(BackgammonError::InvalidColor),
        }
    }
}

impl Default for Color {
    /// A fresh color slot holds the `Neither` sentinel.
    fn default() -> (r: Self)
        ensures
            r == Color::Neither,
    {
        Color::Neither
    }
}

} // verus!
