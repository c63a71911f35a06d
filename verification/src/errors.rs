use vstd::prelude::*;
use crate::coords::{coords_text, CoordValue, Coords};
use crate::text::{decimal, push_decimal};

verus! {

/// The reason why a move was refused.
#[derive(Debug, PartialEq)]
pub enum InvalidMove {
    /// The game has ended, thus no further move is possible.
    GameOver,
    /// The player attempted to play on coordinates that are not on the game's board.
    OutOfBounds(Coords),
    /// The player attempted to play on coordinates that are already occupied.
    CellOccupied(Coords),
}

/// The reason why a board or a game could not be loaded from stored data.
#[derive(Debug, PartialEq, Eq)]
pub enum InvalidBoard {
    /// The size of the stored board is not supported. The values are: the
    /// size of the stored data, the minimal and the maximal supported size.
    SizeOutOfBounds(usize, CoordValue, CoordValue),
    /// The stored board is not square: at least one row has more or fewer
    /// entries than there are rows. The values are: the index of the first
    /// such row and the number of rows.
    NotSquare(CoordValue, CoordValue),
    /// No current player was given, although the game has not yet finished.
    NoCurrentPlayer,
}

impl InvalidMove {
    /// Whether the column of the coordinates that the error names has a
    /// character in the "c4" format.
    pub open spec fn has_text(&self) -> bool {
        match self {
            InvalidMove::GameOver => true,
            InvalidMove::OutOfBounds(coords) => 'a' as int + coords.column <= u8::MAX,
            InvalidMove::CellOccupied(coords) => 'a' as int + coords.column <= u8::MAX,
        }
    }

    /// What the error says.
    pub open spec fn text(&self) -> Seq<char> {
        match self {
            InvalidMove::GameOver => "Game has ended"@,
            InvalidMove::OutOfBounds(coords) => "Coordinates "@ + coords_text(*coords)
                + " are out of bounds"@,
            InvalidMove::CellOccupied(coords) => "Cell "@ + coords_text(*coords)
                + " is already occupied"@,
        }
    }

    /// Return what the error says.
    pub fn to_string(&self) -> (text: String)
        requires
            self.has_text(),
        ensures
            text@ == self.text(),
    {
        match self {
            InvalidMove::GameOver => "Game has ended".to_owned(),
            InvalidMove::OutOfBounds(coords) => {
                let mut text = "Coordinates ".to_owned();
                text.append(coords.to_string().as_str());
                text.append(" are out of bounds");
                text
            },
            InvalidMove::CellOccupied(coords) => {
                let mut text = "Cell ".to_owned();
                text.append(coords.to_string().as_str());
                text.append(" is already occupied");
                text
            },
        }
    }
}

impl InvalidBoard {
    /// What the error says.
    pub open spec fn text(&self) -> Seq<char> {
        match self {
            InvalidBoard::SizeOutOfBounds(size, min, max) => "Board size must be between "@
                + decimal(*min as nat) + " and "@ + decimal(*max as nat) + ". Found "@ + decimal(
                *size as nat,
            ),
            InvalidBoard::NotSquare(row, size) => "Length of row "@ + decimal(*row as nat)
                + " does not match board size "@ + decimal(*size as nat),
            InvalidBoard::NoCurrentPlayer =>
                "No current player given, but game has not yet finished"@,
        }
    }

    /// Return what the error says.
    pub fn to_string(&self) -> (text: String)
        ensures
            text@ == self.text(),
    {
        match self {
            InvalidBoard::SizeOutOfBounds(size, min, max) => {
                let mut text = "Board size must be between ".to_owned();
                push_decimal(&mut text, *min as usize);
                text.append(" and ");
                push_decimal(&mut text, *max as usize);
                text.append(". Found ");
                push_decimal(&mut text, *size);
                text
            },
            InvalidBoard::NotSquare(row, size) => {
                let mut text = "Length of row ".to_owned();
                push_decimal(&mut text, *row as usize);
                text.append(" does not match board size ");
                push_decimal(&mut text, *size as usize);
                text
            },
            InvalidBoard::NoCurrentPlayer =>
                "No current player given, but game has not yet finished".to_owned(),
        }
    }
}

} // verus!
