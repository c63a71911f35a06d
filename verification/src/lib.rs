//! Rules and connectivity engine for the board game Hex.

pub mod attacked_bridges;
pub mod board;
pub mod cells;
pub mod color;
pub mod connectivity;
pub mod coords;
pub mod edges;
pub mod errors;
pub mod format;
pub mod game;
pub mod hex_cells;
pub mod neighbors;
pub mod serialize;
pub mod square_array;
pub mod text;
pub mod union_find;

pub use crate::board::{Board, BoardView, StoneMatrix, MAX_BOARD_SIZE, MIN_BOARD_SIZE};
pub use crate::color::Color;
pub use crate::coords::{CoordValue, Coords};
pub use crate::edges::{CoordsOrEdge, Edge};
pub use crate::errors::{InvalidBoard, InvalidMove};
pub use crate::game::{Game, GameView, Status};
