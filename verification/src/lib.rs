//! Battleship: a 10x10 board per player, a fleet of four ships, and the
//! rules for placing ships, firing at cells and deciding when a fleet is sunk.
//!
//! Every executable function carries a contract over [`board::BoardView`],
//! the mathematical model of a board.

pub mod position;
pub mod board;
pub mod coordinates;
pub mod laws;
pub mod placement;

pub use coordinates::{parse_coordinates, CoordinateError};
pub use board::{Board, BoardView, BoardVisibility, CellState};
pub use placement::{opponent_move, PlacementFailed, MAX_PLACEMENT_ATTEMPTS};
pub use position::{Orientation, Position, BOARD_SIZE};
