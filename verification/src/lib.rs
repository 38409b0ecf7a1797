//! Rules engine of a multi-player territory-placement board game.
//!
//! Players take turns placing polyomino pieces on a shared grid. A placement
//! is legal when every covered cell is free, no covered cell shares an edge
//! with a cell of the same player, and the piece either covers a grid corner
//! (a player's first move) or touches a cell of the same player diagonally
//! (every later move).

pub mod board;
pub mod error;
pub mod game;
pub mod piece;
pub mod player;
pub mod position;
pub mod shape;
pub mod viewport;

pub use board::{Board, State};
pub use error::GameError;
pub use game::{Game, Players};
pub use piece::Piece;
pub use player::Player;
pub use position::Position;
