//! Rule engine of a Minesweeper game: board generation, cascading reveal,
//! flag management and win/lose detection, with every rule proved against a
//! mathematical model of the board.

pub mod board;
pub mod cascade;
pub mod engine;
pub mod geometry;
pub mod laws;
pub mod layout;
pub mod random;

pub use board::{Board, ConfigError, GameState, Point};
pub use engine::Minesweeper;
