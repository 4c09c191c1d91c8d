//! A generalized tic-tac-toe engine: a rectangular board, win detection over
//! rows, columns and the two corner diagonals, and an exhaustive minimax
//! search that picks the best reply for a player.

pub mod game;
pub mod grid;
pub mod lines;
pub mod marking;
pub mod search;
pub mod win;

pub use game::Board;
pub use marking::{Cell, CellMarking, Move};
