//! A verified tic-tac-toe engine: an immutable 3x3 board model and an
//! exhaustive minimax decision procedure that always plays optimally for
//! the maximizing side.

pub mod game;
pub mod laws;
pub mod minimax;
