//! A verified tic-tac-toe engine.
//!
//! The `game` module owns the 3x3 board model, move application,
//! terminal-state detection, and the exhaustive minimax search that
//! computes an optimal move for the circle player.

pub mod game;
