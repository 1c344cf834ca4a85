//! A verified move-recommendation engine for Othello/Reversi.
//!
//! Given a position and a wall-clock time budget, the engine runs
//! iterative-deepening alpha-beta minimax over the game tree, driven by a
//! static positional evaluator, and returns either a move or a pass signal.

pub mod board;
pub mod move_generator;
pub mod evaluator;
pub mod alphabeta;
