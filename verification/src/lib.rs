//! Board-state engine and move-search AI for two grid-drop games: a
//! four-in-a-row game with numbered pieces and a word game in which players
//! drop `T` and `O` tokens to complete `TOOT` or `OTTO`.
//!
//! The crate covers the grid representation, gravity-based insertion,
//! line-based win detection for both variants, a heuristic position
//! evaluator, and a depth-limited minimax search with alpha-beta pruning
//! that selects the computer's move.

#![allow(non_snake_case)]

pub mod board;
pub mod bots;
pub mod eval;
pub mod game;
pub mod lines;
pub mod model;
mod rng;
pub mod search;
pub mod win;

pub use board::Board;
pub use game::GameError;
pub use game::Player;
pub use game::Space;
pub use game::Variant;
