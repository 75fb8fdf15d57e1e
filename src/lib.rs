//! Rule engine and heuristic auto-player for a falling-block puzzle game.

pub mod block;
pub mod game;
pub mod ai;
pub mod play;
