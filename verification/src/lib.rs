//! A falling-block puzzle: the playing field, the seven pieces and their
//! motion, row clearing with gravity, and the controller that drives one
//! round tick by tick.
//!
//! Every function states its behaviour in a contract over mathematical
//! models ([`segment::Cell`], sequences of cells) and is verified against it.

pub mod board;
pub mod game_state;
pub mod grid;
mod random;
pub mod scoring;
pub mod segment;
pub mod shape;
pub mod tetromino;
