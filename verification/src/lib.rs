//! A verified engine for sliding-block ("parking lot") puzzles.
//!
//! A rectangular grid holds axis-aligned cars that slide along their own
//! orientation; the objective car (index 1) must reach its target edge.
//! The crate provides the board model, the per-car obstacle views, canonical
//! state fingerprints, candidate move sequences with snapshot-accelerated
//! replay, move-generating mutators, and the corpus-driven search loop.

pub mod board;
pub mod executor;
pub mod observers;
pub mod fingerprint;
pub mod input;
pub mod mutators;
pub mod parse;
pub mod search;

pub use board::{Car, ConfigurationError, Direction, MoveError, Orientation, Position, State};
pub use input::PGInput;
pub use parse::parse_map;
