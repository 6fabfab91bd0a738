//! Core simulation of a falling-block puzzle game: the grid board with
//! line-clear animation and scoring, the active piece with rotation,
//! wall kicks, movement and gravity, the shape-definition parser, and
//! the game session that ties them together. All timing is expressed in
//! integer milliseconds of a monotonic clock supplied by the caller.
pub mod util;
pub mod board;
pub mod teto;
pub mod parse;
pub mod session;
