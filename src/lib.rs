//! A single-player grid puzzle: mark every free cell of a square grid while
//! leaving the obstacles alone.

pub mod puzzle;
pub mod generator;
pub mod game_logic;
