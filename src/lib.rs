//! Decides, for a board holding one white and one black piece, which of the
//! two can capture the other.
pub mod args;
pub mod game;
