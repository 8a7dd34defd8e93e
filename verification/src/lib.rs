//! Rules engine for a chess variant played on a hexagonal board of 91 cells.

pub mod pieces;
pub mod board;
pub mod logic;
pub mod game;
pub mod laws;
