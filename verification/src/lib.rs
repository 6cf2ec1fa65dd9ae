//! A single-player elimination puzzle on integer tiles: a seeded board
//! generator and the selection state machine that reduces the board, pair by
//! pair, to one remaining tile.

pub mod action;
pub mod board;
pub mod dice;
pub mod laws;
pub mod model;
pub mod tile;
