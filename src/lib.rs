//! A falling-block puzzle engine: grid geometry, the piece catalog, and a
//! playing field driven by events, with a log from which any game replays.

pub mod geometry;
pub mod piece;
pub mod board;
pub mod laws;
