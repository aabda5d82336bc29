//! A falling-block puzzle game: the pieces, the well, the scoring, the
//! screen layout and the keyboard decoding, with their contracts.

pub mod shape;
pub mod piece;
pub mod board;
pub mod game;
pub mod text;
pub mod frame;
pub mod screen;
pub mod control;
pub mod keys;
