//! A bitboard-based chess position core: position decoding from the standard
//! six-field textual notation, single-ply move application, pseudo-legal
//! attack generation, and static evaluation with a fifty-move draw check.

pub mod bits;
pub mod board;
pub mod eval;
pub mod fen;
pub mod move_gen;
