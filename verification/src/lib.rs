//! A Forsyth-Edwards Notation (FEN) decoder.
//!
//! The library turns a textual chess position into a [`board::Board`]:
//! twelve 64-bit occupancy masks (one per piece kind and color) together
//! with the side to move, the castling rights, the en-passant target
//! square, and the half-move and full-move counters. It also renders a
//! board back to a human-readable grid of characters.
//!
//! One bit-ordering convention is used throughout: the square on file
//! `f` (0 for file `a` .. 7 for file `h`) and rank `r` (0 for rank 1 ..
//! 7 for rank 8) sits at bit `r * 8 + (7 - f)` of a mask. Under this
//! convention the placement field of a FEN string, read left to right,
//! fills bits 63 down to 0.

pub mod bits;
pub mod board;
pub mod error;
pub mod fields;
pub mod piece;
pub mod placement;
pub mod render;
pub mod square;
