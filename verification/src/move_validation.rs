//! The rules of movement, the list of a piece's destinations, and the
//! decision whether a proposed move is allowed.

pub mod geometry;
pub mod movement;
pub mod offsets;
pub mod pawn;
pub mod rules;
pub mod sequences;
pub mod sliding;
pub mod validator;
