//! A self-contained board that keeps the whole game state in one value and
//! checks each move before it makes it. Row 0 is the eighth rank here.

pub mod board;
pub mod chess_move;
pub mod piece;
