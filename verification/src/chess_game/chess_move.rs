//! Moves of the self-contained board and the notation that players type.

use vstd::prelude::*;
use super::board::{names_square, square_of};
use super::piece::{kind_of, PieceType};
use crate::game::fen::{split, split_chars, texts};
use crate::text::chars_of;

verus! {

/// A move by the (row, column) of its squares, row 0 being the eighth rank.
#[derive(Debug, Clone, Copy, PartialEq, Eq)]
pub enum ChessMove {
    CastleKingside,
    CastleQueenside,
    Move((usize, usize), (usize, usize)),
    PawnPromote((usize, usize), (usize, usize), PieceType),
}

/// Why a text is not a move.
#[derive(Debug, Clone, Copy, PartialEq, Eq, Structural)]
pub enum MoveError {
    /// The text is neither a castle nor four characters, with or without a
    /// promotion after `=`.
    Format,
    /// One of the two squares is not the name of a square.
    Location,
    /// The promotion is not one character.
    Promotion,
    /// The promotion character is no piece letter.
    Piece,
    /// The promotion is to a king.
    King,
}

/// The move that a typed text stands for: `O-O`, `O-O-O`, two square names,
/// or two square names, `=` and a piece letter.
pub open spec fn parse_typed_move(s: Seq<char>) -> Result<ChessMove, MoveError> {
    let segments = split(s, '=');
    if s == seq!['O', '-', 'O'] {
        Ok(ChessMove::CastleKingside)
    } else if s == seq!['O', '-', 'O', '-', 'O'] {
        Ok(ChessMove::CastleQueenside)
    } else if (segments.len() != 1 && segments.len() != 2) || segments[0].len() != 4 {
        Err(MoveError::Format)
    } else if !names_square(segments[0].subrange(0, 2)) || !names_square(
        segments[0].subrange(2, 4),
    ) {
        Err(MoveError::Location)
    } else {
        let start = square_of(segments[0].subrange(0, 2));
        let end = square_of(segments[0].subrange(2, 4));
        if segments.len() == 1 {
            Ok(ChessMove::Move(start, end))
        } else if segments[1].len() != 1 {
            Err(MoveError::Promotion)
        } else {
            match kind_of(segments[1][0]) {
                Some(PieceType::King) => Err(MoveError::King),
                Some(piece_type) => Ok(ChessMove::PawnPromote(start, end, piece_type)),
                None => Err(MoveError::Piece),
            }
        }
    }
}

impl ChessMove {
    /// Reads a move as a player types it.
    pub fn new(chess_move: &str) -> (r: Result<ChessMove, MoveError>)
        ensures
            r == parse_typed_move(chess_move@),
    {
        let chars = chars_of(chess_move);
        let n = chars.len();
        if n == 3 && chars[0] == 'O' && chars[1] == '-' && chars[2] == 'O' {
            assert(chars@ =~= seq!['O', '-', 'O']);
            return Ok(ChessMove::CastleKingside);
        }
        if n == 5 && chars[0] == 'O' && chars[1] == '-' && chars[2] == 'O' && chars[3] == '-'
            && chars[4] == 'O' {
            assert(chars@ =~= seq!['O', '-', 'O', '-', 'O']);
            return Ok(ChessMove::CastleQueenside);
        }
        let segments = split_chars(&chars, '=');
        assert(texts(segments@).len() == segments@.len());
        if segments.len() != 1 && segments.len() != 2 {
            return Err(MoveError::Format);
        }
        assert(texts(segments@)[0] == segments@[0]@);
        let squares = &segments[0];
        if squares.len() != 4 {
            return Err(MoveError::Format);
        }
        let start = Self::square_at(squares, 0);
        let end = Self::square_at(squares, 2);
        match (start, end) {
            (Some(start), Some(end)) => {
                if segments.len() == 2 {
                    assert(texts(segments@)[1] == segments@[1]@);
                    let promotion = &segments[1];
                    if promotion.len() != 1 {
                        return Err(MoveError::Promotion);
                    }
                    match PieceType::get(promotion[0]) {
                        Some(PieceType::King) => Err(MoveError::King),
                        Some(piece_type) => Ok(ChessMove::PawnPromote(start, end, piece_type)),
                        None => Err(MoveError::Piece),
                    }
                } else {
                    Ok(ChessMove::Move(start, end))
                }
            },
            _ => Err(MoveError::Location),
        }
    }

    /// The square named by the two characters at `i` and `i + 1`.
    fn square_at(chars: &Vec<char>, i: usize) -> (r: Option<(usize, usize)>)
        requires
            i + 2 <= chars.len(),
        ensures
            names_square(chars@.subrange(i as int, i + 2)) ==> r == Some(
                square_of(chars@.subrange(i as int, i + 2)),
            ),
            !names_square(chars@.subrange(i as int, i + 2)) ==> r.is_none(),
    {
        let file = chars[i];
        let rank = chars[i + 1];
        if file < 'a' || file > 'h' || rank < '1' || rank > '8' {
            return None;
        }
        Some(((7 - (rank as u8 - 49)) as usize, (file as u8 - 97) as usize))
    }
}

} // verus!
