//! Moves and their coordinate notation.

use vstd::prelude::*;
use super::piece::PieceType;
use super::position::{parse_square, Position};
use crate::text::{chars_of, string_of};

verus! {

/// A move as the rules see it. The squares of a castle follow from the side
/// that castles.
#[derive(Clone, Copy, PartialEq, Eq, Hash, Debug, Structural)]
pub enum ChessMove {
    CastleKingside,
    CastleQueenside,
    Move(Position, Position),
    PawnPromote(Position, Position, PieceType),
}

/// The kind a promotion letter stands for: one of `q`, `r`, `b`, `n`.
pub open spec fn promotion_of(c: char) -> Option<PieceType> {
    if c == 'q' {
        Some(PieceType::Queen)
    } else if c == 'r' {
        Some(PieceType::Rook)
    } else if c == 'b' {
        Some(PieceType::Bishup)
    } else if c == 'n' {
        Some(PieceType::Knight)
    } else {
        None
    }
}

/// A kind that a pawn can be promoted to.
pub open spec fn is_promotion(t: PieceType) -> bool {
    t == PieceType::Queen || t == PieceType::Rook || t == PieceType::Bishup || t
        == PieceType::Knight
}

/// The text of a kingside castle.
pub open spec fn kingside_text() -> Seq<char> {
    seq!['O', '-', 'O']
}

/// The text of a queenside castle.
pub open spec fn queenside_text() -> Seq<char> {
    seq!['O', '-', 'O', '-', 'O']
}

/// The move a text stands for: `O-O`, `O-O-O`, two square names, or two square
/// names and a promotion letter. Anything else stands for no move.
pub open spec fn parse_move(s: Seq<char>) -> Option<ChessMove> {
    if s == kingside_text() {
        Some(ChessMove::CastleKingside)
    } else if s == queenside_text() {
        Some(ChessMove::CastleQueenside)
    } else if s.len() == 4 {
        match (parse_square(s.subrange(0, 2)), parse_square(s.subrange(2, 4))) {
            (Ok(from), Ok(to)) => Some(ChessMove::Move(from, to)),
            _ => None,
        }
    } else if s.len() == 5 {
        match (parse_square(s.subrange(0, 2)), parse_square(s.subrange(2, 4)), promotion_of(s[4])) {
            (Ok(from), Ok(to), Some(piece_type)) => Some(
                ChessMove::PawnPromote(from, to, piece_type),
            ),
            _ => None,
        }
    } else {
        None
    }
}

impl ChessMove {
    /// The squares of the move are on the board, and a promotion is to a
    /// queen, rook, bishop or knight.
    pub open spec fn valid(self) -> bool {
        match self {
            ChessMove::CastleKingside => true,
            ChessMove::CastleQueenside => true,
            ChessMove::Move(from, to) => from.valid() && to.valid(),
            ChessMove::PawnPromote(from, to, piece_type) => from.valid() && to.valid()
                && is_promotion(piece_type),
        }
    }

    /// The coordinate notation of the move.
    pub open spec fn text(self) -> Seq<char> {
        match self {
            ChessMove::CastleKingside => kingside_text(),
            ChessMove::CastleQueenside => queenside_text(),
            ChessMove::Move(from, to) => from.name() + to.name(),
            ChessMove::PawnPromote(from, to, piece_type) => from.name() + to.name()
                + seq![piece_type.spec_to_char()],
        }
    }

    /// Whether the move is one of the two castles.
    pub open spec fn is_castle(self) -> bool {
        self == ChessMove::CastleKingside || self == ChessMove::CastleQueenside
    }

    /// Whether the squares of the move are on the board and a promotion is
    /// to a queen, rook, bishop or knight.
    pub fn is_valid(&self) -> (r: bool)
        ensures
            r == self.valid(),
    {
        match self {
            ChessMove::CastleKingside => true,
            ChessMove::CastleQueenside => true,
            ChessMove::Move(from, to) => from.is_valid() && to.is_valid(),
            ChessMove::PawnPromote(from, to, piece_type) => from.is_valid() && to.is_valid() && (
            *piece_type == PieceType::Queen || *piece_type == PieceType::Rook || *piece_type
                == PieceType::Bishup || *piece_type == PieceType::Knight),
        }
    }

    /// Reads a move in coordinate notation.
    pub fn from_str(move_str: &str) -> (r: Option<ChessMove>)
        ensures
            r == parse_move(move_str@),
            r matches Some(m) ==> m.valid(),
    {
        let chars = chars_of(move_str);
        Self::from_chars(&chars)
    }

    /// Reads a move from the characters of its coordinate notation.
    pub fn from_chars(chars: &Vec<char>) -> (r: Option<ChessMove>)
        ensures
            r == parse_move(chars@),
            r matches Some(m) ==> m.valid(),
    {
        let n = chars.len();
        if n == 3 && chars[0] == 'O' && chars[1] == '-' && chars[2] == 'O' {
            assert(chars@ =~= kingside_text());
            return Some(ChessMove::CastleKingside);
        }
        if n == 5 && chars[0] == 'O' && chars[1] == '-' && chars[2] == 'O' && chars[3] == '-'
            && chars[4] == 'O' {
            assert(chars@ =~= queenside_text());
            return Some(ChessMove::CastleQueenside);
        }
        if n != 4 && n != 5 {
            return None;
        }
        let from = Self::square_at(chars, 0);
        let to = Self::square_at(chars, 2);
        if n == 4 {
            match (from, to) {
                (Some(from), Some(to)) => Some(ChessMove::Move(from, to)),
                _ => None,
            }
        } else {
            let c = chars[4];
            let piece_type = if c == 'q' {
                Some(PieceType::Queen)
            } else if c == 'r' {
                Some(PieceType::Rook)
            } else if c == 'b' {
                Some(PieceType::Bishup)
            } else if c == 'n' {
                Some(PieceType::Knight)
            } else {
                None
            };
            match (from, to, piece_type) {
                (Some(from), Some(to), Some(piece_type)) => Some(
                    ChessMove::PawnPromote(from, to, piece_type),
                ),
                _ => None,
            }
        }
    }

    /// The square named by the two characters at `i` and `i + 1`.
    fn square_at(chars: &Vec<char>, i: usize) -> (r: Option<Position>)
        requires
            i + 2 <= chars.len(),
        ensures
            match parse_square(chars@.subrange(i as int, i + 2)) {
                Ok(p) => r == Some(p) && p.valid(),
                Err(_) => r.is_none(),
            },
    {
        let file = chars[i];
        let rank = chars[i + 1];
        if file < 'a' || file > 'h' || rank < '1' || rank > '8' {
            return None;
        }
        Some(Position { row: (rank as u8 - 49) as usize, column: (file as u8 - 97) as usize })
    }

    /// Writes the move in coordinate notation.
    pub fn to_string(&self) -> (s: String)
        requires
            self.valid(),
        ensures
            s@ == self.text(),
    {
        let mut chars: Vec<char> = Vec::new();
        match self {
            ChessMove::CastleKingside => {
                chars.push('O');
                chars.push('-');
                chars.push('O');
            },
            ChessMove::CastleQueenside => {
                chars.push('O');
                chars.push('-');
                chars.push('O');
                chars.push('-');
                chars.push('O');
            },
            ChessMove::Move(from, to) => {
                from.push_name(&mut chars);
                to.push_name(&mut chars);
            },
            ChessMove::PawnPromote(from, to, piece_type) => {
                from.push_name(&mut chars);
                to.push_name(&mut chars);
                chars.push(piece_type.to_char());
            },
        }
        assert(chars@ =~= self.text());
        string_of(&chars)
    }
}

/// Reading the text of a move gives the move back.
pub proof fn lemma_move_text_round_trip(m: ChessMove)
    requires
        m.valid(),
    ensures
        parse_move(m.text()) == Some(m),
{
    match m {
        ChessMove::CastleKingside => {},
        ChessMove::CastleQueenside => {},
        ChessMove::Move(from, to) => {
            let s = m.text();
            assert(s.subrange(0, 2) =~= from.name());
            assert(s.subrange(2, 4) =~= to.name());
            assert(s[0] != 'O');
        },
        ChessMove::PawnPromote(from, to, piece_type) => {
            let s = m.text();
            assert(s.subrange(0, 2) =~= from.name());
            assert(s.subrange(2, 4) =~= to.name());
            assert(s[0] != 'O');
        },
    }
}

} // verus!
