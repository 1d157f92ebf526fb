//! Chessmen of the self-contained board.

use vstd::prelude::*;

verus! {

/// The two sides.
#[derive(Debug, Clone, Copy, PartialEq, Eq, Hash, Structural)]
pub enum PieceColor {
    Black,
    White,
}

/// The six kinds of chessmen.
#[derive(Debug, Clone, Copy, PartialEq, Eq, Structural)]
pub enum PieceType {
    King,
    Queen,
    Bishup,
    Knight,
    Rook,
    Pawn,
}

/// A chessman.
#[derive(Debug, Clone, Copy, PartialEq, Eq, Structural)]
pub struct Piece {
    pub piece_type: PieceType,
    pub piece_color: PieceColor,
}

/// The kind a letter stands for, in either case.
pub open spec fn kind_of(name: char) -> Option<PieceType> {
    if name == 'k' || name == 'K' {
        Some(PieceType::King)
    } else if name == 'q' || name == 'Q' {
        Some(PieceType::Queen)
    } else if name == 'b' || name == 'B' {
        Some(PieceType::Bishup)
    } else if name == 'n' || name == 'N' {
        Some(PieceType::Knight)
    } else if name == 'r' || name == 'R' {
        Some(PieceType::Rook)
    } else if name == 'p' || name == 'P' {
        Some(PieceType::Pawn)
    } else {
        None
    }
}

/// The piece a letter stands for: upper case is White, lower case Black.
pub open spec fn piece_of(name: char) -> Option<Piece> {
    match kind_of(name) {
        Some(piece_type) => Some(
            Piece {
                piece_type,
                piece_color: if 'A' <= name && name <= 'Z' {
                    PieceColor::White
                } else {
                    PieceColor::Black
                },
            },
        ),
        None => None,
    }
}

/// The lower-case letter of a kind.
pub open spec fn kind_letter(piece_type: PieceType) -> char {
    match piece_type {
        PieceType::King => 'k',
        PieceType::Queen => 'q',
        PieceType::Bishup => 'b',
        PieceType::Knight => 'n',
        PieceType::Rook => 'r',
        PieceType::Pawn => 'p',
    }
}

/// The letter of a piece: that of its kind, in upper case for White.
pub open spec fn piece_letter(piece: Piece) -> char {
    match piece.piece_color {
        PieceColor::Black => kind_letter(piece.piece_type),
        PieceColor::White => (kind_letter(piece.piece_type) as u8 - 32) as char,
    }
}

impl PieceColor {
    /// The other side.
    pub open spec fn opposite(self) -> PieceColor {
        match self {
            PieceColor::Black => PieceColor::White,
            PieceColor::White => PieceColor::Black,
        }
    }

    /// The other side.
    pub fn opponent(self) -> (r: PieceColor)
        ensures
            r == self.opposite(),
    {
        match self {
            PieceColor::Black => PieceColor::White,
            PieceColor::White => PieceColor::Black,
        }
    }

    /// The slot of this colour in per-colour tables: 0 for Black, 1 for White.
    pub open spec fn spec_index(self) -> int {
        match self {
            PieceColor::Black => 0,
            PieceColor::White => 1,
        }
    }

    /// The slot of this colour in per-colour tables.
    pub fn index(self) -> (i: usize)
        ensures
            i == self.spec_index(),
    {
        match self {
            PieceColor::Black => 0,
            PieceColor::White => 1,
        }
    }
}

impl PieceType {
    /// The kind that a letter stands for, in either case.
    pub fn get(name: char) -> (r: Option<PieceType>)
        ensures
            r == kind_of(name),
    {
        if name == 'k' || name == 'K' {
            Some(PieceType::King)
        } else if name == 'q' || name == 'Q' {
            Some(PieceType::Queen)
        } else if name == 'b' || name == 'B' {
            Some(PieceType::Bishup)
        } else if name == 'n' || name == 'N' {
            Some(PieceType::Knight)
        } else if name == 'r' || name == 'R' {
            Some(PieceType::Rook)
        } else if name == 'p' || name == 'P' {
            Some(PieceType::Pawn)
        } else {
            None
        }
    }
}

impl Piece {
    /// The piece that a letter stands for: upper case is White.
    pub fn get_piece(name: char) -> (r: Option<Piece>)
        ensures
            r == piece_of(name),
    {
        let piece_color = if 'A' <= name && name <= 'Z' {
            PieceColor::White
        } else {
            PieceColor::Black
        };
        match PieceType::get(name) {
            Some(piece_type) => Some(Piece { piece_type, piece_color }),
            None => None,
        }
    }

    /// The letter of the piece.
    pub fn get_name(&self) -> (c: char)
        ensures
            c == piece_letter(*self),
    {
        match self.piece_color {
            PieceColor::Black => match self.piece_type {
                PieceType::King => 'k',
                PieceType::Queen => 'q',
                PieceType::Bishup => 'b',
                PieceType::Knight => 'n',
                PieceType::Rook => 'r',
                PieceType::Pawn => 'p',
            },
            PieceColor::White => match self.piece_type {
                PieceType::King => 'K',
                PieceType::Queen => 'Q',
                PieceType::Bishup => 'B',
                PieceType::Knight => 'N',
                PieceType::Rook => 'R',
                PieceType::Pawn => 'P',
            },
        }
    }
}

} // verus!
