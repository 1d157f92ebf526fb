//! Chessmen: their kind, their colour, and the letters that stand for them.

use vstd::prelude::*;

verus! {

/// The two sides.
#[derive(Clone, Copy, PartialEq, Eq, Hash, Debug, Structural)]
pub enum PieceColor {
    Black,
    White,
}

/// The six kinds of chessmen.
#[derive(Clone, Copy, PartialEq, Eq, Hash, Debug, Structural)]
pub enum PieceType {
    Pawn,
    Knight,
    Bishup,
    Rook,
    Queen,
    King,
}

/// A chessman: a kind and a colour, nothing more.
#[derive(Clone, Copy, PartialEq, Eq, Hash, Debug, Structural)]
pub struct Piece {
    pub piece_type: PieceType,
    pub color: PieceColor,
}

/// The upper-case form of an ASCII lower-case letter; any other character is
/// left as it is.
pub open spec fn spec_upper(c: char) -> char {
    if 'a' <= c && c <= 'z' {
        ((c as u8) - 32) as char
    } else {
        c
    }
}

/// The lower-case form of an ASCII upper-case letter; any other character is
/// left as it is.
pub open spec fn spec_lower(c: char) -> char {
    if 'A' <= c && c <= 'Z' {
        ((c as u8) + 32) as char
    } else {
        c
    }
}

impl PieceColor {
    /// The other side.
    pub open spec fn opposite(self) -> PieceColor {
        match self {
            PieceColor::Black => PieceColor::White,
            PieceColor::White => PieceColor::Black,
        }
    }

    /// The slot of this colour in per-colour tables: 0 for Black, 1 for White.
    pub open spec fn spec_index(self) -> int {
        match self {
            PieceColor::Black => 0,
            PieceColor::White => 1,
        }
    }

    /// The colour a side-to-move letter stands for.
    pub open spec fn spec_from_char(c: char) -> Option<PieceColor> {
        if c == 'b' {
            Some(PieceColor::Black)
        } else if c == 'w' {
            Some(PieceColor::White)
        } else {
            None
        }
    }

    /// The side-to-move letter of this colour.
    pub open spec fn spec_to_char(self) -> char {
        match self {
            PieceColor::Black => 'b',
            PieceColor::White => 'w',
        }
    }

    /// The slot of this colour in per-colour tables.
    pub fn index(self) -> (i: usize)
        ensures
            i == self.spec_index(),
            i < 2,
    {
        match self {
            PieceColor::Black => 0,
            PieceColor::White => 1,
        }
    }

    /// The other side.
    pub fn opponent(self) -> (r: PieceColor)
        ensures
            r == self.opposite(),
    {
        match self {
            PieceColor::Black => PieceColor::White,
            PieceColor::White => PieceColor::Black,
        }
    }

    /// The colour that a side-to-move letter stands for: `b` or `w`.
    pub fn from_char(piece_char: char) -> (r: Option<PieceColor>)
        ensures
            r == Self::spec_from_char(piece_char),
    {
        if piece_char == 'b' {
            Some(PieceColor::Black)
        } else if piece_char == 'w' {
            Some(PieceColor::White)
        } else {
            None
        }
    }

    /// The side-to-move letter of the colour.
    pub fn to_char(&self) -> (c: char)
        ensures
            c == self.spec_to_char(),
    {
        match self {
            PieceColor::Black => 'b',
            PieceColor::White => 'w',
        }
    }
}

impl core::ops::Not for PieceColor {
    type Output = PieceColor;

    fn not(self) -> (r: PieceColor) {
        match self {
            PieceColor::Black => PieceColor::White,
            PieceColor::White => PieceColor::Black,
        }
    }
}

impl vstd::std_specs::ops::NotSpecImpl for PieceColor {
    open spec fn obeys_not_spec() -> bool {
        true
    }

    open spec fn not_req(self) -> bool {
        true
    }

    open spec fn not_spec(self) -> PieceColor {
        self.opposite()
    }
}

impl PieceType {
    /// The kind a piece letter stands for, in either case.
    pub open spec fn spec_from_char(c: char) -> Option<PieceType> {
        let l = spec_lower(c);
        if l == 'k' {
            Some(PieceType::King)
        } else if l == 'q' {
            Some(PieceType::Queen)
        } else if l == 'b' {
            Some(PieceType::Bishup)
        } else if l == 'n' {
            Some(PieceType::Knight)
        } else if l == 'r' {
            Some(PieceType::Rook)
        } else if l == 'p' {
            Some(PieceType::Pawn)
        } else {
            None
        }
    }

    /// The lower-case letter of this kind.
    pub open spec fn spec_to_char(self) -> char {
        match self {
            PieceType::King => 'k',
            PieceType::Queen => 'q',
            PieceType::Bishup => 'b',
            PieceType::Knight => 'n',
            PieceType::Rook => 'r',
            PieceType::Pawn => 'p',
        }
    }

    /// The kind that a piece letter stands for, in either case.
    pub fn from_char(name: char) -> (r: Option<PieceType>)
        ensures
            r == Self::spec_from_char(name),
    {
        if name == 'k' || name == 'K' {
            Some(PieceType::King)
        } else if name == 'q' || name == 'Q' {
            Some(PieceType::Queen)
        } else if name == 'b' || name == 'B' {
            Some(PieceType::Bishup)
        } else if name == 'n' || name == 'N' {
            Some(PieceType::Knight)
        } else if name == 'r' || name == 'R' {
            Some(PieceType::Rook)
        } else if name == 'p' || name == 'P' {
            Some(PieceType::Pawn)
        } else {
            None
        }
    }

    /// The lower-case letter of the kind.
    pub fn to_char(self) -> (c: char)
        ensures
            c == self.spec_to_char(),
    {
        match self {
            PieceType::King => 'k',
            PieceType::Queen => 'q',
            PieceType::Bishup => 'b',
            PieceType::Knight => 'n',
            PieceType::Rook => 'r',
            PieceType::Pawn => 'p',
        }
    }
}

impl Piece {
    /// The piece a placement letter stands for: the letter gives the kind,
    /// its case the colour (upper case is White).
    pub open spec fn spec_get_piece(c: char) -> Option<Piece> {
        match PieceType::spec_from_char(c) {
            Some(piece_type) => Some(
                Piece {
                    piece_type,
                    color: if 'A' <= c && c <= 'Z' {
                        PieceColor::White
                    } else {
                        PieceColor::Black
                    },
                },
            ),
            None => None,
        }
    }

    /// The placement letter of this piece.
    pub open spec fn spec_to_char(self) -> char {
        match self.color {
            PieceColor::Black => self.piece_type.spec_to_char(),
            PieceColor::White => spec_upper(self.piece_type.spec_to_char()),
        }
    }

    /// The piece that a placement letter stands for: upper case is White.
    pub fn get_piece(name: char) -> (r: Option<Piece>)
        ensures
            r == Self::spec_get_piece(name),
    {
        let color = if 'A' <= name && name <= 'Z' {
            PieceColor::White
        } else {
            PieceColor::Black
        };
        match PieceType::from_char(name) {
            Some(piece_type) => Some(Piece { piece_type, color }),
            None => None,
        }
    }

    /// The placement letter of the piece.
    pub fn to_char(&self) -> (c: char)
        ensures
            c == self.spec_to_char(),
    {
        match self.color {
            PieceColor::Black => self.piece_type.to_char(),
            PieceColor::White => match self.piece_type {
                PieceType::King => 'K',
                PieceType::Queen => 'Q',
                PieceType::Bishup => 'B',
                PieceType::Knight => 'N',
                PieceType::Rook => 'R',
                PieceType::Pawn => 'P',
            },
        }
    }
}

/// Reading a piece's letter gives the piece back.
pub proof fn lemma_piece_char_round_trip(p: Piece)
    ensures
        Piece::spec_get_piece(p.spec_to_char()) == Some(p),
{
}

} // verus!
