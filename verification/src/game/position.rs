//! Square addresses.

use vstd::prelude::*;
use super::piece::PieceColor;
use crate::text::string_of;

verus! {

/// A square of the board. Row 0 is White's home rank, column 0 the a-file.
#[derive(Clone, Copy, PartialEq, Eq, Hash, Debug, Structural)]
pub struct Position {
    pub row: usize,
    pub column: usize,
}

/// Why a text is not the name of a square.
#[derive(Clone, Copy, PartialEq, Eq, Debug, Structural)]
pub enum PositionError {
    /// The text is not exactly two characters long.
    Length,
    /// The first character is not a file letter from `a` to `h`.
    Column,
    /// The second character is not a rank digit from `1` to `8`.
    Row,
}

/// The letter of a file, `a` for column 0.
pub open spec fn file_char(column: int) -> char {
    (column + 97) as u8 as char
}

/// The digit of a rank, `1` for row 0.
pub open spec fn rank_char(row: int) -> char {
    (row + 49) as u8 as char
}

/// Whether (row, column) lies on the board.
pub open spec fn on_board(row: int, column: int) -> bool {
    0 <= row <= 7 && 0 <= column <= 7
}

/// The square at (row, column).
pub open spec fn square(row: int, column: int) -> Position {
    Position { row: row as usize, column: column as usize }
}

/// What a text names as a square: exactly two characters, a file letter from
/// `a` to `h` and then a rank digit from `1` to `8`.
pub open spec fn parse_square(s: Seq<char>) -> Result<Position, PositionError> {
    if s.len() != 2 {
        Err(PositionError::Length)
    } else if s[0] < 'a' || s[0] > 'h' {
        Err(PositionError::Column)
    } else if s[1] < '1' || s[1] > '8' {
        Err(PositionError::Row)
    } else {
        Ok(square(s[1] as u8 - 49, s[0] as u8 - 97))
    }
}

impl Position {
    /// Both coordinates lie between 0 and 7.
    pub open spec fn valid(self) -> bool {
        self.row <= 7 && self.column <= 7
    }

    /// The two-character algebraic name of the square.
    pub open spec fn name(self) -> Seq<char> {
        seq![file_char(self.column as int), rank_char(self.row as int)]
    }

    /// One rank towards the opponent's back rank as `color` sees it, if there
    /// is one.
    pub open spec fn spec_forward(self, color: PieceColor) -> Option<Position> {
        match color {
            PieceColor::Black => if self.row != 0 {
                Some(Position { row: (self.row - 1) as usize, column: self.column })
            } else {
                None
            },
            PieceColor::White => if self.row != 7 {
                Some(Position { row: (self.row + 1) as usize, column: self.column })
            } else {
                None
            },
        }
    }

    /// One rank towards `color`'s own back rank, if there is one.
    pub open spec fn spec_backward(self, color: PieceColor) -> Option<Position> {
        self.spec_forward(color.opposite())
    }

    /// Whether both coordinates lie between 0 and 7.
    pub fn is_valid(&self) -> (r: bool)
        ensures
            r == self.valid(),
    {
        self.row <= 7 && self.column <= 7
    }

    /// The square at (row, column).
    pub fn encode(row: usize, column: usize) -> (p: Position)
        requires
            row <= 7,
            column <= 7,
        ensures
            p == (Position { row, column }),
            p.valid(),
    {
        Position { row, column }
    }

    /// The square at (row, column), if there is one.
    pub fn encode_checked(row: isize, column: isize) -> (r: Option<Position>)
        ensures
            on_board(row as int, column as int) ==> r == Some(square(row as int, column as int)),
            !on_board(row as int, column as int) ==> r.is_none(),
            r matches Some(p) ==> p.valid(),
    {
        if row < 0 || row > 7 || column < 0 || column > 7 {
            return None;
        }
        Some(Position { row: row as usize, column: column as usize })
    }

    /// Returns (row, column).
    pub fn decode(&self) -> (r: (usize, usize))
        ensures
            r == (self.row, self.column),
    {
        (self.row, self.column)
    }

    /// Returns (row, column) as signed numbers.
    pub fn decode_isize(&self) -> (r: (isize, isize))
        requires
            self.valid(),
        ensures
            r.0 == self.row,
            r.1 == self.column,
    {
        (self.row as isize, self.column as isize)
    }

    /// The row of the square.
    pub fn row(&self) -> (r: usize)
        ensures
            r == self.row,
    {
        self.row
    }

    /// The column of the square.
    pub fn column(&self) -> (c: usize)
        ensures
            c == self.column,
    {
        self.column
    }

    /// Reads the algebraic name of a square.
    pub fn from_str(loc: &str) -> (r: Result<Position, PositionError>)
        ensures
            r == parse_square(loc@),
            r matches Ok(p) ==> p.valid(),
    {
        if loc.unicode_len() != 2 {
            return Err(PositionError::Length);
        }
        let file = loc.get_char(0);
        let rank = loc.get_char(1);
        if file < 'a' || file > 'h' {
            return Err(PositionError::Column);
        }
        if rank < '1' || rank > '8' {
            return Err(PositionError::Row);
        }
        let column = (file as u8 - 97) as usize;
        let row = (rank as u8 - 49) as usize;
        Ok(Position { row, column })
    }

    /// Appends the algebraic name of the square to `out`.
    pub fn push_name(&self, out: &mut Vec<char>)
        requires
            self.valid(),
        ensures
            final(out)@ == old(out)@ + self.name(),
    {
        out.push((self.column as u8 + 97) as char);
        out.push((self.row as u8 + 49) as char);
        assert(out@ =~= old(out)@ + self.name());
    }

    /// The algebraic name of the square.
    pub fn to_string(&self) -> (s: String)
        requires
            self.valid(),
        ensures
            s@ == self.name(),
    {
        let mut chars: Vec<char> = Vec::new();
        self.push_name(&mut chars);
        assert(chars@ =~= self.name());
        string_of(&chars)
    }

    /// The square one rank towards the opponent's back rank as `player_color`
    /// sees it, or nothing at the edge.
    pub fn forward(&self, player_color: &PieceColor) -> (r: Option<Position>)
        requires
            self.valid(),
        ensures
            r == self.spec_forward(*player_color),
            r matches Some(p) ==> p.valid(),
    {
        match player_color {
            PieceColor::Black => if self.row != 0 {
                Some(Position { row: self.row - 1, column: self.column })
            } else {
                None
            },
            PieceColor::White => if self.row != 7 {
                Some(Position { row: self.row + 1, column: self.column })
            } else {
                None
            },
        }
    }

    /// The square one rank towards `player_color`'s own back rank, or nothing at
    /// the edge.
    pub fn backward(&self, player_color: &PieceColor) -> (r: Option<Position>)
        requires
            self.valid(),
        ensures
            r == self.spec_backward(*player_color),
            r matches Some(p) ==> p.valid(),
    {
        match player_color {
            PieceColor::Black => if self.row != 7 {
                Some(Position { row: self.row + 1, column: self.column })
            } else {
                None
            },
            PieceColor::White => if self.row != 0 {
                Some(Position { row: self.row - 1, column: self.column })
            } else {
                None
            },
        }
    }
}

/// Reading the name of a square of the board gives the square back.
pub proof fn lemma_square_name_round_trip(p: Position)
    requires
        p.valid(),
    ensures
        parse_square(p.name()) == Ok::<Position, PositionError>(p),
{
}

} // verus!
