//! What a front end needs to mirror a game on a board that it can only
//! look at and click on: reading the marks that such a board puts on its
//! pieces, telling the move that was made from two looks at the board, and
//! the squares to click for a move.

use vstd::prelude::*;
use crate::game::board::{Board, Grid};
use crate::game::chess_move::ChessMove;
use crate::game::piece::{Piece, PieceColor, PieceType};
use crate::game::position::Position;
use crate::game::rules::home_row;
use crate::text::chars_of;

verus! {

/// The square that a mark of the form `square-` and two digits from 1 to 8
/// stands for: the first digit is the file, the second the rank. Any other
/// text stands for no square.
pub open spec fn square_of_mark(s: Seq<char>) -> Option<Position> {
    if s.len() == 9 && s.subrange(0, 7) == seq!['s', 'q', 'u', 'a', 'r', 'e', '-'] && '1' <= s[7]
        && s[7] <= '8' && '1' <= s[8] && s[8] <= '8' {
        Some(Position { row: (s[8] as u8 - 49) as usize, column: (s[7] as u8 - 49) as usize })
    } else {
        None
    }
}

/// The piece that a mark of two letters stands for: `b` or `w` for the
/// colour, then the letter of the kind. Any other text stands for no piece.
pub open spec fn piece_of_mark(s: Seq<char>) -> Option<Piece> {
    if s.len() != 2 {
        None
    } else {
        match (PieceColor::spec_from_char(s[0]), kind_of_mark(s[1])) {
            (Some(color), Some(piece_type)) => Some(Piece { piece_type, color }),
            _ => None,
        }
    }
}

/// The kind that a lower-case letter of a mark stands for.
pub open spec fn kind_of_mark(c: char) -> Option<PieceType> {
    if c == 'p' {
        Some(PieceType::Pawn)
    } else if c == 'n' {
        Some(PieceType::Knight)
    } else if c == 'r' {
        Some(PieceType::Rook)
    } else if c == 'b' {
        Some(PieceType::Bishup)
    } else if c == 'q' {
        Some(PieceType::Queen)
    } else if c == 'k' {
        Some(PieceType::King)
    } else {
        None
    }
}

/// The pieces of the squares before place `n` with their squares, in board
/// order.
pub open spec fn seen_upto(grid: Grid, n: int) -> Seq<(Piece, Position)>
    decreases n,
{
    if n <= 0 {
        Seq::empty()
    } else {
        match grid[n - 1] {
            Some(piece) => seen_upto(grid, n - 1).push(
                (piece, Position { row: ((n - 1) / 8) as usize, column: ((n - 1) % 8) as usize }),
            ),
            None => seen_upto(grid, n - 1),
        }
    }
}

/// Every piece of the board with its square, in board order.
pub open spec fn seen(grid: Grid) -> Seq<(Piece, Position)> {
    seen_upto(grid, 64)
}

/// The entries of `a` that do not occur in `b`, in order.
pub open spec fn missing(a: Seq<(Piece, Position)>, b: Seq<(Piece, Position)>) -> Seq<
    (Piece, Position),
>
    decreases a.len(),
{
    if a.len() == 0 {
        a
    } else if b.contains(a.last()) {
        missing(a.drop_last(), b)
    } else {
        missing(a.drop_last(), b).push(a.last())
    }
}

/// The first entry from place `j` on whose piece is of `color`.
pub open spec fn first_of_color(list: Seq<(Piece, Position)>, color: PieceColor, j: int) -> Option<
    (Piece, Position),
>
    decreases list.len() - j,
{
    if j < 0 || j >= list.len() {
        None
    } else if list[j].0.color == color {
        Some(list[j])
    } else {
        first_of_color(list, color, j + 1)
    }
}

/// The first entry from place `j` on whose piece is a rook.
pub open spec fn first_rook(list: Seq<(Piece, Position)>, j: int) -> Option<(Piece, Position)>
    decreases list.len() - j,
{
    if j < 0 || j >= list.len() {
        None
    } else if list[j].0.piece_type == PieceType::Rook {
        Some(list[j])
    } else {
        first_rook(list, j + 1)
    }
}

/// The move of `color` that turned the look `before` into the look `after`.
///
/// Where two pieces left their squares and two arrived, the move is a
/// castle, to the side of the rook that left: kingside from the h-file,
/// queenside from the a-file. Otherwise the move goes from the square that a
/// piece of `color` left to the square where one arrived, and is a promotion
/// if the piece that arrived is of another kind than the one that left.
/// Anything else is no move that can be told.
pub open spec fn told(
    before: Seq<(Piece, Position)>,
    after: Seq<(Piece, Position)>,
    color: PieceColor,
) -> Option<ChessMove> {
    let arrived = missing(after, before);
    let left = missing(before, after);
    if left.len() == 2 && arrived.len() == 2 {
        match first_rook(left, 0) {
            Some((piece, from)) => if from.column == 7 {
                Some(ChessMove::CastleKingside)
            } else if from.column == 0 {
                Some(ChessMove::CastleQueenside)
            } else {
                None
            },
            None => None,
        }
    } else {
        match (first_of_color(left, color, 0), first_of_color(arrived, color, 0)) {
            (Some((gone, from)), Some((come, to))) => if gone.piece_type != come.piece_type {
                Some(ChessMove::PawnPromote(from, to, come.piece_type))
            } else {
                Some(ChessMove::Move(from, to))
            },
            _ => None,
        }
    }
}

/// The square to click first and the square to click second to make the
/// move as `color`: for a castle the king's home square and the square
/// where it arrives.
pub open spec fn clicks(m: ChessMove, color: PieceColor) -> (Position, Position) {
    let row = home_row(color) as usize;
    match m {
        ChessMove::CastleKingside => (Position { row, column: 4 }, Position { row, column: 6 }),
        ChessMove::CastleQueenside => (Position { row, column: 4 }, Position { row, column: 2 }),
        ChessMove::Move(from, to) => (from, to),
        ChessMove::PawnPromote(from, to, piece_type) => (from, to),
    }
}

/// The kind to pick after the clicks, if the move promotes.
pub open spec fn pick(m: ChessMove) -> Option<PieceType> {
    match m {
        ChessMove::PawnPromote(from, to, piece_type) => Some(piece_type),
        _ => None,
    }
}

/// Reads the mark that a board puts on a piece to say where it stands.
pub fn read_square_mark(name: &str) -> (r: Option<Position>)
    ensures
        r == square_of_mark(name@),
        r matches Some(p) ==> p.valid(),
{
    let chars = chars_of(name);
    if chars.len() != 9 {
        return None;
    }
    if chars[0] == 's' && chars[1] == 'q' && chars[2] == 'u' && chars[3] == 'a' && chars[4] == 'r'
        && chars[5] == 'e' && chars[6] == '-' {
        assert(chars@.subrange(0, 7) =~= seq!['s', 'q', 'u', 'a', 'r', 'e', '-']);
        let file = chars[7];
        let rank = chars[8];
        if '1' <= file && file <= '8' && '1' <= rank && rank <= '8' {
            return Some(
                Position { row: (rank as u8 - 49) as usize, column: (file as u8 - 49) as usize },
            );
        }
        None
    } else {
        proof {
            let head = chars@.subrange(0, 7);
            let wanted = seq!['s', 'q', 'u', 'a', 'r', 'e', '-'];
            if head == wanted {
                assert(head[0] == chars@[0] && head[1] == chars@[1] && head[2] == chars@[2]
                    && head[3] == chars@[3] && head[4] == chars@[4] && head[5] == chars@[5]
                    && head[6] == chars@[6]);
                assert(wanted[0] == 's' && wanted[1] == 'q' && wanted[2] == 'u' && wanted[3] == 'a'
                    && wanted[4] == 'r' && wanted[5] == 'e' && wanted[6] == '-');
            }
        }
        None
    }
}

/// Reads the mark that a board puts on a piece to say what it is.
pub fn read_piece_mark(name: &str) -> (r: Option<Piece>)
    ensures
        r == piece_of_mark(name@),
{
    let chars = chars_of(name);
    if chars.len() != 2 {
        return None;
    }
    let c = chars[1];
    let kind = if c == 'p' {
        Some(PieceType::Pawn)
    } else if c == 'n' {
        Some(PieceType::Knight)
    } else if c == 'r' {
        Some(PieceType::Rook)
    } else if c == 'b' {
        Some(PieceType::Bishup)
    } else if c == 'q' {
        Some(PieceType::Queen)
    } else if c == 'k' {
        Some(PieceType::King)
    } else {
        None
    };
    match (PieceColor::from_char(chars[0]), kind) {
        (Some(color), Some(piece_type)) => Some(Piece { piece_type, color }),
        _ => None,
    }
}

/// Every piece of `board` with its square, in board order: what a look at
/// the board shows.
pub fn pieces_on(board: &Board) -> (r: Vec<(Piece, Position)>)
    ensures
        r@ == seen(board@),
{
    let mut list: Vec<(Piece, Position)> = Vec::new();
    let mut i: usize = 0;
    while i < 64
        invariant
            i <= 64,
            list@ == seen_upto(board@, i as int),
        decreases 64 - i,
    {
        match board.piece(i / 8, i % 8) {
            Some(piece) => {
                list.push((piece, Position { row: i / 8, column: i % 8 }));
            },
            None => {},
        }
        i = i + 1;
    }
    list
}

/// Whether `entry` occurs in `list`.
fn occurs(list: &Vec<(Piece, Position)>, entry: &(Piece, Position)) -> (r: bool)
    ensures
        r == list@.contains(*entry),
{
    let mut j: usize = 0;
    while j < list.len()
        invariant
            j <= list.len(),
            forall|k: int| 0 <= k < j ==> list@[k] != *entry,
        decreases list.len() - j,
    {
        if list[j].0 == entry.0 && list[j].1 == entry.1 {
            assert(list@[j as int] == *entry);
            return true;
        }
        j = j + 1;
    }
    false
}

/// The entries of `a` that do not occur in `b`.
pub fn difference(a: &Vec<(Piece, Position)>, b: &Vec<(Piece, Position)>) -> (r: Vec<
    (Piece, Position),
>)
    ensures
        r@ == missing(a@, b@),
{
    let mut out: Vec<(Piece, Position)> = Vec::new();
    let mut i: usize = 0;
    while i < a.len()
        invariant
            i <= a.len(),
            out@ == missing(a@.subrange(0, i as int), b@),
        decreases a.len() - i,
    {
        let ghost next = a@.subrange(0, i + 1);
        assert(next.drop_last() =~= a@.subrange(0, i as int));
        if !occurs(b, &a[i]) {
            out.push(a[i]);
        }
        i = i + 1;
    }
    assert(a@.subrange(0, i as int) =~= a@);
    out
}

/// The first entry whose piece is of `color`.
fn find_color(list: &Vec<(Piece, Position)>, color: PieceColor) -> (r: Option<(Piece, Position)>)
    ensures
        r == first_of_color(list@, color, 0),
{
    let mut j: usize = 0;
    while j < list.len()
        invariant
            j <= list.len(),
            first_of_color(list@, color, j as int) == first_of_color(list@, color, 0),
        decreases list.len() - j,
    {
        if list[j].0.color == color {
            return Some(list[j]);
        }
        j = j + 1;
    }
    None
}

/// The first entry whose piece is a rook.
fn find_rook(list: &Vec<(Piece, Position)>) -> (r: Option<(Piece, Position)>)
    ensures
        r == first_rook(list@, 0),
{
    let mut j: usize = 0;
    while j < list.len()
        invariant
            j <= list.len(),
            first_rook(list@, j as int) == first_rook(list@, 0),
        decreases list.len() - j,
    {
        if list[j].0.piece_type == PieceType::Rook {
            return Some(list[j]);
        }
        j = j + 1;
    }
    None
}

/// Tells the move of `player_color` from two looks at the board, one before
/// the move and one after it.
pub fn detect_move(
    before: &Vec<(Piece, Position)>,
    after: &Vec<(Piece, Position)>,
    player_color: &PieceColor,
) -> (r: Option<ChessMove>)
    ensures
        r == told(before@, after@, *player_color),
{
    let arrived = difference(after, before);
    let left = difference(before, after);
    if left.len() == 2 && arrived.len() == 2 {
        match find_rook(&left) {
            Some((_, from)) => {
                if from.column == 7 {
                    Some(ChessMove::CastleKingside)
                } else if from.column == 0 {
                    Some(ChessMove::CastleQueenside)
                } else {
                    None
                }
            },
            None => None,
        }
    } else {
        match (find_color(&left, *player_color), find_color(&arrived, *player_color)) {
            (Some((gone, from)), Some((come, to))) => {
                if gone.piece_type != come.piece_type {
                    Some(ChessMove::PawnPromote(from, to, come.piece_type))
                } else {
                    Some(ChessMove::Move(from, to))
                }
            },
            _ => None,
        }
    }
}

/// The two squares to click for the move, and the kind to pick afterwards if
/// the move promotes.
pub fn click_plan(chess_move: &ChessMove, player_color: &PieceColor) -> (r: (
    Position,
    Position,
    Option<PieceType>,
))
    ensures
        (r.0, r.1) == clicks(*chess_move, *player_color),
        r.2 == pick(*chess_move),
{
    let row: usize = match player_color {
        PieceColor::White => 0,
        PieceColor::Black => 7,
    };
    match chess_move {
        ChessMove::CastleKingside => (
            Position { row, column: 4 },
            Position { row, column: 6 },
            None,
        ),
        ChessMove::CastleQueenside => (
            Position { row, column: 4 },
            Position { row, column: 2 },
            None,
        ),
        ChessMove::Move(from, to) => (*from, *to, None),
        ChessMove::PawnPromote(from, to, piece_type) => (*from, *to, Some(*piece_type)),
    }
}

} // verus!
