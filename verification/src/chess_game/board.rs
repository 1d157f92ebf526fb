//! The self-contained board: a position with its clocks and its history,
//! which takes moves as players type them and makes only the legal ones.

use vstd::prelude::*;
use super::chess_move::{parse_typed_move, ChessMove};
use super::piece::{Piece, PieceColor, PieceType};
use crate::game::board::{at, attacked, piece_at, ray_hit, Grid};
use crate::game::chess_move::is_promotion;
use crate::game::fen::{
    check_number, digit_value, is_digit, is_number, parse_fen, split, split_chars, texts, FenError,
};
use crate::game::movegen::all_valid;
use crate::game::position::Position;
use crate::game::rules::{apply, holds_kind, legal_moves, GameState};
use crate::game::Game;
use crate::text::chars_of;

verus! {

/// Whether a text names a square: a file letter from `a` to `h` and then a
/// rank digit from `1` to `8`, and nothing else.
pub open spec fn names_square(s: Seq<char>) -> bool {
    s.len() == 2 && 'a' <= s[0] && s[0] <= 'h' && '1' <= s[1] && s[1] <= '8'
}

/// The (row, column) of the square that a text names. The eighth rank is
/// row 0, the a-file column 0.
pub open spec fn square_of(s: Seq<char>) -> (usize, usize) {
    ((7 - (s[1] as u8 - 49)) as usize, (s[0] as u8 - 97) as usize)
}

/// Whether (row, column) is a square of the board.
pub open spec fn is_square(loc: (usize, usize)) -> bool {
    loc.0 < 8 && loc.1 < 8
}

/// The square at (row, column) as the rules count it, with the first rank
/// as row 0.
pub open spec fn to_position(loc: (usize, usize)) -> Position {
    Position { row: (7 - loc.0) as usize, column: loc.1 }
}

/// The (row, column) of a square of the rules, with the eighth rank as
/// row 0.
pub open spec fn to_loc(p: Position) -> (usize, usize) {
    ((7 - p.row) as usize, p.column)
}

/// A colour as the rules know it.
pub open spec fn to_rules_color(color: PieceColor) -> crate::game::piece::PieceColor {
    match color {
        PieceColor::Black => crate::game::piece::PieceColor::Black,
        PieceColor::White => crate::game::piece::PieceColor::White,
    }
}

/// A kind as the rules know it.
pub open spec fn to_rules_kind(piece_type: PieceType) -> crate::game::piece::PieceType {
    match piece_type {
        PieceType::King => crate::game::piece::PieceType::King,
        PieceType::Queen => crate::game::piece::PieceType::Queen,
        PieceType::Bishup => crate::game::piece::PieceType::Bishup,
        PieceType::Knight => crate::game::piece::PieceType::Knight,
        PieceType::Rook => crate::game::piece::PieceType::Rook,
        PieceType::Pawn => crate::game::piece::PieceType::Pawn,
    }
}

/// A kind of the rules as this board knows it.
pub open spec fn from_rules_kind(piece_type: crate::game::piece::PieceType) -> PieceType {
    match piece_type {
        crate::game::piece::PieceType::King => PieceType::King,
        crate::game::piece::PieceType::Queen => PieceType::Queen,
        crate::game::piece::PieceType::Bishup => PieceType::Bishup,
        crate::game::piece::PieceType::Knight => PieceType::Knight,
        crate::game::piece::PieceType::Rook => PieceType::Rook,
        crate::game::piece::PieceType::Pawn => PieceType::Pawn,
    }
}

/// A piece of the rules as this board knows it.
pub open spec fn from_rules_piece(piece: crate::game::piece::Piece) -> Piece {
    Piece {
        piece_type: from_rules_kind(piece.piece_type),
        piece_color: match piece.color {
            crate::game::piece::PieceColor::Black => PieceColor::Black,
            crate::game::piece::PieceColor::White => PieceColor::White,
        },
    }
}

/// The move as the rules know it, if its squares are on the board and it
/// promotes, if it promotes, to a queen, rook, bishop or knight.
pub open spec fn to_rules_move(m: ChessMove) -> Option<crate::game::chess_move::ChessMove> {
    match m {
        ChessMove::CastleKingside => Some(crate::game::chess_move::ChessMove::CastleKingside),
        ChessMove::CastleQueenside => Some(crate::game::chess_move::ChessMove::CastleQueenside),
        ChessMove::Move(from, to) => if is_square(from) && is_square(to) {
            Some(crate::game::chess_move::ChessMove::Move(to_position(from), to_position(to)))
        } else {
            None
        },
        ChessMove::PawnPromote(from, to, piece_type) => if is_square(from) && is_square(to)
            && is_promotion(to_rules_kind(piece_type)) {
            Some(
                crate::game::chess_move::ChessMove::PawnPromote(
                    to_position(from),
                    to_position(to),
                    to_rules_kind(piece_type),
                ),
            )
        } else {
            None
        },
    }
}

/// The number that a text of decimal digits stands for.
pub open spec fn decimal(s: Seq<char>) -> int
    decreases s.len(),
{
    if s.len() == 0 {
        0
    } else {
        decimal(s.drop_last()) * 10 + digit_value(s.last())
    }
}

/// The number that a text stands for, if it is a number and not above
/// `limit`.
pub open spec fn parse_clock(s: Seq<char>, limit: int) -> Option<int> {
    if is_number(s) && decimal(s) <= limit {
        Some(decimal(s))
    } else {
        None
    }
}

/// A position as it was when a move was made from it, packed into a few
/// words.
#[derive(Debug, Clone, Copy, PartialEq, Eq, Hash)]
pub struct EncodedBoard {
    pub grid: [u64; 4],
    pub flags: u8,
    pub turn: PieceColor,
}

/// A packed position as a mathematical value.
pub struct Packed {
    pub grid: Seq<u64>,
    pub flags: u8,
    pub turn: PieceColor,
}

impl View for EncodedBoard {
    type V = Packed;

    open spec fn view(&self) -> Packed {
        Packed { grid: self.grid@, flags: self.flags, turn: self.turn }
    }
}

/// The four lines through a square, each with the bit that stands for it in
/// a set of lines.
pub enum Line {
    Horizontal,
    Vertical,
    UpDiagonal,
    DownDiagonal,
}

/// The eight directions of the board, as seen with White at the bottom.
pub enum Directions {
    North,
    NorthEast,
    East,
    SouthEast,
    South,
    SouthWest,
    West,
    NorthWest,
}

impl Line {
    /// The bit of the line in a set of lines: 8 for the rank, 4 for the
    /// file, 2 for the rising diagonal, 1 for the falling one.
    pub open spec fn spec_bit(self) -> u8 {
        match self {
            Line::Horizontal => 8,
            Line::Vertical => 4,
            Line::UpDiagonal => 2,
            Line::DownDiagonal => 1,
        }
    }

    /// The bit of the line in a set of lines.
    pub fn bit(&self) -> (r: u8)
        ensures
            r == self.spec_bit(),
    {
        match self {
            Line::Horizontal => 8,
            Line::Vertical => 4,
            Line::UpDiagonal => 2,
            Line::DownDiagonal => 1,
        }
    }
}

impl Directions {
    /// The step of the direction as (rows, columns), row 0 being the eighth
    /// rank: north is towards row 0.
    pub open spec fn spec_step(self) -> (int, int) {
        match self {
            Directions::North => (-1, 0),
            Directions::NorthEast => (-1, 1),
            Directions::East => (0, 1),
            Directions::SouthEast => (1, 1),
            Directions::South => (1, 0),
            Directions::SouthWest => (1, -1),
            Directions::West => (0, -1),
            Directions::NorthWest => (-1, -1),
        }
    }

    /// The step of the direction as (rows, columns).
    pub fn step(&self) -> (r: (isize, isize))
        ensures
            r.0 == self.spec_step().0,
            r.1 == self.spec_step().1,
    {
        match self {
            Directions::North => (-1, 0),
            Directions::NorthEast => (-1, 1),
            Directions::East => (0, 1),
            Directions::SouthEast => (1, 1),
            Directions::South => (1, 0),
            Directions::SouthWest => (1, -1),
            Directions::West => (0, -1),
            Directions::NorthWest => (-1, -1),
        }
    }
}

/// The self-contained board.
#[derive(Debug, Clone)]
pub struct Board {
    /// The position as the rules keep it.
    pub game: Game,
    /// The moves made since the last capture or pawn move.
    pub half_moves: u8,
    /// The number of the move that is being played, starting from 1 and
    /// counted up after each move of Black.
    pub full_moves: u16,
    /// The positions from which a move was made, each with the number of
    /// times that this happened, held at 255.
    pub previous_states: Vec<(EncodedBoard, u8)>,
}

/// The self-contained board as a mathematical value.
pub struct BoardState {
    pub game: GameState,
    pub half_moves: int,
    pub full_moves: int,
    pub history: Seq<(Packed, u8)>,
}

/// The packed positions of a history with their counts.
pub open spec fn history_of(states: Seq<(EncodedBoard, u8)>) -> Seq<(Packed, u8)> {
    Seq::new(states.len(), |i: int| (states[i].0@, states[i].1))
}

impl View for Board {
    type V = BoardState;

    open spec fn view(&self) -> BoardState {
        BoardState {
            game: self.game@,
            half_moves: self.half_moves as int,
            full_moves: self.full_moves as int,
            history: history_of(self.previous_states@),
        }
    }
}

/// What a kind counts in a packed position: 1 for a king, then queen,
/// bishop, knight, rook and pawn up to 6.
pub open spec fn kind_code(piece_type: crate::game::piece::PieceType) -> u64 {
    match piece_type {
        crate::game::piece::PieceType::King => 1,
        crate::game::piece::PieceType::Queen => 2,
        crate::game::piece::PieceType::Bishup => 3,
        crate::game::piece::PieceType::Knight => 4,
        crate::game::piece::PieceType::Rook => 5,
        crate::game::piece::PieceType::Pawn => 6,
    }
}

/// What a square counts in a packed position: nothing if it is empty, else
/// the code of the kind, with the eighth bit set for White.
pub open spec fn square_code(content: Option<crate::game::piece::Piece>) -> u64 {
    match content {
        Some(piece) => match piece.color {
            crate::game::piece::PieceColor::White => 128u64 | kind_code(piece.piece_type),
            crate::game::piece::PieceColor::Black => kind_code(piece.piece_type),
        },
        None => 0,
    }
}

/// The word that packs the first `n` squares of the two ranks `pair` and
/// `pair + 1` from the top: each square shifts the word by four bits and
/// lays its code over the low end.
pub open spec fn packed_word(grid: Grid, pair: int, n: int) -> u64
    decreases n,
{
    if n <= 0 {
        0
    } else {
        let k = pair * 16 + n - 1;
        (packed_word(grid, pair, n - 1) << 4) | square_code(at(grid, 7 - k / 8, k % 8))
    }
}

/// The flags of a packed position: 16 if any castling right is held, 8 and
/// the column of the en-passant target if there is one.
pub open spec fn packed_flags(s: GameState) -> u8 {
    ((if s.rights[0].kingside || s.rights[0].queenside || s.rights[1].kingside
        || s.rights[1].queenside {
        16int
    } else {
        0int
    }) + (match s.en_passant {
        Some(p) => 8 + p.column,
        None => 0int,
    })) as u8
}

/// The position packed into words.
pub open spec fn packed(s: GameState) -> Packed {
    Packed {
        grid: seq![
            packed_word(s.grid, 0, 16),
            packed_word(s.grid, 1, 16),
            packed_word(s.grid, 2, 16),
            packed_word(s.grid, 3, 16),
        ],
        flags: packed_flags(s),
        turn: match s.turn {
            crate::game::piece::PieceColor::Black => PieceColor::Black,
            crate::game::piece::PieceColor::White => PieceColor::White,
        },
    }
}

/// The first place from `j` on that holds the packed position `key`, or
/// the length of the history if none does.
pub open spec fn seen_at(history: Seq<(Packed, u8)>, key: Packed, j: int) -> int
    decreases history.len() - j,
{
    if j < 0 || j >= history.len() || history[j].0 == key {
        j
    } else {
        seen_at(history, key, j + 1)
    }
}

/// The history with one more occurrence of `key`: its count goes up by one,
/// up to 255, or it is added with a count of one.
pub open spec fn recorded(history: Seq<(Packed, u8)>, key: Packed) -> Seq<(Packed, u8)> {
    let j = seen_at(history, key, 0);
    if j < history.len() {
        history.update(
            j,
            (
                key,
                if history[j].1 < 255 {
                    (history[j].1 + 1) as u8
                } else {
                    255u8
                },
            ),
        )
    } else {
        history.push((key, 1u8))
    }
}

/// Whether the move starts the count of moves without progress anew: a
/// pawn's move, a capture, a promotion.
pub open spec fn makes_progress(s: GameState, m: crate::game::chess_move::ChessMove) -> bool {
    match m {
        crate::game::chess_move::ChessMove::Move(from, to) => holds_kind(
            piece_at(s.grid, from),
            crate::game::piece::PieceType::Pawn,
        ) || piece_at(s.grid, to).is_some(),
        crate::game::chess_move::ChessMove::PawnPromote(from, to, piece_type) => true,
        _ => false,
    }
}

/// Whether the move is legal on the board.
pub open spec fn is_valid(s: BoardState, m: ChessMove) -> bool {
    to_rules_move(m) matches Some(x) && legal_moves(s.game).contains(x)
}

/// The board after the move: the position as the rules leave it, the clocks
/// moved on, and the position before added to the history.
pub open spec fn advanced(s: BoardState, m: ChessMove) -> BoardState {
    let x = to_rules_move(m)->0;
    BoardState {
        game: apply(s.game, x),
        half_moves: if makes_progress(s.game, x) {
            0
        } else {
            s.half_moves + 1
        },
        full_moves: if s.game.turn == crate::game::piece::PieceColor::Black {
            s.full_moves + 1
        } else {
            s.full_moves
        },
        history: recorded(s.history, packed(s.game)),
    }
}

/// The board that a text in Forsyth-Edwards notation describes: the
/// position, and the two clocks, of which the first has to fit in eight bits
/// and the second in sixteen.
pub open spec fn parse_board(s: Seq<char>) -> Result<BoardState, FenError> {
    match parse_fen(s) {
        Err(e) => Err(e),
        Ok(game) => {
            let fields = split(s, ' ');
            match parse_clock(fields[4], u8::MAX as int) {
                None => Err(FenError::HalfMoveClock),
                Some(half_moves) => match parse_clock(fields[5], u16::MAX as int) {
                    None => Err(FenError::FullMoveCounter),
                    Some(full_moves) => Ok(
                        BoardState { game, half_moves, full_moves, history: Seq::empty() },
                    ),
                },
            }
        },
    }
}

/// The first square from place `k` on, going down the files from the a-file
/// to the h-file, that holds a king of `color`.
pub open spec fn king_by_file(grid: Grid, color: crate::game::piece::PieceColor, k: int) -> Option<
    (usize, usize),
>
    decreases 64 - k,
{
    if k < 0 || k >= 64 {
        None
    } else if at(grid, 7 - k % 8, k / 8) == Some(
        crate::game::piece::Piece { piece_type: crate::game::piece::PieceType::King, color },
    ) {
        Some(((k % 8) as usize, (k / 8) as usize))
    } else {
        king_by_file(grid, color, k + 1)
    }
}

/// The square of an enemy knight on (row, column), counted as the rules
/// count, or nothing.
pub open spec fn knight_threat_at(
    grid: Grid,
    row: int,
    column: int,
    color: crate::game::piece::PieceColor,
) -> Seq<(usize, usize)> {
    if crate::game::board::enemy_knight_at(grid, row, column, color) {
        seq![((7 - row) as usize, column as usize)]
    } else {
        Seq::empty()
    }
}

/// The square of the first occupant along a rank or file from `p`, if it
/// attacks `p`, or nothing.
pub open spec fn straight_threat_at(
    grid: Grid,
    p: Position,
    d_row: int,
    d_column: int,
    color: crate::game::piece::PieceColor,
) -> Seq<(usize, usize)> {
    if crate::game::board::straight_threat(grid, p, d_row, d_column, color) {
        seq![to_loc(crate::game::board::ray_hit_square(grid, p, d_row, d_column)->0)]
    } else {
        Seq::empty()
    }
}

/// The square of the first occupant along a diagonal from `p`, if it
/// attacks `p`, or nothing.
pub open spec fn diagonal_threat_at(
    grid: Grid,
    p: Position,
    d_row: int,
    d_column: int,
    color: crate::game::piece::PieceColor,
) -> Seq<(usize, usize)> {
    if crate::game::board::diagonal_threat(grid, p, d_row, d_column, color) {
        seq![to_loc(crate::game::board::ray_hit_square(grid, p, d_row, d_column)->0)]
    } else {
        Seq::empty()
    }
}

/// The squares from which the enemy of `color` attacks `p`: the knights,
/// then the attackers along the rank and the file, then those along the
/// diagonals.
pub open spec fn threats(grid: Grid, p: Position, color: crate::game::piece::PieceColor) -> Seq<
    (usize, usize),
> {
    let r = p.row as int;
    let c = p.column as int;
    knight_threat_at(grid, r + 2, c - 1, color) + knight_threat_at(grid, r + 1, c - 2, color)
        + knight_threat_at(grid, r + 2, c + 1, color) + knight_threat_at(grid, r - 1, c - 2, color)
        + knight_threat_at(grid, r - 2, c - 1, color) + knight_threat_at(grid, r + 1, c + 2, color)
        + knight_threat_at(grid, r - 2, c + 1, color) + knight_threat_at(grid, r - 1, c + 2, color)
        + straight_threat_at(grid, p, 0, 1, color) + straight_threat_at(grid, p, 0, -1, color)
        + straight_threat_at(grid, p, -1, 0, color) + straight_threat_at(grid, p, 1, 0, color)
        + diagonal_threat_at(grid, p, -1, 1, color) + diagonal_threat_at(grid, p, -1, -1, color)
        + diagonal_threat_at(grid, p, 1, 1, color) + diagonal_threat_at(grid, p, 1, -1, color)
}

/// A square is attacked exactly when there is a square from which it is.
pub proof fn lemma_threats_show_attack(
    grid: Grid,
    p: Position,
    color: crate::game::piece::PieceColor,
)
    ensures
        threats(grid, p, color).len() > 0 <==> attacked(grid, p, color),
{
}

/// Whether the two pieces that a line through a square meets on its two
/// sides pin the piece on the square: they are of different colours, one is
/// the king of `color`, and the other moves along such a line.
pub open spec fn pins(
    first: Option<(crate::game::piece::Piece, int)>,
    second: Option<(crate::game::piece::Piece, int)>,
    color: crate::game::piece::PieceColor,
    straight: bool,
) -> bool {
    match (first, second) {
        (Some((a, _)), Some((b, _))) => {
            let king = crate::game::piece::Piece {
                piece_type: crate::game::piece::PieceType::King,
                color,
            };
            a.color != b.color && ((a == king && slides_along(b.piece_type, straight)) || (b == king
                && slides_along(a.piece_type, straight)))
        },
        _ => false,
    }
}

/// Whether a piece of the kind moves along ranks and files, or along
/// diagonals.
pub open spec fn slides_along(piece_type: crate::game::piece::PieceType, straight: bool) -> bool {
    piece_type == crate::game::piece::PieceType::Queen || (if straight {
        piece_type == crate::game::piece::PieceType::Rook
    } else {
        piece_type == crate::game::piece::PieceType::Bishup
    })
}

/// The lines along which the piece on `p` is pinned to the king of `color`,
/// as a set of bits.
pub open spec fn pin_lines(grid: Grid, p: Position, color: crate::game::piece::PieceColor) -> u8 {
    ((if pins(ray_hit(grid, p, 0, -1), ray_hit(grid, p, 0, 1), color, true) {
        8int
    } else {
        0int
    }) + (if pins(ray_hit(grid, p, 1, 0), ray_hit(grid, p, -1, 0), color, true) {
        4int
    } else {
        0int
    }) + (if pins(ray_hit(grid, p, -1, -1), ray_hit(grid, p, 1, 1), color, false) {
        2int
    } else {
        0int
    }) + (if pins(ray_hit(grid, p, 1, -1), ray_hit(grid, p, -1, 1), color, false) {
        1int
    } else {
        0int
    })) as u8
}

/// A move of the rules by the (row, column) of its squares.
pub open spec fn from_rules_move(m: crate::game::chess_move::ChessMove) -> ChessMove {
    match m {
        crate::game::chess_move::ChessMove::CastleKingside => ChessMove::CastleKingside,
        crate::game::chess_move::ChessMove::CastleQueenside => ChessMove::CastleQueenside,
        crate::game::chess_move::ChessMove::Move(from, to) => ChessMove::Move(
            to_loc(from),
            to_loc(to),
        ),
        crate::game::chess_move::ChessMove::PawnPromote(from, to, piece_type) => ChessMove::PawnPromote(
            to_loc(from),
            to_loc(to),
            from_rules_kind(piece_type),
        ),
    }
}

/// The moves of the rules by the (row, column) of their squares.
pub open spec fn from_rules_moves(moves: Seq<crate::game::chess_move::ChessMove>) -> Seq<ChessMove> {
    Seq::new(moves.len(), |i: int| from_rules_move(moves[i]))
}

/// The squares by (row, column) of the squares of the rules.
pub open spec fn to_locs(squares: Seq<Position>) -> Seq<(usize, usize)> {
    Seq::new(squares.len(), |i: int| to_loc(squares[i]))
}

/// The squares that a piece of `color` on `p` can slide to along the first
/// `n` of the directions, each given as (rows, columns) with row 0 being the
/// eighth rank.
pub open spec fn slides_upto(
    grid: Grid,
    p: Position,
    color: crate::game::piece::PieceColor,
    directions: Seq<(isize, isize)>,
    n: int,
) -> Seq<Position>
    decreases n,
{
    if n <= 0 {
        Seq::empty()
    } else {
        slides_upto(grid, p, color, directions, n - 1) + crate::game::board::slide(
            grid,
            p,
            -directions[n - 1].0,
            directions[n - 1].1 as int,
            color,
            false,
        )
    }
}

/// What a square counts as a digit in base 13: nothing if it is empty, else
/// one to six for Black's king, queen, bishop, knight, rook and pawn, and
/// seven to twelve for White's.
pub open spec fn digit13(content: Option<crate::game::piece::Piece>) -> int {
    match content {
        Some(piece) => kind_code(piece.piece_type) + (match piece.color {
            crate::game::piece::PieceColor::White => 6int,
            crate::game::piece::PieceColor::Black => 0int,
        }),
        None => 0,
    }
}

/// The first `n` squares, read rank by rank from a8, as the digits of a
/// number in base 13, the first square being the most significant.
pub open spec fn number13(grid: Grid, n: int) -> int
    decreases n,
{
    if n <= 0 {
        0
    } else {
        number13(grid, n - 1) * 13 + digit13(at(grid, 7 - (n - 1) / 8, (n - 1) % 8))
    }
}

/// Thirteen to the power of `n`.
pub open spec fn pow13(n: int) -> int
    decreases n,
{
    if n <= 0 {
        1
    } else {
        13 * pow13(n - 1)
    }
}

/// The flags that go with a number in base 13: 256 for White to move, 16 if
/// any castling right is held, 8 and the column of the en-passant target if
/// there is one.
pub open spec fn flags13(s: GameState) -> int {
    (match s.turn {
        crate::game::piece::PieceColor::White => 256int,
        crate::game::piece::PieceColor::Black => 0int,
    }) + packed_flags(s)
}

/// The number that four words stand for, the first being the least
/// significant.
pub open spec fn words_value(words: Seq<u64>) -> int {
    words[0] + words[1] * 18446744073709551616int + words[2] * 340282366920938463463374607431768211456int + words[3] * 6277101735386680763835789423207666416102355444464034512896int
}

/// Two to the power of 247: where the flags start in the four words.
pub open spec fn flags_unit() -> int {
    226156424291633194186662080095093570025917938800079226639565593765455331328int
}

/// Eight more squares multiply by thirteen to the eighth.
pub proof fn lemma_pow13_step(n: int)
    requires
        n >= 0,
    ensures
        pow13(n + 8) == 815730721 * pow13(n),
{
    assert(pow13(n + 1) == 13 * pow13(n));
    assert(pow13(n + 2) == 13 * pow13(n + 1));
    assert(pow13(n + 3) == 13 * pow13(n + 2));
    assert(pow13(n + 4) == 13 * pow13(n + 3));
    assert(pow13(n + 5) == 13 * pow13(n + 4));
    assert(pow13(n + 6) == 13 * pow13(n + 5));
    assert(pow13(n + 7) == 13 * pow13(n + 6));
    assert(pow13(n + 8) == 13 * pow13(n + 7));
}

/// Thirteen to the power of 64, which is less than two to the power of 237.
pub proof fn lemma_pow13_of_64()
    ensures
        pow13(64) == 196053476430761073330659760423566015424403280004115787589590963842248961int,
{
    assert(pow13(0) == 1);
    lemma_pow13_step(0);
    lemma_pow13_step(8);
    lemma_pow13_step(16);
    lemma_pow13_step(24);
    lemma_pow13_step(32);
    lemma_pow13_step(40);
    lemma_pow13_step(48);
    lemma_pow13_step(56);
    assert(pow13(8) == 815730721);
    assert(pow13(16) == 665416609183179841int);
    assert(pow13(24) == 542800770374370512771595361int);
    assert(pow13(32) == 442779263776840698304313192148785281int);
    assert(pow13(40) == 361188648084531445929920877641340156544317601int);
    assert(pow13(48) == 294632676319010105335586872991323185304149065116720321int);
    assert(pow13(56) == 240340925483865739231684226863347488692170121179138216604681441int);
}

/// The powers of thirteen grow.
pub proof fn lemma_pow13_grows(a: int, b: int)
    requires
        0 <= a <= b,
    ensures
        1 <= pow13(a) <= pow13(b),
    decreases b,
{
    if a < b {
        lemma_pow13_grows(a, b - 1);
    } else if a > 0 {
        lemma_pow13_grows(a - 1, a - 1);
    }
}

/// The number of the first `n` squares has `n` digits.
pub proof fn lemma_number13_bound(grid: Grid, n: int)
    requires
        0 <= n,
    ensures
        0 <= number13(grid, n) < pow13(n),
    decreases n,
{
    if n > 0 {
        lemma_number13_bound(grid, n - 1);
    }
}

/// Reads a number of decimal digits that is not above `limit`.
pub fn read_clock(text: &Vec<char>, limit: u32) -> (r: Option<u32>)
    requires
        limit <= u16::MAX,
    ensures
        match parse_clock(text@, limit as int) {
            Some(value) => r matches Some(v) && v as int == value && v <= limit,
            None => r.is_none(),
        },
{
    if !check_number(text) {
        return None;
    }
    let mut value: u32 = 0;
    let mut i: usize = 0;
    while i < text.len()
        invariant
            i <= text.len(),
            is_number(text@),
            limit <= u16::MAX,
            value <= limit,
            value == decimal(text@.subrange(0, i as int)),
        decreases text.len() - i,
    {
        let ghost next = text@.subrange(0, i + 1);
        assert(next.drop_last() =~= text@.subrange(0, i as int));
        assert(is_digit(text@[i as int]));
        let digit = (text[i] as u8 - 48) as u32;
        value = value * 10 + digit;
        if value > limit {
            proof {
                lemma_decimal_grows(text@, i + 1);
            }
            return None;
        }
        i = i + 1;
    }
    assert(text@.subrange(0, i as int) =~= text@);
    Some(value)
}

/// The number that a text of digits stands for is not less than the number
/// that any of its prefixes stands for.
pub proof fn lemma_decimal_grows(s: Seq<char>, n: int)
    requires
        is_number(s),
        0 <= n <= s.len(),
    ensures
        0 <= decimal(s.subrange(0, n)) <= decimal(s),
    decreases s.len() - n,
{
    lemma_decimal_not_negative(s.subrange(0, n));
    if n < s.len() {
        let longer = s.subrange(0, n + 1);
        assert(longer.drop_last() =~= s.subrange(0, n));
        assert(is_digit(s[n]));
        lemma_decimal_grows(s, n + 1);
    } else {
        assert(s.subrange(0, n) =~= s);
    }
}

/// A text stands for no negative number.
pub proof fn lemma_decimal_not_negative(s: Seq<char>)
    requires
        forall|i: int| 0 <= i < s.len() ==> is_digit(#[trigger] s[i]),
    ensures
        0 <= decimal(s),
    decreases s.len(),
{
    if s.len() > 0 {
        lemma_decimal_not_negative(s.drop_last());
    }
}

impl Board {
    /// Every count of the board has room for one more move, and the position
    /// is one that the rules accept.
    pub open spec fn can_move(self) -> bool {
        &&& self.game.valid()
        &&& self.game.half_moves < u16::MAX
        &&& self.half_moves < u8::MAX
        &&& self.full_moves < u16::MAX
    }

    /// The board with the pieces on their starting squares.
    pub fn new() -> (b: Board)
        ensures
            b@ == (BoardState {
                game: crate::game::fen::initial_state(),
                half_moves: 0,
                full_moves: 1,
                history: Seq::empty(),
            }),
            b.game.valid(),
    {
        let b = Board {
            game: Game::new(),
            half_moves: 0,
            full_moves: 1,
            previous_states: Vec::new(),
        };
        assert(history_of(b.previous_states@) =~= Seq::empty());
        b
    }

    /// A board without pieces: White to move, no castling right, the first
    /// move still to be made.
    pub fn empty() -> (b: Board)
        ensures
            b.game@.grid == crate::game::board::empty_grid(),
            b.game@.turn == crate::game::piece::PieceColor::White,
            b.game@.en_passant.is_none(),
            b.game@.rights == crate::game::fen::no_rights(),
            b@.half_moves == 0,
            b@.full_moves == 1,
            b@.history == Seq::<(Packed, u8)>::empty(),
            b.game.valid(),
    {
        let b = Board {
            game: Game::default(),
            half_moves: 0,
            full_moves: 1,
            previous_states: Vec::new(),
        };
        assert(history_of(b.previous_states@) =~= Seq::empty());
        b
    }

    /// Reads a board in Forsyth-Edwards notation, clocks and all.
    pub fn from_fen(fen_str: &str) -> (r: Result<Board, FenError>)
        ensures
            match parse_board(fen_str@) {
                Ok(state) => r matches Ok(b) && b@ == state && b.game.valid(),
                Err(e) => r matches Err(x) && x == e,
            },
    {
        let game = match Game::from_fen(fen_str) {
            Ok(game) => game,
            Err(e) => {
                return Err(e);
            },
        };
        let chars = chars_of(fen_str);
        let fields = split_chars(&chars, ' ');
        assert(texts(fields@).len() == fields@.len());
        assert(fields@.len() == 6);
        assert(texts(fields@)[4] == fields@[4]@);
        assert(texts(fields@)[5] == fields@[5]@);
        let half_moves = match read_clock(&fields[4], 255) {
            Some(value) => value as u8,
            None => {
                return Err(FenError::HalfMoveClock);
            },
        };
        let full_moves = match read_clock(&fields[5], 65535) {
            Some(value) => value as u16,
            None => {
                return Err(FenError::FullMoveCounter);
            },
        };
        let b = Board { game, half_moves, full_moves, previous_states: Vec::new() };
        assert(history_of(b.previous_states@) =~= Seq::empty());
        Ok(b)
    }

    /// Whether the text names a square of the board.
    pub fn is_valid_loc(loc: &str) -> (r: bool)
        ensures
            r == names_square(loc@),
    {
        if loc.unicode_len() != 2 {
            return false;
        }
        let file = loc.get_char(0);
        let rank = loc.get_char(1);
        file >= 'a' && file <= 'h' && rank >= '1' && rank <= '8'
    }

    /// The (row, column) of the square that the text names, row 0 being the
    /// eighth rank.
    pub fn get_loc(loc: &str) -> (r: Result<(usize, usize), &'static str>)
        ensures
            names_square(loc@) ==> r == Ok::<(usize, usize), &'static str>(square_of(loc@)),
            !names_square(loc@) ==> (r matches Err(text) && text@ == "Invalid square location"@),
    {
        if !Board::is_valid_loc(loc) {
            return Err("Invalid square location");
        }
        let file = loc.get_char(0);
        let rank = loc.get_char(1);
        Ok(((7 - (rank as u8 - 49)) as usize, (file as u8 - 97) as usize))
    }

    /// The move as the rules know it.
    pub fn rules_move(chess_move: &ChessMove) -> (r: Option<crate::game::chess_move::ChessMove>)
        ensures
            r == to_rules_move(*chess_move),
            r matches Some(x) ==> x.valid(),
    {
        match chess_move {
            ChessMove::CastleKingside => Some(crate::game::chess_move::ChessMove::CastleKingside),
            ChessMove::CastleQueenside => Some(crate::game::chess_move::ChessMove::CastleQueenside),
            ChessMove::Move(from, to) => {
                if from.0 < 8 && from.1 < 8 && to.0 < 8 && to.1 < 8 {
                    Some(
                        crate::game::chess_move::ChessMove::Move(
                            Position { row: 7 - from.0, column: from.1 },
                            Position { row: 7 - to.0, column: to.1 },
                        ),
                    )
                } else {
                    None
                }
            },
            ChessMove::PawnPromote(from, to, piece_type) => {
                let kind = match piece_type {
                    PieceType::Queen => crate::game::piece::PieceType::Queen,
                    PieceType::Bishup => crate::game::piece::PieceType::Bishup,
                    PieceType::Knight => crate::game::piece::PieceType::Knight,
                    PieceType::Rook => crate::game::piece::PieceType::Rook,
                    _ => {
                        return None;
                    },
                };
                if from.0 < 8 && from.1 < 8 && to.0 < 8 && to.1 < 8 {
                    Some(
                        crate::game::chess_move::ChessMove::PawnPromote(
                            Position { row: 7 - from.0, column: from.1 },
                            Position { row: 7 - to.0, column: to.1 },
                            kind,
                        ),
                    )
                } else {
                    None
                }
            },
        }
    }

    /// Whether the move is legal on the board.
    pub fn is_valid_move(&self, chess_move: ChessMove) -> (r: bool)
        requires
            self.game.valid(),
        ensures
            r == is_valid(self@, chess_move),
    {
        let wanted = match Self::rules_move(&chess_move) {
            Some(wanted) => wanted,
            None => {
                return false;
            },
        };
        let moves = self.game.get_moves();
        let mut i: usize = 0;
        while i < moves.len()
            invariant
                i <= moves.len(),
                moves@ == legal_moves(self.game@),
                to_rules_move(chess_move) == Some(wanted),
                forall|j: int| 0 <= j < i ==> moves@[j] != wanted,
            decreases moves.len() - i,
        {
            if moves[i] == wanted {
                return true;
            }
            i = i + 1;
        }
        false
    }
    /// A colour as the rules know it.
    pub fn rules_color(color: PieceColor) -> (r: crate::game::piece::PieceColor)
        ensures
            r == to_rules_color(color),
    {
        match color {
            PieceColor::Black => crate::game::piece::PieceColor::Black,
            PieceColor::White => crate::game::piece::PieceColor::White,
        }
    }

    /// A piece of the rules as this board knows it.
    pub fn board_piece(piece: crate::game::piece::Piece) -> (r: Piece)
        ensures
            r == from_rules_piece(piece),
    {
        Piece {
            piece_type: match piece.piece_type {
                crate::game::piece::PieceType::King => PieceType::King,
                crate::game::piece::PieceType::Queen => PieceType::Queen,
                crate::game::piece::PieceType::Bishup => PieceType::Bishup,
                crate::game::piece::PieceType::Knight => PieceType::Knight,
                crate::game::piece::PieceType::Rook => PieceType::Rook,
                crate::game::piece::PieceType::Pawn => PieceType::Pawn,
            },
            piece_color: match piece.color {
                crate::game::piece::PieceColor::Black => PieceColor::Black,
                crate::game::piece::PieceColor::White => PieceColor::White,
            },
        }
    }

    /// The square of the king of `piece_color`: the first that is met going
    /// down the files from the a-file to the h-file.
    pub fn get_king_loc(&self, piece_color: PieceColor) -> (r: Option<(usize, usize)>)
        ensures
            r == king_by_file(self.game@.grid, to_rules_color(piece_color), 0),
            r matches Some(loc) ==> is_square(loc),
    {
        let color = Self::rules_color(piece_color);
        let mut k: usize = 0;
        while k < 64
            invariant
                k <= 64,
                color == to_rules_color(piece_color),
                king_by_file(self.game@.grid, color, k as int) == king_by_file(
                    self.game@.grid,
                    color,
                    0,
                ),
            decreases 64 - k,
        {
            match self.game.board.piece(7 - k % 8, k / 8) {
                Some(piece) => {
                    if piece.color == color && piece.piece_type
                        == crate::game::piece::PieceType::King {
                        return Some((k % 8, k / 8));
                    }
                },
                None => {},
            }
            k = k + 1;
        }
        None
    }

    /// The first piece seen from `loc` in the direction `dir`, given as
    /// (rows, columns) with row 0 being the eighth rank, and its distance in
    /// steps.
    pub fn cast_ray(&self, loc: (usize, usize), dir: (isize, isize)) -> (r: Option<(Piece, usize)>)
        requires
            is_square(loc),
        ensures
            match ray_hit(self.game@.grid, to_position(loc), -dir.0, dir.1 as int) {
                Some((piece, distance)) => r == Some((from_rules_piece(piece), distance as usize)),
                None => r.is_none(),
            },
    {
        if dir.0 < -7 || dir.0 > 7 {
            return None;
        }
        let position = Position { row: 7 - loc.0, column: loc.1 };
        match self.game.board.cast_ray(&position, -dir.0, dir.1) {
            Some((piece, distance)) => Some((Self::board_piece(piece), distance)),
            None => None,
        }
    }

    /// Appends the square of an enemy knight on (row, column), counted as
    /// the rules count.
    fn add_knight_threat(
        &self,
        row: isize,
        column: isize,
        color: crate::game::piece::PieceColor,
        out: &mut Vec<(usize, usize)>,
    )
        ensures
            final(out)@ == old(out)@ + knight_threat_at(
                self.game@.grid,
                row as int,
                column as int,
                color,
            ),
    {
        if 0 <= row && row <= 7 && 0 <= column && column <= 7 {
            match self.game.board.piece(row as usize, column as usize) {
                Some(piece) => {
                    if piece.piece_type == crate::game::piece::PieceType::Knight && piece.color
                        != color {
                        out.push(((7 - row) as usize, column as usize));
                        return ;
                    }
                },
                None => {},
            }
        }
        assert(out@ =~= old(out)@ + Seq::<(usize, usize)>::empty());
    }

    /// Appends the square of the first occupant along a line from
    /// `position`, if it attacks `position`.
    fn add_ray_threat(
        &self,
        position: &Position,
        d_row: isize,
        d_column: isize,
        color: crate::game::piece::PieceColor,
        straight: bool,
        out: &mut Vec<(usize, usize)>,
    )
        requires
            position.valid(),
        ensures
            final(out)@ == old(out)@ + (if straight {
                straight_threat_at(self.game@.grid, *position, d_row as int, d_column as int, color)
            } else {
                diagonal_threat_at(self.game@.grid, *position, d_row as int, d_column as int, color)
            }),
    {
        let forward: isize = match color {
            crate::game::piece::PieceColor::White => 1,
            crate::game::piece::PieceColor::Black => -1,
        };
        match self.game.board.cast_ray_to(position, d_row, d_column) {
            Some((piece, distance, square)) => {
                let close = distance == 1;
                let hits = piece.color != color && (piece.piece_type
                    == crate::game::piece::PieceType::Queen || (piece.piece_type
                    == crate::game::piece::PieceType::King && close) || (if straight {
                    piece.piece_type == crate::game::piece::PieceType::Rook
                } else {
                    piece.piece_type == crate::game::piece::PieceType::Bishup || (piece.piece_type
                        == crate::game::piece::PieceType::Pawn && close && d_row == forward)
                }));
                if hits {
                    out.push((7 - square.row, square.column));
                    return ;
                }
            },
            None => {},
        }
        assert(out@ =~= old(out)@ + Seq::<(usize, usize)>::empty());
    }

    /// The squares from which the enemy of `cur_player` attacks `loc`. A
    /// place off the board is attacked from nowhere.
    pub fn get_threats(&self, loc: (usize, usize), cur_player: PieceColor) -> (r: Vec<(usize, usize)>)
        ensures
            is_square(loc) ==> r@ == threats(
                self.game@.grid,
                to_position(loc),
                to_rules_color(cur_player),
            ),
            !is_square(loc) ==> r@.len() == 0,
    {
        let mut result: Vec<(usize, usize)> = Vec::new();
        if loc.0 >= 8 || loc.1 >= 8 {
            return result;
        }
        let color = Self::rules_color(cur_player);
        let position = Position { row: 7 - loc.0, column: loc.1 };
        let row = position.row as isize;
        let column = position.column as isize;
        self.add_knight_threat(row + 2, column - 1, color, &mut result);
        self.add_knight_threat(row + 1, column - 2, color, &mut result);
        self.add_knight_threat(row + 2, column + 1, color, &mut result);
        self.add_knight_threat(row - 1, column - 2, color, &mut result);
        self.add_knight_threat(row - 2, column - 1, color, &mut result);
        self.add_knight_threat(row + 1, column + 2, color, &mut result);
        self.add_knight_threat(row - 2, column + 1, color, &mut result);
        self.add_knight_threat(row - 1, column + 2, color, &mut result);
        self.add_ray_threat(&position, 0, 1, color, true, &mut result);
        self.add_ray_threat(&position, 0, -1, color, true, &mut result);
        self.add_ray_threat(&position, -1, 0, color, true, &mut result);
        self.add_ray_threat(&position, 1, 0, color, true, &mut result);
        self.add_ray_threat(&position, -1, 1, color, false, &mut result);
        self.add_ray_threat(&position, -1, -1, color, false, &mut result);
        self.add_ray_threat(&position, 1, 1, color, false, &mut result);
        self.add_ray_threat(&position, 1, -1, color, false, &mut result);
        assert(result@ =~= threats(self.game@.grid, position, color));
        result
    }

    /// Whether the king of the side to move is attacked. A side without a
    /// king is not in check.
    pub fn has_check(&self) -> (r: bool)
        ensures
            r == (king_by_file(self.game@.grid, self.game@.turn, 0) matches Some(loc) && attacked(
                self.game@.grid,
                to_position(loc),
                self.game@.turn,
            )),
    {
        let turn = match self.game.turn {
            crate::game::piece::PieceColor::Black => PieceColor::Black,
            crate::game::piece::PieceColor::White => PieceColor::White,
        };
        match self.get_king_loc(turn) {
            Some(king_pos) => {
                proof {
                    lemma_threats_show_attack(
                        self.game@.grid,
                        to_position(king_pos),
                        self.game@.turn,
                    );
                }
                self.get_threats(king_pos, turn).len() > 0
            },
            None => false,
        }
    }

    /// Whether the two pieces pin what stands between them.
    fn is_pin(
        first: Option<(crate::game::piece::Piece, usize)>,
        second: Option<(crate::game::piece::Piece, usize)>,
        color: crate::game::piece::PieceColor,
        straight: bool,
    ) -> (r: bool)
        ensures
            r == pins(
                match first {
                    Some((piece, distance)) => Some((piece, distance as int)),
                    None => None,
                },
                match second {
                    Some((piece, distance)) => Some((piece, distance as int)),
                    None => None,
                },
                color,
                straight,
            ),
    {
        match (first, second) {
            (Some((a, _)), Some((b, _))) => {
                let a_king = a.piece_type == crate::game::piece::PieceType::King && a.color == color;
                let b_king = b.piece_type == crate::game::piece::PieceType::King && b.color == color;
                let a_slides = a.piece_type == crate::game::piece::PieceType::Queen || (if straight {
                    a.piece_type == crate::game::piece::PieceType::Rook
                } else {
                    a.piece_type == crate::game::piece::PieceType::Bishup
                });
                let b_slides = b.piece_type == crate::game::piece::PieceType::Queen || (if straight {
                    b.piece_type == crate::game::piece::PieceType::Rook
                } else {
                    b.piece_type == crate::game::piece::PieceType::Bishup
                });
                a.color != b.color && ((a_king && b_slides) || (b_king && a_slides))
            },
            _ => false,
        }
    }

    /// The first occupant along one direction, as the rules see it.
    fn look(&self, position: &Position, d_row: isize, d_column: isize) -> (r: Option<
        (crate::game::piece::Piece, usize),
    >)
        requires
            position.valid(),
        ensures
            (match r {
                Some((piece, distance)) => Some((piece, distance as int)),
                None => None,
            }) == ray_hit(self.game@.grid, *position, d_row as int, d_column as int),
    {
        self.game.board.cast_ray(position, d_row, d_column)
    }

    /// The lines along which the piece on `loc` is pinned to the king of
    /// `piece_color`: 8 for the rank, 4 for the file, 2 for the rising
    /// diagonal and 1 for the falling one, added up.
    pub fn get_pins(&self, loc: (usize, usize), piece_color: PieceColor) -> (r: u8)
        requires
            is_square(loc),
        ensures
            r == pin_lines(self.game@.grid, to_position(loc), to_rules_color(piece_color)),
    {
        let color = Self::rules_color(piece_color);
        let position = Position { row: 7 - loc.0, column: loc.1 };
        let mut result: u8 = 0;
        if Self::is_pin(self.look(&position, 0, -1), self.look(&position, 0, 1), color, true) {
            result = result + 8;
        }
        if Self::is_pin(self.look(&position, 1, 0), self.look(&position, -1, 0), color, true) {
            result = result + 4;
        }
        if Self::is_pin(self.look(&position, -1, -1), self.look(&position, 1, 1), color, false) {
            result = result + 2;
        }
        if Self::is_pin(self.look(&position, 1, -1), self.look(&position, -1, 1), color, false) {
            result = result + 1;
        }
        result
    }

    /// A move of the rules by the (row, column) of its squares.
    pub fn board_move(chess_move: &crate::game::chess_move::ChessMove) -> (r: ChessMove)
        requires
            chess_move.valid(),
        ensures
            r == from_rules_move(*chess_move),
    {
        match chess_move {
            crate::game::chess_move::ChessMove::CastleKingside => ChessMove::CastleKingside,
            crate::game::chess_move::ChessMove::CastleQueenside => ChessMove::CastleQueenside,
            crate::game::chess_move::ChessMove::Move(from, to) => ChessMove::Move(
                (7 - from.row, from.column),
                (7 - to.row, to.column),
            ),
            crate::game::chess_move::ChessMove::PawnPromote(
                from,
                to,
                piece_type,
            ) => ChessMove::PawnPromote(
                (7 - from.row, from.column),
                (7 - to.row, to.column),
                match piece_type {
                    crate::game::piece::PieceType::King => PieceType::King,
                    crate::game::piece::PieceType::Queen => PieceType::Queen,
                    crate::game::piece::PieceType::Bishup => PieceType::Bishup,
                    crate::game::piece::PieceType::Knight => PieceType::Knight,
                    crate::game::piece::PieceType::Rook => PieceType::Rook,
                    crate::game::piece::PieceType::Pawn => PieceType::Pawn,
                },
            ),
        }
    }

    /// Every legal move of the side to move, found by trying each move on a
    /// copy of the board and looking at the king afterwards.
    pub fn get_valid_moves(&self) -> (r: Vec<ChessMove>)
        requires
            self.game.valid(),
        ensures
            r@ == from_rules_moves(legal_moves(self.game@)),
    {
        let moves = self.game.get_moves();
        let mut result: Vec<ChessMove> = Vec::new();
        let mut i: usize = 0;
        while i < moves.len()
            invariant
                i <= moves.len(),
                all_valid(moves@),
                result@ == from_rules_moves(moves@.subrange(0, i as int)),
            decreases moves.len() - i,
        {
            result.push(Self::board_move(&moves[i]));
            assert(result@ =~= from_rules_moves(moves@.subrange(0, i + 1)));
            i = i + 1;
        }
        assert(moves@.subrange(0, i as int) =~= moves@);
        result
    }
    /// What a square counts in a packed position.
    fn code_of(content: Option<crate::game::piece::Piece>) -> (r: u64)
        ensures
            r == square_code(content),
    {
        match content {
            Some(piece) => {
                let kind: u64 = match piece.piece_type {
                    crate::game::piece::PieceType::King => 1,
                    crate::game::piece::PieceType::Queen => 2,
                    crate::game::piece::PieceType::Bishup => 3,
                    crate::game::piece::PieceType::Knight => 4,
                    crate::game::piece::PieceType::Rook => 5,
                    crate::game::piece::PieceType::Pawn => 6,
                };
                match piece.color {
                    crate::game::piece::PieceColor::White => 128u64 | kind,
                    crate::game::piece::PieceColor::Black => kind,
                }
            },
            None => 0,
        }
    }

    /// The word that packs the two ranks `pair` and `pair + 1` from the top.
    fn pack_word(&self, pair: usize) -> (r: u64)
        requires
            pair < 4,
        ensures
            r == packed_word(self.game@.grid, pair as int, 16),
    {
        let mut word: u64 = 0;
        let mut n: usize = 0;
        while n < 16
            invariant
                n <= 16,
                pair < 4,
                word == packed_word(self.game@.grid, pair as int, n as int),
            decreases 16 - n,
        {
            let k = pair * 16 + n;
            let code = Self::code_of(self.game.board.piece(7 - k / 8, k % 8));
            word = (word << 4) | code;
            n = n + 1;
        }
        word
    }

    /// The position packed into a few words, as it is kept in the history.
    pub fn encode_squares(&self) -> (r: EncodedBoard)
        requires
            self.game.valid(),
        ensures
            r@ == packed(self.game@),
    {
        let rights = self.game.castle_rights;
        let any: u8 = if rights[0].kingside || rights[0].queenside || rights[1].kingside
            || rights[1].queenside {
            16
        } else {
            0
        };
        let target: u8 = match self.game.en_passant {
            Some(p) => 8 + p.column as u8,
            None => 0,
        };
        let grid = [self.pack_word(0), self.pack_word(1), self.pack_word(2), self.pack_word(3)];
        let r = EncodedBoard {
            grid,
            flags: any + target,
            turn: match self.game.turn {
                crate::game::piece::PieceColor::Black => PieceColor::Black,
                crate::game::piece::PieceColor::White => PieceColor::White,
            },
        };
        assert(r@.grid =~= packed(self.game@).grid);
        r
    }

    /// Whether two packed positions are the same.
    fn same_state(a: &EncodedBoard, b: &EncodedBoard) -> (r: bool)
        ensures
            r == (a@ == b@),
    {
        let same_turn = match (a.turn, b.turn) {
            (PieceColor::Black, PieceColor::Black) => true,
            (PieceColor::White, PieceColor::White) => true,
            _ => false,
        };
        let r = a.grid[0] == b.grid[0] && a.grid[1] == b.grid[1] && a.grid[2] == b.grid[2]
            && a.grid[3] == b.grid[3] && a.flags == b.flags && same_turn;
        proof {
            if r {
                assert(a@.grid =~= b@.grid);
            }
        }
        r
    }

    /// Adds one occurrence of `key` to the history.
    fn record(&mut self, key: EncodedBoard)
        ensures
            final(self)@.history == recorded(old(self)@.history, key@),
            final(self).game == old(self).game,
            final(self).half_moves == old(self).half_moves,
            final(self).full_moves == old(self).full_moves,
    {
        let ghost history = history_of(self.previous_states@);
        let mut j: usize = 0;
        while j < self.previous_states.len() && !Self::same_state(&self.previous_states[j].0, &key)
            invariant
                j <= self.previous_states.len(),
                *self == *old(self),
                history == history_of(self.previous_states@),
                seen_at(history, key@, j as int) == seen_at(history, key@, 0),
            decreases self.previous_states.len() - j,
        {
            assert(history[j as int].0 == self.previous_states@[j as int].0@);
            j = j + 1;
        }
        proof {
            if j < self.previous_states.len() {
                assert(history[j as int].0 == self.previous_states@[j as int].0@);
            }
        }
        if j < self.previous_states.len() {
            let count = self.previous_states[j].1;
            let next = if count < 255 {
                count + 1
            } else {
                255
            };
            self.previous_states[j] = (key, next);
            assert(history_of(self.previous_states@) =~= history.update(j as int, (key@, next)));
        } else {
            self.previous_states.push((key, 1));
            assert(history_of(self.previous_states@) =~= history.push((key@, 1u8)));
        }
    }

    /// Makes the move that the text stands for, if the text is a move and the
    /// move is legal, and says whether it did. A text that is no move, and a
    /// move that is not legal, leave the board as it is.
    pub fn make_move(&mut self, move_str: &str) -> (r: bool)
        requires
            old(self).can_move(),
        ensures
            r == (parse_typed_move(move_str@) matches Ok(m) && is_valid(old(self)@, m)),
            r ==> final(self)@ == advanced(old(self)@, parse_typed_move(move_str@)->Ok_0)
                && final(self).game.valid(),
            !r ==> *final(self) == *old(self),
    {
        let chess_move = match ChessMove::new(move_str) {
            Ok(chess_move) => chess_move,
            Err(_) => {
                return false;
            },
        };
        if !self.is_valid_move(chess_move) {
            return false;
        }
        let wanted = match Self::rules_move(&chess_move) {
            Some(wanted) => wanted,
            None => {
                return false;
            },
        };
        let current_state = self.encode_squares();
        let progress = match wanted {
            crate::game::chess_move::ChessMove::Move(from, to) => {
                let pawn = match self.game.board.piece(from.row, from.column) {
                    Some(piece) => piece.piece_type == crate::game::piece::PieceType::Pawn,
                    None => false,
                };
                pawn || self.game.board.piece(to.row, to.column).is_some()
            },
            crate::game::chess_move::ChessMove::PawnPromote(_from, _to, _piece_type) => true,
            _ => false,
        };
        let black = self.game.turn == crate::game::piece::PieceColor::Black;
        self.game.make_move(&wanted);
        self.record(current_state);
        if black {
            self.full_moves = self.full_moves + 1;
        }
        if progress {
            self.half_moves = 0;
        } else {
            self.half_moves = self.half_moves + 1;
        }
        true
    }
    /// The squares that the piece on `from` can slide to along the given
    /// directions: the empty squares up to the first piece in each, and the
    /// square of that piece if it belongs to the other side. An empty `from`
    /// is taken for a piece of the side to move.
    pub fn get_piece_moves(&self, from: (usize, usize), directions: Vec<(isize, isize)>) -> (r: Vec<
        (usize, usize),
    >)
        requires
            is_square(from),
        ensures
            r@ == to_locs(
                slides_upto(
                    self.game@.grid,
                    to_position(from),
                    match piece_at(self.game@.grid, to_position(from)) {
                        Some(piece) => piece.color,
                        None => self.game@.turn,
                    },
                    directions@,
                    directions@.len() as int,
                ),
            ),
    {
        let position = Position { row: 7 - from.0, column: from.1 };
        let color = match self.game.board.piece(position.row, position.column) {
            Some(piece) => piece.color,
            None => self.game.turn,
        };
        let mut squares: Vec<Position> = Vec::new();
        let mut i: usize = 0;
        while i < directions.len()
            invariant
                i <= directions.len(),
                position.valid(),
                squares@ == slides_upto(self.game@.grid, position, color, directions@, i as int),
                forall|k: int| 0 <= k < squares@.len() ==> squares@[k].valid(),
            decreases directions.len() - i,
        {
            let dir = directions[i];
            if dir.0 >= -7 && dir.0 <= 7 {
                self.game.board.add_positions_in_direction(
                    &position,
                    (-dir.0, dir.1),
                    &color,
                    false,
                    &mut squares,
                );
            } else {
                assert(squares@ =~= squares@ + Seq::<Position>::empty());
            }
            i = i + 1;
        }
        let mut result: Vec<(usize, usize)> = Vec::new();
        let mut k: usize = 0;
        while k < squares.len()
            invariant
                k <= squares.len(),
                forall|j: int| 0 <= j < squares@.len() ==> squares@[j].valid(),
                result@ == to_locs(squares@.subrange(0, k as int)),
            decreases squares.len() - k,
        {
            result.push((7 - squares[k].row, squares[k].column));
            assert(result@ =~= to_locs(squares@.subrange(0, k + 1)));
            k = k + 1;
        }
        assert(squares@.subrange(0, k as int) =~= squares@);
        result
    }
    /// What a square counts as a digit in base 13.
    fn digit_of(content: Option<crate::game::piece::Piece>) -> (r: u64)
        ensures
            r == digit13(content),
            r <= 12,
    {
        match content {
            Some(piece) => {
                let kind: u64 = match piece.piece_type {
                    crate::game::piece::PieceType::King => 1,
                    crate::game::piece::PieceType::Queen => 2,
                    crate::game::piece::PieceType::Bishup => 3,
                    crate::game::piece::PieceType::Knight => 4,
                    crate::game::piece::PieceType::Rook => 5,
                    crate::game::piece::PieceType::Pawn => 6,
                };
                match piece.color {
                    crate::game::piece::PieceColor::White => kind + 6,
                    crate::game::piece::PieceColor::Black => kind,
                }
            },
            None => 0,
        }
    }

    /// The position as one number in four words, the first word being the
    /// least significant: the squares, read rank by rank from a8, are the
    /// digits of a number in base 13, and the flags stand above that
    /// number, in the nine highest bits.
    pub fn encode_b13(&self) -> (r: [u64; 4])
        requires
            self.game.valid(),
        ensures
            words_value(r@) == number13(self.game@.grid, 64) + flags13(self.game@) * flags_unit(),
    {
        let mut r0: u64 = 0;
        let mut r1: u64 = 0;
        let mut r2: u64 = 0;
        let mut r3: u64 = 0;
        let mut n: usize = 0;
        while n < 64
            invariant
                n <= 64,
                r3 < 0x200000000000,
                r0 + r1 * 18446744073709551616int + r2 * 340282366920938463463374607431768211456int + r3 * 6277101735386680763835789423207666416102355444464034512896int == number13(
                    self.game@.grid,
                    n as int,
                ),
            decreases 64 - n,
        {
            let digit = Self::digit_of(self.game.board.piece(7 - n / 8, n % 8));
            proof {
                lemma_number13_bound(self.game@.grid, n + 1);
                lemma_pow13_grows(n + 1, 64);
                lemma_pow13_of_64();
            }
            let v0: u128 = r0 as u128 * 13 + digit as u128;
            let c0: u128 = v0 / 18446744073709551616u128;
            r0 = (v0 % 18446744073709551616u128) as u64;
            let v1: u128 = r1 as u128 * 13 + c0;
            let c1: u128 = v1 / 18446744073709551616u128;
            r1 = (v1 % 18446744073709551616u128) as u64;
            let v2: u128 = r2 as u128 * 13 + c1;
            let c2: u128 = v2 / 18446744073709551616u128;
            r2 = (v2 % 18446744073709551616u128) as u64;
            let v3: u128 = r3 as u128 * 13 + c2;
            r3 = v3 as u64;
            n = n + 1;
        }
        let rights = self.game.castle_rights;
        let any: u64 = if rights[0].kingside || rights[0].queenside || rights[1].kingside
            || rights[1].queenside {
            16
        } else {
            0
        };
        let target: u64 = match self.game.en_passant {
            Some(p) => 8 + p.column as u64,
            None => 0,
        };
        let turn: u64 = match self.game.turn {
            crate::game::piece::PieceColor::White => 256,
            crate::game::piece::PieceColor::Black => 0,
        };
        let flags = turn + any + target;
        let r = [r0, r1, r2, r3 + flags * 0x80000000000000];
        assert(r@[0] == r0 && r@[1] == r1 && r@[2] == r2);
        r
    }
}

} // verus!
