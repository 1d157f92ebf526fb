//! The rules of the game as mathematics: what a move does to a position and
//! which moves a position allows.

use vstd::prelude::*;
use super::board::{
    at, attacked, bishup_positions, king_of, knight_positions, landing, moved, piece_at, put,
    rook_positions, Grid,
};
use super::chess_move::ChessMove;
use super::piece::{Piece, PieceColor, PieceType};
use super::position::{on_board, square, Position};
use super::CastleRights;

verus! {

/// A position of the game as a mathematical value.
pub struct GameState {
    /// The 64 squares in row-major order.
    pub grid: Grid,
    /// The square a pawn skipped with the double step just made, if any.
    pub en_passant: Option<Position>,
    /// The side to move.
    pub turn: PieceColor,
    /// The castling rights, Black's first and then White's.
    pub rights: Seq<CastleRights>,
    /// The number of moves made so far.
    pub half_moves: int,
}

/// The home rank of `color`.
pub open spec fn home_row(color: PieceColor) -> int {
    match color {
        PieceColor::White => 0,
        PieceColor::Black => 7,
    }
}

/// The rank on which `color`'s pawns start.
pub open spec fn pawn_row(color: PieceColor) -> int {
    match color {
        PieceColor::White => 1,
        PieceColor::Black => 6,
    }
}

/// The rank from which `color`'s pawns step onto the farthest rank.
pub open spec fn promotion_row(color: PieceColor) -> int {
    match color {
        PieceColor::White => 6,
        PieceColor::Black => 1,
    }
}

/// The farthest rank for `color`'s pawns.
pub open spec fn last_row(color: PieceColor) -> int {
    match color {
        PieceColor::White => 7,
        PieceColor::Black => 0,
    }
}

/// The square holds a piece of the given kind, of either colour.
pub open spec fn holds_kind(content: Option<Piece>, kind: PieceType) -> bool {
    content matches Some(piece) && piece.piece_type == kind
}

/// The square holds a piece of the given colour.
pub open spec fn holds_color(content: Option<Piece>, color: PieceColor) -> bool {
    content matches Some(piece) && piece.color == color
}

/// The rights of `color`.
pub open spec fn rights_of(s: GameState, color: PieceColor) -> CastleRights {
    s.rights[color.spec_index()]
}

/// The rights with those of `color` cleared on the sides named.
pub open spec fn cleared(
    rights: Seq<CastleRights>,
    color: PieceColor,
    kingside: bool,
    queenside: bool,
) -> Seq<CastleRights> {
    let held = rights[color.spec_index()];
    rights.update(
        color.spec_index(),
        CastleRights {
            kingside: held.kingside && !kingside,
            queenside: held.queenside && !queenside,
        },
    )
}

/// A move from `from` to `to` is a capture en passant: a pawn moves onto the
/// en-passant target.
pub open spec fn en_passant_capture(s: GameState, from: Position, to: Position) -> bool {
    s.en_passant == Some(to) && holds_kind(piece_at(s.grid, from), PieceType::Pawn)
}

/// A move from `from` to `to` is a pawn's double step from its starting rank.
pub open spec fn double_step(s: GameState, from: Position, to: Position) -> bool {
    holds_kind(piece_at(s.grid, from), PieceType::Pawn) && from.row == pawn_row(s.turn) && to.row
        == pawn_row(s.turn) + 2 * forward_of(s.turn)
}

/// The direction in which `color`'s pawns advance.
pub open spec fn forward_of(color: PieceColor) -> int {
    match color {
        PieceColor::White => 1,
        PieceColor::Black => -1,
    }
}

/// The grid with the passed pawn taken off, where the move captures en
/// passant: the pawn stands one rank behind the target as the mover sees it.
pub open spec fn without_passed_pawn(s: GameState, from: Position, to: Position) -> Grid {
    if en_passant_capture(s, from, to) {
        match to.spec_backward(s.turn) {
            Some(behind) => put(s.grid, behind, None),
            None => s.grid,
        }
    } else {
        s.grid
    }
}

/// The board after the move. A castle carries king and rook of the side to
/// move between their home squares; a plain move carries the piece and, en
/// passant, removes the passed pawn; a promotion replaces the pawn by the
/// new piece on the target square.
pub open spec fn grid_after(s: GameState, m: ChessMove) -> Grid {
    let row = home_row(s.turn);
    match m {
        ChessMove::CastleKingside => moved(
            moved(s.grid, square(row, 4), square(row, 6)),
            square(row, 7),
            square(row, 5),
        ),
        ChessMove::CastleQueenside => moved(
            moved(s.grid, square(row, 4), square(row, 2)),
            square(row, 0),
            square(row, 3),
        ),
        ChessMove::Move(from, to) => moved(without_passed_pawn(s, from, to), from, to),
        ChessMove::PawnPromote(from, to, piece_type) => put(
            put(s.grid, from, None),
            to,
            Some(Piece { piece_type, color: s.turn }),
        ),
    }
}

/// The rights once the piece on `from` has left: a king gives up both rights
/// of the side to move, a rook leaving its home corner the right of its side.
pub open spec fn rights_after_leaving(s: GameState, from: Position) -> Seq<CastleRights> {
    let content = piece_at(s.grid, from);
    if holds_kind(content, PieceType::King) {
        cleared(s.rights, s.turn, true, true)
    } else if holds_kind(content, PieceType::Rook) && from.row == home_row(s.turn) && from.column
        == 7 {
        cleared(s.rights, s.turn, true, false)
    } else if holds_kind(content, PieceType::Rook) && from.row == home_row(s.turn) && from.column
        == 0 {
        cleared(s.rights, s.turn, false, true)
    } else {
        s.rights
    }
}

/// The rights once what stands on `to` has been captured: a captured king
/// costs the opponent both rights, a rook captured on its home corner the
/// right of its side.
pub open spec fn rights_after_capture(rights: Seq<CastleRights>, s: GameState, to: Position) -> Seq<
    CastleRights,
> {
    let content = piece_at(s.grid, to);
    let enemy = s.turn.opposite();
    if holds_kind(content, PieceType::King) {
        cleared(rights, enemy, true, true)
    } else if holds_kind(content, PieceType::Rook) && to.row == home_row(enemy) && to.column == 7 {
        cleared(rights, enemy, true, false)
    } else if holds_kind(content, PieceType::Rook) && to.row == home_row(enemy) && to.column == 0 {
        cleared(rights, enemy, false, true)
    } else {
        rights
    }
}

/// The castling rights after the move.
pub open spec fn rights_after(s: GameState, m: ChessMove) -> Seq<CastleRights> {
    match m {
        ChessMove::CastleKingside => cleared(s.rights, s.turn, true, true),
        ChessMove::CastleQueenside => cleared(s.rights, s.turn, true, true),
        ChessMove::Move(from, to) => rights_after_capture(rights_after_leaving(s, from), s, to),
        ChessMove::PawnPromote(from, to, piece_type) => rights_after_capture(s.rights, s, to),
    }
}

/// The en-passant target after the move: the skipped square after a pawn's
/// double step, nothing after any other move.
pub open spec fn en_passant_after(s: GameState, m: ChessMove) -> Option<Position> {
    match m {
        ChessMove::Move(from, to) => if double_step(s, from, to) {
            Some(square(pawn_row(s.turn) + forward_of(s.turn), to.column as int))
        } else {
            None
        },
        _ => None,
    }
}

/// The position after the move. Nothing asks whether the move is legal.
pub open spec fn apply(s: GameState, m: ChessMove) -> GameState {
    GameState {
        grid: grid_after(s, m),
        en_passant: en_passant_after(s, m),
        turn: s.turn.opposite(),
        rights: rights_after(s, m),
        half_moves: s.half_moves + 1,
    }
}

/// The eight king steps, in the order in which moves are listed.
pub open spec fn king_offset(i: int) -> (int, int) {
    if i == 0 {
        (-1, -1)
    } else if i == 1 {
        (-1, 0)
    } else if i == 2 {
        (-1, 1)
    } else if i == 3 {
        (0, -1)
    } else if i == 4 {
        (0, 1)
    } else if i == 5 {
        (1, -1)
    } else if i == 6 {
        (1, 0)
    } else {
        (1, 1)
    }
}

/// The squares that the first `n` king steps from `p` may land on.
pub open spec fn king_positions_upto(grid: Grid, p: Position, color: PieceColor, n: int) -> Seq<
    Position,
>
    decreases n,
{
    if n <= 0 {
        Seq::empty()
    } else {
        king_positions_upto(grid, p, color, n - 1) + landing(
            grid,
            p.row + king_offset(n - 1).0,
            p.column + king_offset(n - 1).1,
            color,
            false,
        )
    }
}

/// The squares next to `p` that hold no piece of `color`.
pub open spec fn king_positions(grid: Grid, p: Position, color: PieceColor) -> Seq<Position> {
    king_positions_upto(grid, p, color, 8)
}

/// The plain moves from `from` to each of `targets`, in order.
pub open spec fn as_moves(from: Position, targets: Seq<Position>) -> Seq<ChessMove> {
    Seq::new(targets.len(), |i: int| ChessMove::Move(from, targets[i]))
}

/// The four promotions of a pawn move, in the order in which they are listed.
pub open spec fn promotions(from: Position, to: Position) -> Seq<ChessMove> {
    seq![
        ChessMove::PawnPromote(from, to, PieceType::Queen),
        ChessMove::PawnPromote(from, to, PieceType::Rook),
        ChessMove::PawnPromote(from, to, PieceType::Bishup),
        ChessMove::PawnPromote(from, to, PieceType::Knight),
    ]
}

/// A pawn's move from `from` to `to` as it is offered: the four promotions
/// where the pawn reaches the farthest rank, else the plain move.
pub open spec fn pawn_move(color: PieceColor, from: Position, to: Position) -> Seq<ChessMove> {
    if from.row == promotion_row(color) {
        promotions(from, to)
    } else {
        seq![ChessMove::Move(from, to)]
    }
}

/// The pawn on `from` may capture onto (row, column): the square is the
/// en-passant target or holds an enemy.
pub open spec fn pawn_takes(s: GameState, row: int, column: int) -> bool {
    on_board(row, column) && (s.en_passant == Some(square(row, column)) || holds_color(
        at(s.grid, row, column),
        s.turn.opposite(),
    ))
}

/// The capture of the pawn on `from` onto (row, column), if it may capture
/// there.
pub open spec fn pawn_capture(s: GameState, from: Position, row: int, column: int) -> Seq<
    ChessMove,
> {
    if pawn_takes(s, row, column) {
        pawn_move(s.turn, from, square(row, column))
    } else {
        Seq::empty()
    }
}

/// The advances of the pawn on `from`: one step onto an empty square, and
/// from the starting rank a second step onto another empty square.
pub open spec fn pawn_pushes(s: GameState, from: Position) -> Seq<ChessMove> {
    let ahead = from.row + forward_of(s.turn);
    let column = from.column as int;
    if on_board(ahead, column) && at(s.grid, ahead, column).is_none() {
        pawn_move(s.turn, from, square(ahead, column)) + (if from.row == pawn_row(s.turn) && at(
            s.grid,
            ahead + forward_of(s.turn),
            column,
        ).is_none() {
            pawn_move(s.turn, from, square(ahead + forward_of(s.turn), column))
        } else {
            Seq::empty()
        })
    } else {
        Seq::empty()
    }
}

/// The moves of the pawn on `from`, before the king's safety is considered:
/// the advances, then the capture towards the h-file, then the capture
/// towards the a-file.
pub open spec fn pawn_candidates(s: GameState, from: Position) -> Seq<ChessMove> {
    let ahead = from.row + forward_of(s.turn);
    pawn_pushes(s, from) + pawn_capture(s, from, ahead, from.column + 1) + pawn_capture(
        s,
        from,
        ahead,
        from.column - 1,
    )
}

/// The moves of the piece of kind `kind` on `from`, before the king's safety
/// is considered.
pub open spec fn kind_candidates(s: GameState, from: Position, kind: PieceType) -> Seq<ChessMove> {
    match kind {
        PieceType::King => as_moves(from, king_positions(s.grid, from, s.turn)),
        PieceType::Queen => as_moves(from, bishup_positions(s.grid, from, s.turn, false))
            + as_moves(from, rook_positions(s.grid, from, s.turn, false)),
        PieceType::Bishup => as_moves(from, bishup_positions(s.grid, from, s.turn, false)),
        PieceType::Rook => as_moves(from, rook_positions(s.grid, from, s.turn, false)),
        PieceType::Knight => as_moves(from, knight_positions(s.grid, from, s.turn, false)),
        PieceType::Pawn => pawn_candidates(s, from),
    }
}

/// The moves from the square at place `i`: those of the piece that stands
/// there if it belongs to the side to move.
pub open spec fn square_candidates(s: GameState, i: int) -> Seq<ChessMove> {
    match s.grid[i] {
        Some(piece) => if piece.color == s.turn {
            kind_candidates(s, square(i / 8, i % 8), piece.piece_type)
        } else {
            Seq::empty()
        },
        None => Seq::empty(),
    }
}

/// The moves from the squares before place `n`, in board order.
pub open spec fn candidates_upto(s: GameState, n: int) -> Seq<ChessMove>
    decreases n,
{
    if n <= 0 {
        Seq::empty()
    } else {
        candidates_upto(s, n - 1) + square_candidates(s, n - 1)
    }
}

/// Every move that the pieces of the side to move can make by the way they
/// move, before the king's safety is considered.
pub open spec fn candidates(s: GameState) -> Seq<ChessMove> {
    candidates_upto(s, 64)
}

/// The square on which the king stands after the move, where `king` is its
/// square before: the target of a king's move, the destination of a castle.
pub open spec fn king_after(s: GameState, king: Position, m: ChessMove) -> Position {
    match m {
        ChessMove::CastleKingside => square(home_row(s.turn), 6),
        ChessMove::CastleQueenside => square(home_row(s.turn), 2),
        ChessMove::Move(from, to) => if holds_kind(piece_at(s.grid, from), PieceType::King) {
            to
        } else {
            king
        },
        ChessMove::PawnPromote(from, to, piece_type) => king,
    }
}

/// The move leaves the mover's king unattacked: the one test of legality
/// that every move has to pass.
pub open spec fn safe(s: GameState, king: Position, m: ChessMove) -> bool {
    !attacked(grid_after(s, m), king_after(s, king, m), s.turn)
}

/// `safe` as a predicate on moves.
pub open spec fn safety(s: GameState, king: Position) -> spec_fn(ChessMove) -> bool {
    |m: ChessMove| safe(s, king, m)
}

/// The square is empty and not attacked by the enemy of the side to move.
pub open spec fn free_and_unattacked(s: GameState, row: int, column: int) -> bool {
    at(s.grid, row, column).is_none() && !attacked(s.grid, square(row, column), s.turn)
}

/// King and rook of the side to move stand on the home squares from which it
/// castles to the side named.
pub open spec fn at_home(s: GameState, kingside: bool) -> bool {
    let row = home_row(s.turn);
    at(s.grid, row, 4) == Some(Piece { piece_type: PieceType::King, color: s.turn }) && at(
        s.grid,
        row,
        if kingside {
            7int
        } else {
            0int
        },
    ) == Some(Piece { piece_type: PieceType::Rook, color: s.turn })
}

/// The side to move may castle kingside: it holds the right, king and rook
/// stand on their home squares, the king is not attacked where it stands,
/// the two squares it crosses are empty and unattacked, and it is not
/// attacked where it arrives.
pub open spec fn can_castle_kingside(s: GameState, king: Position) -> bool {
    let row = home_row(s.turn);
    &&& rights_of(s, s.turn).kingside
    &&& at_home(s, true)
    &&& !attacked(s.grid, king, s.turn)
    &&& free_and_unattacked(s, row, 5)
    &&& free_and_unattacked(s, row, 6)
    &&& safe(s, king, ChessMove::CastleKingside)
}

/// The side to move may castle queenside: as on the kingside, and the square
/// next to the rook is empty too.
pub open spec fn can_castle_queenside(s: GameState, king: Position) -> bool {
    let row = home_row(s.turn);
    &&& rights_of(s, s.turn).queenside
    &&& at_home(s, false)
    &&& at(s.grid, row, 1).is_none()
    &&& !attacked(s.grid, king, s.turn)
    &&& free_and_unattacked(s, row, 2)
    &&& free_and_unattacked(s, row, 3)
    &&& safe(s, king, ChessMove::CastleQueenside)
}

/// The castles open to the side to move, kingside first.
pub open spec fn castles(s: GameState, king: Position) -> Seq<ChessMove> {
    (if can_castle_kingside(s, king) {
        seq![ChessMove::CastleKingside]
    } else {
        Seq::empty()
    }) + (if can_castle_queenside(s, king) {
        seq![ChessMove::CastleQueenside]
    } else {
        Seq::empty()
    })
}

/// The legal moves of the side to move, in the order in which they are
/// generated: the moves of its pieces in board order that leave its king
/// unattacked, then the castles. A side without a king has no moves.
pub open spec fn legal_moves(s: GameState) -> Seq<ChessMove> {
    match king_of(s.grid, s.turn) {
        Some(king) => candidates(s).filter(safety(s, king)) + castles(s, king),
        None => Seq::empty(),
    }
}

/// The king of the side to move is attacked.
pub open spec fn in_check(s: GameState) -> bool {
    match king_of(s.grid, s.turn) {
        Some(king) => attacked(s.grid, king, s.turn),
        None => false,
    }
}

/// The side to move has no legal move and its king is attacked.
pub open spec fn is_checkmate(s: GameState) -> bool {
    legal_moves(s).len() == 0 && in_check(s)
}

/// The side to move has no legal move and its king is not attacked.
pub open spec fn is_stalemate(s: GameState) -> bool {
    legal_moves(s).len() == 0 && !in_check(s)
}

} // verus!
