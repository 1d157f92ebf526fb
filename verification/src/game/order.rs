//! Positions as they arise in play: each side has one king, and the side
//! that has just moved has not left its king attacked. What is reached from
//! the start by legal moves is of this kind.

use vstd::prelude::*;
use super::board::{
    at, attacked, bishup_positions, cell, diagonal_threat, enemy_knight_at, is_king_at, king_of,
    knight_offset, knight_positions_upto, landing, piece_at, ray_from, ray_hit, rook_positions,
    slide, slide_from, straight_threat, Grid,
};
use super::chess_move::ChessMove;
use super::fen::{initial_grid, initial_piece, initial_state};
use super::fen_laws::{legal_line, played};
use super::laws::{
    lemma_candidate, lemma_candidate_target, lemma_contains_add, lemma_kind_candidate, lemma_legal,
    lemma_legal_move_keeps_settled, lemma_moved, lemma_mover_is_not_left_in_check, lemma_pawn_move,
    lemma_sole_king_is_found, lemma_start_is_settled, origin, settled, sole_king, target,
};
use super::piece::{PieceColor, PieceType};
use super::position::{on_board, square, Position};
use super::rules::{
    apply, as_moves, can_castle_kingside, can_castle_queenside, candidates, en_passant_capture,
    forward_of, grid_after, holds_color, holds_kind, home_row, king_offset, king_positions_upto,
    legal_moves, pawn_capture, pawn_move, pawn_pushes, without_passed_pawn, GameState,
};

verus! {

/// `n` steps from `x` in a direction that is -1, 0 or 1.
pub open spec fn stepped(x: int, d: int, n: int) -> int {
    if d == 1 {
        x + n
    } else if d == -1 {
        x - n
    } else {
        x
    }
}

/// A single step: -1, 0 or 1.
pub open spec fn is_step(d: int) -> bool {
    -1 <= d <= 1
}

/// The `n` squares from (row, column) on in direction (d_row, d_column) are
/// on the board and empty.
pub open spec fn clear(grid: Grid, row: int, column: int, d_row: int, d_column: int, n: int) -> bool
    decreases n,
{
    n <= 0 || (on_board(row, column) && at(grid, row, column).is_none() && clear(
        grid,
        row + d_row,
        column + d_column,
        d_row,
        d_column,
        n - 1,
    ))
}

/// A square that a piece slides to lies some steps along the walk, behind
/// empty squares only.
pub proof fn lemma_slide_passes_empty_squares(
    grid: Grid,
    row: int,
    column: int,
    d_row: int,
    d_column: int,
    color: PieceColor,
    distance: int,
    q: Position,
) -> (n: int)
    requires
        is_step(d_row),
        is_step(d_column),
        1 <= distance,
        slide_from(grid, row, column, d_row, d_column, color, false, distance).contains(q),
    ensures
        0 <= n <= 7 - distance,
        clear(grid, row, column, d_row, d_column, n),
        q == square(stepped(row, d_row, n), stepped(column, d_column, n)),
        on_board(stepped(row, d_row, n), stepped(column, d_column, n)),
    decreases 8 - distance,
{
    let found = slide_from(grid, row, column, d_row, d_column, color, false, distance);
    let i = choose|i: int| 0 <= i < found.len() && found[i] == q;
    if at(grid, row, column).is_none() {
        let rest = slide_from(
            grid,
            row + d_row,
            column + d_column,
            d_row,
            d_column,
            color,
            false,
            distance + 1,
        );
        if i == 0 {
            0
        } else {
            assert(rest[i - 1] == q);
            let m = lemma_slide_passes_empty_squares(
                grid,
                row + d_row,
                column + d_column,
                d_row,
                d_column,
                color,
                distance + 1,
                q,
            );
            m + 1
        }
    } else {
        0
    }
}

/// Looking back over `n` empty squares one sees what one would see from
/// where they begin, `n` steps farther away.
pub proof fn lemma_look_back(
    grid: Grid,
    row: int,
    column: int,
    d_row: int,
    d_column: int,
    n: int,
    distance: int,
)
    requires
        is_step(d_row),
        is_step(d_column),
        0 <= n,
        1 <= distance,
        distance + n <= 8,
        clear(grid, row, column, d_row, d_column, n),
    ensures
        ray_from(
            grid,
            stepped(row, d_row, n - 1),
            stepped(column, d_column, n - 1),
            -d_row,
            -d_column,
            distance,
        ) == ray_from(grid, row - d_row, column - d_column, -d_row, -d_column, distance + n),
    decreases n,
{
    if n > 0 {
        lemma_look_back(grid, row + d_row, column + d_column, d_row, d_column, n - 1, distance);
        assert(stepped(row + d_row, d_row, n - 2) == stepped(row, d_row, n - 1));
        assert(stepped(column + d_column, d_column, n - 2) == stepped(column, d_column, n - 1));
    }
}

/// From a square that the piece on `from` slides to, one sees that piece
/// when looking back along the line.
pub proof fn lemma_slider_is_seen(
    grid: Grid,
    from: Position,
    d_row: int,
    d_column: int,
    color: PieceColor,
    q: Position,
)
    requires
        from.valid(),
        is_step(d_row),
        is_step(d_column),
        d_row != 0 || d_column != 0,
        piece_at(grid, from).is_some(),
        slide(grid, from, d_row, d_column, color, false).contains(q),
    ensures
        q.valid(),
        ray_hit(grid, q, -d_row, -d_column) matches Some(hit) && hit.0 == piece_at(grid, from)->0,
{
    let row = from.row + d_row;
    let column = from.column + d_column;
    let n = lemma_slide_passes_empty_squares(grid, row, column, d_row, d_column, color, 1, q);
    lemma_look_back(grid, row, column, d_row, d_column, n, 1);
    assert(stepped(row, d_row, n) - d_row == stepped(row, d_row, n - 1));
    assert(stepped(column, d_column, n) - d_column == stepped(column, d_column, n - 1));
}

/// A square among the first `n` knight jumps from `p` is a knight's jump
/// away from `p`.
pub proof fn lemma_knight_jump(grid: Grid, p: Position, color: PieceColor, n: int, q: Position) -> (i:
    int)
    requires
        0 <= n <= 8,
        knight_positions_upto(grid, p, color, false, n).contains(q),
    ensures
        0 <= i < n,
        on_board(p.row + knight_offset(i).0, p.column + knight_offset(i).1),
        q == square(p.row + knight_offset(i).0, p.column + knight_offset(i).1),
    decreases n,
{
    let before = knight_positions_upto(grid, p, color, false, n - 1);
    let step = knight_offset(n - 1);
    let last = landing(grid, p.row + step.0, p.column + step.1, color, false);
    lemma_contains_add(before, last, q);
    if before.contains(q) {
        lemma_knight_jump(grid, p, color, n - 1, q)
    } else {
        assert(last[0] == q);
        n - 1
    }
}

/// A square among the first `n` king steps from `p` is next to `p`.
pub proof fn lemma_king_step(grid: Grid, p: Position, color: PieceColor, n: int, q: Position) -> (i:
    int)
    requires
        0 <= n <= 8,
        king_positions_upto(grid, p, color, n).contains(q),
    ensures
        0 <= i < n,
        on_board(p.row + king_offset(i).0, p.column + king_offset(i).1),
        q == square(p.row + king_offset(i).0, p.column + king_offset(i).1),
    decreases n,
{
    let before = king_positions_upto(grid, p, color, n - 1);
    let step = king_offset(n - 1);
    let last = landing(grid, p.row + step.0, p.column + step.1, color, false);
    lemma_contains_add(before, last, q);
    if before.contains(q) {
        lemma_king_step(grid, p, color, n - 1, q)
    } else {
        assert(last[0] == q);
        n - 1
    }
}

/// The target of one of the plain moves from `from` is one of `targets`.
pub proof fn lemma_as_moves_target(from: Position, targets: Seq<Position>, m: ChessMove)
    requires
        as_moves(from, targets).contains(m),
    ensures
        target(m) matches Some(to) && targets.contains(to),
{
    let moves = as_moves(from, targets);
    let i = choose|i: int| 0 <= i < moves.len() && moves[i] == m;
    assert(targets[i] == target(m)->0);
}

/// A square that a rook of `color` on `from` goes to is attacked by it, as
/// the other side sees it; and so for a bishop.
pub proof fn lemma_line_piece_attacks(grid: Grid, from: Position, color: PieceColor, q: Position, straight: bool)
    requires
        from.valid(),
        piece_at(grid, from) matches Some(piece) && piece.color == color && (piece.piece_type
            == PieceType::Queen || (if straight {
            piece.piece_type == PieceType::Rook
        } else {
            piece.piece_type == PieceType::Bishup
        })),
        if straight {
            rook_positions(grid, from, color, false).contains(q)
        } else {
            bishup_positions(grid, from, color, false).contains(q)
        },
    ensures
        q.valid(),
        attacked(grid, q, color.opposite()),
{
    if straight {
        let a = slide(grid, from, -1, 0, color, false);
        let b = slide(grid, from, 1, 0, color, false);
        let c = slide(grid, from, 0, -1, color, false);
        let d = slide(grid, from, 0, 1, color, false);
        lemma_contains_add(a + b + c, d, q);
        lemma_contains_add(a + b, c, q);
        lemma_contains_add(a, b, q);
        if a.contains(q) {
            lemma_slider_is_seen(grid, from, -1, 0, color, q);
            assert(straight_threat(grid, q, 1, 0, color.opposite()));
        } else if b.contains(q) {
            lemma_slider_is_seen(grid, from, 1, 0, color, q);
            assert(straight_threat(grid, q, -1, 0, color.opposite()));
        } else if c.contains(q) {
            lemma_slider_is_seen(grid, from, 0, -1, color, q);
            assert(straight_threat(grid, q, 0, 1, color.opposite()));
        } else {
            lemma_slider_is_seen(grid, from, 0, 1, color, q);
            assert(straight_threat(grid, q, 0, -1, color.opposite()));
        }
    } else {
        let a = slide(grid, from, -1, -1, color, false);
        let b = slide(grid, from, -1, 1, color, false);
        let c = slide(grid, from, 1, -1, color, false);
        let d = slide(grid, from, 1, 1, color, false);
        lemma_contains_add(a + b + c, d, q);
        lemma_contains_add(a + b, c, q);
        lemma_contains_add(a, b, q);
        if a.contains(q) {
            lemma_slider_is_seen(grid, from, -1, -1, color, q);
            assert(diagonal_threat(grid, q, 1, 1, color.opposite()));
        } else if b.contains(q) {
            lemma_slider_is_seen(grid, from, -1, 1, color, q);
            assert(diagonal_threat(grid, q, 1, -1, color.opposite()));
        } else if c.contains(q) {
            lemma_slider_is_seen(grid, from, 1, -1, color, q);
            assert(diagonal_threat(grid, q, -1, 1, color.opposite()));
        } else {
            lemma_slider_is_seen(grid, from, 1, 1, color, q);
            assert(diagonal_threat(grid, q, -1, -1, color.opposite()));
        }
    }
}

/// A candidate that lands on a piece of the other side attacks the square
/// of that piece: whatever can be captured is attacked.
pub proof fn lemma_capture_is_attack(s: GameState, m: ChessMove)
    requires
        s.grid.len() == 64,
        candidates(s).contains(m),
        target(m) matches Some(to) && holds_color(piece_at(s.grid, to), s.turn.opposite()),
    ensures
        attacked(s.grid, target(m)->0, s.turn.opposite()),
{
    lemma_candidate(s, m);
    let from = origin(m)->0;
    let to = target(m)->0;
    let mover = piece_at(s.grid, from)->0;
    let kind = mover.piece_type;
    let victim = s.turn.opposite();
    lemma_candidate_target(s, from, kind, m);
    lemma_kind_candidate(s, from, kind, m);
    let diagonal = bishup_positions(s.grid, from, s.turn, false);
    let straight = rook_positions(s.grid, from, s.turn, false);
    assert(s.grid[cell(from.row as int, from.column as int)] == Some(mover));
    match kind {
        PieceType::Rook => {
            lemma_as_moves_target(from, straight, m);
            lemma_line_piece_attacks(s.grid, from, s.turn, to, true);
        },
        PieceType::Bishup => {
            lemma_as_moves_target(from, diagonal, m);
            lemma_line_piece_attacks(s.grid, from, s.turn, to, false);
        },
        PieceType::Queen => {
            lemma_contains_add(as_moves(from, diagonal), as_moves(from, straight), m);
            if as_moves(from, diagonal).contains(m) {
                lemma_as_moves_target(from, diagonal, m);
                lemma_line_piece_attacks(s.grid, from, s.turn, to, false);
            } else {
                lemma_as_moves_target(from, straight, m);
                lemma_line_piece_attacks(s.grid, from, s.turn, to, true);
            }
        },
        PieceType::Knight => {
            let jumps = knight_positions_upto(s.grid, from, s.turn, false, 8);
            lemma_as_moves_target(from, jumps, m);
            let i = lemma_knight_jump(s.grid, from, s.turn, 8, to);
            let step = knight_offset(i);
            assert(at(s.grid, to.row - step.0, to.column - step.1) == Some(mover));
            assert(enemy_knight_at(s.grid, to.row - step.0, to.column - step.1, victim));
        },
        PieceType::King => {
            let steps = king_positions_upto(s.grid, from, s.turn, 8);
            lemma_as_moves_target(from, steps, m);
            let i = lemma_king_step(s.grid, from, s.turn, 8, to);
            let step = king_offset(i);
            assert(at(s.grid, to.row - step.0, to.column - step.1) == Some(mover));
            assert(ray_hit(s.grid, to, -step.0, -step.1) == Some((mover, 1int)));
            if step.0 != 0 && step.1 != 0 {
                assert(diagonal_threat(s.grid, to, -step.0, -step.1, victim));
            } else {
                assert(straight_threat(s.grid, to, -step.0, -step.1, victim));
            }
        },
        PieceType::Pawn => {
            let ahead = from.row + forward_of(s.turn);
            let column = from.column as int;
            let pushes = pawn_pushes(s, from);
            let right = pawn_capture(s, from, ahead, from.column + 1);
            let left = pawn_capture(s, from, ahead, from.column - 1);
            lemma_contains_add(pushes + right, left, m);
            lemma_contains_add(pushes, right, m);
            if pushes.contains(m) {
                let one = pawn_move(s.turn, from, square(ahead, column));
                let two = pawn_move(s.turn, from, square(ahead + forward_of(s.turn), column));
                lemma_contains_add(one, two, m);
                if one.contains(m) {
                    lemma_pawn_move(s.turn, from, square(ahead, column), m);
                } else {
                    lemma_pawn_move(s.turn, from, square(ahead + forward_of(s.turn), column), m);
                }
                assert(false);
            } else if right.contains(m) {
                lemma_pawn_move(s.turn, from, square(ahead, from.column + 1), m);
                assert(at(s.grid, to.row - forward_of(s.turn), to.column - 1) == Some(mover));
                assert(ray_hit(s.grid, to, -forward_of(s.turn), -1) == Some((mover, 1int)));
                assert(diagonal_threat(s.grid, to, -forward_of(s.turn), -1, victim));
            } else {
                lemma_pawn_move(s.turn, from, square(ahead, from.column - 1), m);
                assert(at(s.grid, to.row - forward_of(s.turn), to.column + 1) == Some(mover));
                assert(ray_hit(s.grid, to, -forward_of(s.turn), 1) == Some((mover, 1int)));
                assert(diagonal_threat(s.grid, to, -forward_of(s.turn), 1, victim));
            }
        },
    }
}

/// A position as it arises in play: it is settled, each side has one king,
/// and the king of the side that has just moved is not attacked.
pub open spec fn orderly(s: GameState) -> bool {
    &&& settled(s)
    &&& king_of(s.grid, s.turn) matches Some(king) && sole_king(s.grid, s.turn, king)
    &&& king_of(s.grid, s.turn.opposite()) matches Some(king) && sole_king(
        s.grid,
        s.turn.opposite(),
        king,
    ) && !attacked(s.grid, king, s.turn.opposite())
}

/// The position at the start of a game is orderly.
pub proof fn lemma_start_is_orderly()
    ensures
        orderly(initial_state()),
{
    let s = initial_state();
    let grid = initial_grid();
    lemma_start_is_settled();
    let white = square(0, 4);
    let black = square(7, 4);
    assert forall|i: int| 0 <= i < 64 implies (#[trigger] is_king_at(grid, PieceColor::White, i)
        <==> i == cell(0, 4)) by {
        assert(grid[i] == initial_piece(i / 8, i % 8));
    }
    assert forall|i: int| 0 <= i < 64 implies (#[trigger] is_king_at(grid, PieceColor::Black, i)
        <==> i == cell(7, 4)) by {
        assert(grid[i] == initial_piece(i / 8, i % 8));
    }
    lemma_sole_king_is_found(grid, PieceColor::White, white);
    lemma_sole_king_is_found(grid, PieceColor::Black, black);
    assert(at(grid, 7, 3) == initial_piece(7, 3));
    assert(at(grid, 7, 5) == initial_piece(7, 5));
    assert(at(grid, 6, 3) == initial_piece(6, 3));
    assert(at(grid, 6, 4) == initial_piece(6, 4));
    assert(at(grid, 6, 5) == initial_piece(6, 5));
    assert(at(grid, 6, 2) == initial_piece(6, 2));
    assert(at(grid, 6, 6) == initial_piece(6, 6));
    assert(at(grid, 5, 3) == initial_piece(5, 3));
    assert(at(grid, 5, 5) == initial_piece(5, 5));
}

/// A move of a piece leaves the other side its one king, if that king is not
/// attacked: a king that is not attacked is not captured.
pub proof fn lemma_move_spares_other_king(s: GameState, m: ChessMove, their: Position)
    requires
        settled(s),
        their.valid(),
        sole_king(s.grid, s.turn.opposite(), their),
        !attacked(s.grid, their, s.turn.opposite()),
        candidates(s).contains(m),
    ensures
        sole_king(grid_after(s, m), s.turn.opposite(), their),
{
    let mover = s.turn;
    let other = s.turn.opposite();
    let after = grid_after(s, m);
    let there = cell(their.row as int, their.column as int);
    assert(is_king_at(s.grid, other, there));
    lemma_candidate(s, m);
    let from = origin(m)->0;
    let to = target(m)->0;
    let piece = piece_at(s.grid, from)->0;
    lemma_kind_candidate(s, from, piece.piece_type, m);
    lemma_candidate_target(s, from, piece.piece_type, m);
    let start = cell(from.row as int, from.column as int);
    let end = cell(to.row as int, to.column as int);
    assert(s.grid[start] == Some(piece));
    assert(s.grid[end] == piece_at(s.grid, to));
    if end == there {
        assert(to == their);
        lemma_capture_is_attack(s, m);
    }
    assert(end != there);
    assert(start != there);
    match m {
        ChessMove::Move(_, _) => {
            let cleared = without_passed_pawn(s, from, to);
            if en_passant_capture(s, from, to) {
                let behind = to.spec_backward(mover)->0;
                let gone = cell(behind.row as int, behind.column as int);
                assert(s.grid[gone] == piece_at(s.grid, behind));
                assert(piece_at(s.grid, behind) == at(s.grid, behind.row as int, to.column as int));
                assert(holds_kind(s.grid[gone], PieceType::Pawn));
                assert(gone != there);
                assert(gone != start);
                assert(cleared.len() == 64);
                assert(piece_at(cleared, from) == Some(piece));
                lemma_moved(cleared, from, to);
                assert forall|i: int| 0 <= i < 64 implies (#[trigger] is_king_at(after, other, i)
                    <==> i == there) by {
                    assert(is_king_at(s.grid, other, i) <==> i == there);
                    assert(cleared[i] == (if i == gone {
                        None
                    } else {
                        s.grid[i]
                    }));
                }
            } else {
                lemma_moved(s.grid, from, to);
                assert forall|i: int| 0 <= i < 64 implies (#[trigger] is_king_at(after, other, i)
                    <==> i == there) by {
                    assert(is_king_at(s.grid, other, i) <==> i == there);
                }
            }
        },
        ChessMove::PawnPromote(_, _, kind) => {
            assert forall|i: int| 0 <= i < 64 implies (#[trigger] is_king_at(after, other, i) <==> i
                == there) by {
                assert(is_king_at(s.grid, other, i) <==> i == there);
            }
        },
        _ => {},
    }
}

/// A castle leaves the other side its one king.
pub proof fn lemma_castle_spares_other_king(s: GameState, king: Position, m: ChessMove, their: Position)
    requires
        settled(s),
        their.valid(),
        sole_king(s.grid, s.turn.opposite(), their),
        (m == ChessMove::CastleKingside && can_castle_kingside(s, king)) || (m
            == ChessMove::CastleQueenside && can_castle_queenside(s, king)),
    ensures
        sole_king(grid_after(s, m), s.turn.opposite(), their),
{
    let other = s.turn.opposite();
    let after = grid_after(s, m);
    let there = cell(their.row as int, their.column as int);
    let row = home_row(s.turn);
    let e = square(row, 4);
    let near = if m == ChessMove::CastleKingside {
        square(row, 6)
    } else {
        square(row, 2)
    };
    let corner = if m == ChessMove::CastleKingside {
        square(row, 7)
    } else {
        square(row, 0)
    };
    let beside = if m == ChessMove::CastleKingside {
        square(row, 5)
    } else {
        square(row, 3)
    };
    assert(s.grid[cell(row, 4)] == at(s.grid, row, 4));
    assert(s.grid[cell(row, 7)] == at(s.grid, row, 7));
    assert(s.grid[cell(row, 0)] == at(s.grid, row, 0));
    assert(s.grid[cell(row, 5)] == at(s.grid, row, 5));
    assert(s.grid[cell(row, 6)] == at(s.grid, row, 6));
    assert(s.grid[cell(row, 2)] == at(s.grid, row, 2));
    assert(s.grid[cell(row, 3)] == at(s.grid, row, 3));
    let first = super::board::moved(s.grid, e, near);
    lemma_moved(s.grid, e, near);
    assert(piece_at(first, corner) == piece_at(s.grid, corner));
    lemma_moved(first, corner, beside);
    assert(after == super::board::moved(first, corner, beside));
    assert forall|i: int| 0 <= i < 64 implies (#[trigger] is_king_at(after, other, i) <==> i
        == there) by {
        assert(is_king_at(s.grid, other, i) <==> i == there);
    }
}

/// A legal move leaves an orderly position orderly.
pub proof fn lemma_legal_move_keeps_orderly(s: GameState, m: ChessMove)
    requires
        orderly(s),
        legal_moves(s).contains(m),
    ensures
        orderly(apply(s, m)),
{
    let own = king_of(s.grid, s.turn)->0;
    let their = king_of(s.grid, s.turn.opposite())->0;
    lemma_legal_move_keeps_settled(s, m);
    lemma_mover_is_not_left_in_check(s, m);
    lemma_legal(s, m);
    super::board::lemma_king_of(s.grid, s.turn.opposite());
    if candidates(s).contains(m) {
        lemma_move_spares_other_king(s, m, their);
    } else {
        lemma_castle_spares_other_king(s, own, m, their);
    }
    lemma_sole_king_is_found(apply(s, m).grid, s.turn.opposite(), their);
}

/// Every position that is reached from the start by legal moves is orderly.
pub proof fn lemma_reached_positions_are_orderly(line: Seq<ChessMove>)
    requires
        legal_line(line),
    ensures
        orderly(played(line)),
    decreases line.len(),
{
    if line.len() == 0 {
        lemma_start_is_orderly();
    } else {
        lemma_reached_positions_are_orderly(line.drop_last());
        lemma_legal_move_keeps_orderly(played(line.drop_last()), line.last());
    }
}

/// In a game played by legal moves no move ever leaves the mover's own king
/// in check: after each move the mover has its one king, and that king is
/// not attacked.
pub proof fn lemma_no_move_of_a_game_leaves_the_mover_in_check(line: Seq<ChessMove>, m: ChessMove)
    requires
        legal_line(line),
        legal_moves(played(line)).contains(m),
    ensures
        king_of(apply(played(line), m).grid, played(line).turn) matches Some(king) && !attacked(
            apply(played(line), m).grid,
            king,
            played(line).turn,
        ),
{
    lemma_reached_positions_are_orderly(line);
    lemma_mover_is_not_left_in_check(played(line), m);
}

/// The side `color` has a king, and that king is not attacked.
pub open spec fn king_stands_safe(grid: Grid, color: PieceColor) -> bool {
    king_of(grid, color) matches Some(king) && !attacked(grid, king, color)
}

/// The side `color` has one king.
pub open spec fn one_king(grid: Grid, color: PieceColor) -> bool {
    king_of(grid, color) matches Some(king) && sole_king(grid, color, king)
}

/// In a settled position with one king of the side to move, a legal move
/// leaves the position settled and that side with its one king on the board
/// and not attacked.
pub proof fn lemma_legal_move_leaves_the_king_safe(s: GameState, m: ChessMove)
    requires
        settled(s),
        one_king(s.grid, s.turn),
        legal_moves(s).contains(m),
    ensures
        settled(apply(s, m)),
        one_king(apply(s, m).grid, s.turn),
        king_stands_safe(apply(s, m).grid, s.turn),
{
    lemma_legal_move_keeps_settled(s, m);
    lemma_mover_is_not_left_in_check(s, m);
}

} // verus!
