//! What holds of every position: the shape of the generated moves, the
//! king's safety after them, and the rules of castling, en passant and
//! promotion.

use vstd::prelude::*;
use super::board::{at, attacked, king_of, landing, moved, piece_at, put, slide_from, Grid};
use super::chess_move::{is_promotion, ChessMove};
use super::piece::{Piece, PieceColor, PieceType};
use super::position::{on_board, square, Position};
use super::rules::{
    apply, as_moves, can_castle_kingside, can_castle_queenside, candidates, candidates_upto,
    castles, cleared, double_step, en_passant_capture, forward_of, grid_after, holds_color,
    holds_kind, home_row, king_after, kind_candidates, last_row, legal_moves, pawn_candidates,
    pawn_capture, pawn_move, pawn_pushes, pawn_row, promotion_row, promotions, rights_of, safe,
    safety, square_candidates, GameState,
};
use super::CastleRights;

verus! {

/// An element of two sequences joined is an element of one of them.
pub proof fn lemma_contains_add<A>(a: Seq<A>, b: Seq<A>, x: A)
    ensures
        (a + b).contains(x) <==> a.contains(x) || b.contains(x),
{
    if (a + b).contains(x) {
        let i = choose|i: int| 0 <= i < (a + b).len() && (a + b)[i] == x;
        if i < a.len() {
            assert(a[i] == x);
        } else {
            assert(b[i - a.len()] == x);
        }
    }
    if a.contains(x) {
        let i = choose|i: int| 0 <= i < a.len() && a[i] == x;
        assert((a + b)[i] == x);
    }
    if b.contains(x) {
        let i = choose|i: int| 0 <= i < b.len() && b[i] == x;
        assert((a + b)[a.len() + i] == x);
    }
}

/// The square a move starts from, for the moves that name one.
pub open spec fn origin(m: ChessMove) -> Option<Position> {
    match m {
        ChessMove::Move(from, to) => Some(from),
        ChessMove::PawnPromote(from, to, piece_type) => Some(from),
        _ => None,
    }
}

/// The square a move ends on, for the moves that name one.
pub open spec fn target(m: ChessMove) -> Option<Position> {
    match m {
        ChessMove::Move(from, to) => Some(to),
        ChessMove::PawnPromote(from, to, piece_type) => Some(to),
        _ => None,
    }
}

/// What a pawn's move from `from` to `to` is offered as: never a castle,
/// always from `from` to `to`, a promotion exactly when the pawn starts on
/// the rank before the farthest, and then to each of the four kinds.
pub proof fn lemma_pawn_move(color: PieceColor, from: Position, to: Position, m: ChessMove)
    requires
        pawn_move(color, from, to).contains(m),
    ensures
        origin(m) == Some(from),
        target(m) == Some(to),
        m is PawnPromote <==> from.row == promotion_row(color),
        m is PawnPromote ==> is_promotion(m->PawnPromote_2) && forall|kind: PieceType|
            #[trigger] is_promotion(kind) ==> pawn_move(color, from, to).contains(
                ChessMove::PawnPromote(from, to, kind),
            ),
{
    let offered = pawn_move(color, from, to);
    let i = choose|i: int| 0 <= i < offered.len() && offered[i] == m;
    if from.row == promotion_row(color) {
        assert(offered[0] == ChessMove::PawnPromote(from, to, PieceType::Queen));
        assert(offered[1] == ChessMove::PawnPromote(from, to, PieceType::Rook));
        assert(offered[2] == ChessMove::PawnPromote(from, to, PieceType::Bishup));
        assert(offered[3] == ChessMove::PawnPromote(from, to, PieceType::Knight));
    }
}

/// Everything that the pawn's move from `from` to `to` is offered as is among
/// the pawn's candidates.
pub open spec fn offered_whole(s: GameState, from: Position, to: Position) -> bool {
    forall|x: ChessMove| #[trigger]
        pawn_move(s.turn, from, to).contains(x) ==> pawn_candidates(s, from).contains(x)
}

/// A pawn's candidate is a pawn's move from its square to a square one rank
/// ahead, or two ranks ahead from the starting rank, and the pawn's
/// candidates hold everything that this move is offered as.
pub proof fn lemma_pawn_candidate(s: GameState, from: Position, m: ChessMove)
    requires
        from.valid(),
        pawn_candidates(s, from).contains(m),
    ensures
        exists|to: Position|
            to.valid() && #[trigger] pawn_move(s.turn, from, to).contains(m) && (to.row == from.row
                + forward_of(s.turn) || (from.row == pawn_row(s.turn) && to.row == from.row + 2
                * forward_of(s.turn) && to.column == from.column)) && offered_whole(s, from, to),
{
    let ahead = from.row + forward_of(s.turn);
    let column = from.column as int;
    let pushes = pawn_pushes(s, from);
    let right = pawn_capture(s, from, ahead, from.column + 1);
    let left = pawn_capture(s, from, ahead, from.column - 1);
    lemma_contains_add(pushes + right, left, m);
    lemma_contains_add(pushes, right, m);
    assert forall|x: ChessMove|
        pushes.contains(x) || right.contains(x) || left.contains(x) implies pawn_candidates(
        s,
        from,
    ).contains(x) by {
        lemma_contains_add(pushes + right, left, x);
        lemma_contains_add(pushes, right, x);
    }
    if pushes.contains(m) {
        let one = pawn_move(s.turn, from, square(ahead, column));
        let two = pawn_move(s.turn, from, square(ahead + forward_of(s.turn), column));
        if from.row == pawn_row(s.turn) && at(s.grid, ahead + forward_of(s.turn), column).is_none() {
            lemma_contains_add(one, two, m);
            assert forall|x: ChessMove| one.contains(x) || two.contains(x) implies pushes.contains(
                x,
            ) by {
                lemma_contains_add(one, two, x);
            }
            if one.contains(m) {
                assert(square(ahead, column).valid());
                assert(offered_whole(s, from, square(ahead, column)));
            } else {
                assert(square(ahead + forward_of(s.turn), column).valid());
                assert(offered_whole(s, from, square(ahead + forward_of(s.turn), column)));
            }
        } else {
            assert(pushes =~= one);
            assert(square(ahead, column).valid());
            assert(offered_whole(s, from, square(ahead, column)));
        }
    } else if right.contains(m) {
        assert(square(ahead, from.column + 1).valid());
        assert(pawn_move(s.turn, from, square(ahead, from.column + 1)).contains(m));
        assert(offered_whole(s, from, square(ahead, from.column + 1)));
    } else {
        assert(square(ahead, from.column - 1).valid());
        assert(pawn_move(s.turn, from, square(ahead, from.column - 1)).contains(m));
        assert(offered_whole(s, from, square(ahead, from.column - 1)));
    }
}

/// A candidate of the piece on `from` starts from `from`. It is a promotion
/// exactly when the piece is a pawn on the rank before the farthest, and
/// is never a castle.
pub proof fn lemma_kind_candidate(s: GameState, from: Position, kind: PieceType, m: ChessMove)
    requires
        from.valid(),
        kind_candidates(s, from, kind).contains(m),
    ensures
        origin(m) == Some(from),
        m is PawnPromote <==> kind == PieceType::Pawn && from.row == promotion_row(s.turn),
        m is PawnPromote ==> is_promotion(m->PawnPromote_2),
        m is Move && kind == PieceType::Pawn ==> m->Move_1.row != last_row(s.turn),
{
    let found = kind_candidates(s, from, kind);
    let i = choose|i: int| 0 <= i < found.len() && found[i] == m;
    match kind {
        PieceType::Pawn => {
            lemma_pawn_candidate(s, from, m);
            let to = choose|to: Position|
                to.valid() && #[trigger] pawn_move(s.turn, from, to).contains(m) && (to.row
                    == from.row + forward_of(s.turn) || (from.row == pawn_row(s.turn) && to.row
                    == from.row + 2 * forward_of(s.turn) && to.column == from.column))
                    && offered_whole(s, from, to);
            lemma_pawn_move(s.turn, from, to, m);
        },
        PieceType::Queen => {
            let diagonal = as_moves(
                from,
                super::board::bishup_positions(s.grid, from, s.turn, false),
            );
            let straight = as_moves(from, super::board::rook_positions(s.grid, from, s.turn, false));
            lemma_contains_add(diagonal, straight, m);
            if diagonal.contains(m) {
                let j = choose|j: int| 0 <= j < diagonal.len() && diagonal[j] == m;
            } else {
                let j = choose|j: int| 0 <= j < straight.len() && straight[j] == m;
            }
        },
        _ => {},
    }
}

/// A candidate of a position is a candidate of one of its squares: the
/// square holds a piece of the side to move, and the move is one of that
/// piece's.
pub proof fn lemma_candidate(s: GameState, m: ChessMove)
    requires
        candidates(s).contains(m),
    ensures
        origin(m) matches Some(from) && (from.valid() && (piece_at(s.grid, from) matches Some(
            piece,
        ) && piece.color == s.turn && kind_candidates(s, from, piece.piece_type).contains(m))),
{
    lemma_candidate_upto(s, m, 64);
}

/// What holds of a candidate of the squares before place `n`.
proof fn lemma_candidate_upto(s: GameState, m: ChessMove, n: int)
    requires
        0 <= n <= 64,
        candidates_upto(s, n).contains(m),
    ensures
        origin(m) matches Some(from) && (from.valid() && (piece_at(s.grid, from) matches Some(
            piece,
        ) && piece.color == s.turn && kind_candidates(s, from, piece.piece_type).contains(m))),
    decreases n,
{
    if n > 0 {
        lemma_contains_add(candidates_upto(s, n - 1), square_candidates(s, n - 1), m);
        if candidates_upto(s, n - 1).contains(m) {
            lemma_candidate_upto(s, m, n - 1);
        } else {
            let from = square((n - 1) / 8, (n - 1) % 8);
            let piece = s.grid[n - 1]->0;
            lemma_kind_candidate(s, from, piece.piece_type, m);
        }
    }
}

/// Every candidate of the piece on a square is a candidate of the position.
pub proof fn lemma_square_candidates_are_candidates(s: GameState, i: int, m: ChessMove)
    requires
        0 <= i < 64,
        square_candidates(s, i).contains(m),
    ensures
        candidates(s).contains(m),
{
    lemma_square_candidates_upto(s, i, m, 64);
}

/// A candidate of a square before place `n` is among the candidates of the
/// squares before place `n`.
proof fn lemma_square_candidates_upto(s: GameState, i: int, m: ChessMove, n: int)
    requires
        0 <= i < n <= 64,
        square_candidates(s, i).contains(m),
    ensures
        candidates_upto(s, n).contains(m),
    decreases n,
{
    lemma_contains_add(candidates_upto(s, n - 1), square_candidates(s, n - 1), m);
    if i < n - 1 {
        lemma_square_candidates_upto(s, i, m, n - 1);
    }
}

/// What it is to be a legal move: the side to move has a king, and the move
/// is either a candidate that leaves the king unattacked or a castle whose
/// conditions hold.
pub proof fn lemma_legal(s: GameState, m: ChessMove)
    ensures
        legal_moves(s).contains(m) <==> (king_of(s.grid, s.turn) matches Some(king) && ((
        candidates(s).contains(m) && safe(s, king, m)) || (m == ChessMove::CastleKingside
            && can_castle_kingside(s, king)) || (m == ChessMove::CastleQueenside
            && can_castle_queenside(s, king)))),
{
    match king_of(s.grid, s.turn) {
        Some(king) => {
            let kept = candidates(s).filter(safety(s, king));
            let kingside: Seq<ChessMove> = if can_castle_kingside(s, king) {
                seq![ChessMove::CastleKingside]
            } else {
                Seq::empty()
            };
            let queenside: Seq<ChessMove> = if can_castle_queenside(s, king) {
                seq![ChessMove::CastleQueenside]
            } else {
                Seq::empty()
            };
            lemma_contains_add(kept, castles(s, king), m);
            lemma_contains_add(kingside, queenside, m);
            if kept.contains(m) {
                candidates(s).lemma_filter_contains_rev(safety(s, king), m);
                let i = choose|i: int| 0 <= i < kept.len() && kept[i] == m;
                candidates(s).lemma_filter_pred(safety(s, king), i);
            }
            if candidates(s).contains(m) {
                let i = choose|i: int| 0 <= i < candidates(s).len() && candidates(s)[i] == m;
                if safe(s, king, m) {
                    candidates(s).lemma_filter_contains(safety(s, king), i);
                }
                lemma_candidate(s, m);
            }
            if kingside.contains(m) {
                assert(kingside[0] == m);
            }
            if queenside.contains(m) {
                assert(queenside[0] == m);
            }
            if m == ChessMove::CastleKingside && can_castle_kingside(s, king) {
                assert(kingside[0] == m);
            }
            if m == ChessMove::CastleQueenside && can_castle_queenside(s, king) {
                assert(queenside[0] == m);
            }
        },
        None => {},
    }
}

/// The side to move has a king, and after the move `m` that king is not
/// attacked on the square where it then stands.
pub open spec fn mover_stays_safe(s: GameState, m: ChessMove) -> bool {
    king_of(s.grid, s.turn) matches Some(king) && !attacked(
        apply(s, m).grid,
        king_after(s, king, m),
        s.turn,
    )
}

/// After a legal move the mover's king is not attacked on the square where
/// it then stands.
pub proof fn lemma_legal_move_keeps_king_safe(s: GameState, m: ChessMove)
    requires
        legal_moves(s).contains(m),
    ensures
        king_of(s.grid, s.turn) matches Some(king) && !attacked(
            apply(s, m).grid,
            king_after(s, king, m),
            s.turn,
        ),
{
    lemma_legal(s, m);
}

/// A castle is legal exactly under its conditions: the side to move has a
/// king and holds the right, king and rook stand on their home squares, the
/// squares between them are empty, and the king's square, the squares it
/// crosses and the square where it arrives are not attacked.
pub proof fn lemma_castle_is_legal_under_its_conditions(s: GameState)
    ensures
        legal_moves(s).contains(ChessMove::CastleKingside) <==> (king_of(
            s.grid,
            s.turn,
        ) matches Some(king) && can_castle_kingside(s, king)),
        legal_moves(s).contains(ChessMove::CastleQueenside) <==> (king_of(
            s.grid,
            s.turn,
        ) matches Some(king) && can_castle_queenside(s, king)),
{
    lemma_legal(s, ChessMove::CastleKingside);
    lemma_legal(s, ChessMove::CastleQueenside);
    if candidates(s).contains(ChessMove::CastleKingside) {
        lemma_candidate(s, ChessMove::CastleKingside);
    }
    if candidates(s).contains(ChessMove::CastleQueenside) {
        lemma_candidate(s, ChessMove::CastleQueenside);
    }
}

/// A legal castle carries king and rook to their new squares in one move,
/// leaves their home squares empty, and clears both rights of the side that
/// castled.
pub proof fn lemma_castle_relocates_king_and_rook(s: GameState, m: ChessMove)
    requires
        s.grid.len() == 64,
        s.rights.len() == 2,
        m.is_castle(),
        legal_moves(s).contains(m),
    ensures
        ({
            let row = home_row(s.turn);
            let after = apply(s, m);
            let king = Some(Piece { piece_type: PieceType::King, color: s.turn });
            let rook = Some(Piece { piece_type: PieceType::Rook, color: s.turn });
            &&& at(after.grid, row, 4).is_none()
            &&& m == ChessMove::CastleKingside ==> at(after.grid, row, 6) == king && at(
                after.grid,
                row,
                5,
            ) == rook && at(after.grid, row, 7).is_none()
            &&& m == ChessMove::CastleQueenside ==> at(after.grid, row, 2) == king && at(
                after.grid,
                row,
                3,
            ) == rook && at(after.grid, row, 0).is_none()
            &&& rights_of(after, s.turn) == (CastleRights { kingside: false, queenside: false })
        }),
{
    lemma_castle_is_legal_under_its_conditions(s);
}

/// No move grants a castling right: a right held after a move was held
/// before it.
pub proof fn lemma_rights_are_never_granted(s: GameState, m: ChessMove, color: PieceColor)
    requires
        s.rights.len() == 2,
    ensures
        rights_of(apply(s, m), color).kingside ==> rights_of(s, color).kingside,
        rights_of(apply(s, m), color).queenside ==> rights_of(s, color).queenside,
{
}

/// A king's move costs its side both rights, and a rook's move from its home
/// corner the right of that corner.
pub proof fn lemma_moving_king_or_rook_clears_rights(s: GameState, from: Position, to: Position)
    requires
        s.rights.len() == 2,
        from.valid(),
        to.valid(),
    ensures
        ({
            let after = apply(s, ChessMove::Move(from, to));
            let mover = piece_at(s.grid, from);
            &&& holds_kind(mover, PieceType::King) ==> !rights_of(after, s.turn).kingside
                && !rights_of(after, s.turn).queenside
            &&& holds_kind(mover, PieceType::Rook) && from == square(home_row(s.turn), 7)
                ==> !rights_of(after, s.turn).kingside
            &&& holds_kind(mover, PieceType::Rook) && from == square(home_row(s.turn), 0)
                ==> !rights_of(after, s.turn).queenside
            &&& holds_kind(piece_at(s.grid, to), PieceType::Rook) && to == square(
                home_row(s.turn.opposite()),
                7,
            ) ==> !rights_of(after, s.turn.opposite()).kingside
            &&& holds_kind(piece_at(s.grid, to), PieceType::Rook) && to == square(
                home_row(s.turn.opposite()),
                0,
            ) ==> !rights_of(after, s.turn.opposite()).queenside
        }),
{
}

/// There is an en-passant target after a move exactly when the move was a
/// pawn's double step, and the target is then the square that the pawn
/// skipped.
pub proof fn lemma_en_passant_target_follows_double_step(s: GameState, m: ChessMove)
    ensures
        apply(s, m).en_passant.is_some() <==> (m matches ChessMove::Move(from, to) && double_step(
            s,
            from,
            to,
        )),
        m is Move && double_step(s, m->Move_0, m->Move_1) ==> apply(s, m).en_passant == Some(
            square(m->Move_0.row + forward_of(s.turn), m->Move_1.column as int),
        ),
{
}

/// A legal pawn move onto an empty square of another file is a capture en
/// passant: the square is the en-passant target of the position.
pub proof fn lemma_pawn_takes_empty_square_only_en_passant(s: GameState, from: Position, to: Position)
    requires
        legal_moves(s).contains(ChessMove::Move(from, to)),
        holds_kind(piece_at(s.grid, from), PieceType::Pawn),
        to.column != from.column,
        piece_at(s.grid, to).is_none(),
    ensures
        s.en_passant == Some(to),
{
    let m = ChessMove::Move(from, to);
    lemma_legal(s, m);
    lemma_candidate(s, m);
    let ahead = from.row + forward_of(s.turn);
    let column = from.column as int;
    let pushes = pawn_pushes(s, from);
    let right = pawn_capture(s, from, ahead, from.column + 1);
    let left = pawn_capture(s, from, ahead, from.column - 1);
    lemma_contains_add(pushes + right, left, m);
    lemma_contains_add(pushes, right, m);
    if pushes.contains(m) {
        let one = pawn_move(s.turn, from, square(ahead, column));
        let two = pawn_move(s.turn, from, square(ahead + forward_of(s.turn), column));
        lemma_contains_add(one, two, m);
        if one.contains(m) {
            lemma_pawn_move(s.turn, from, square(ahead, column), m);
        }
        if two.contains(m) {
            lemma_pawn_move(s.turn, from, square(ahead + forward_of(s.turn), column), m);
        }
    } else if right.contains(m) {
        lemma_pawn_move(s.turn, from, square(ahead, from.column + 1), m);
    } else {
        lemma_pawn_move(s.turn, from, square(ahead, from.column - 1), m);
    }
}

/// A capture en passant takes the passed pawn off the board, from the square
/// one rank behind the target as the mover sees it, and not what stands on
/// the target; the capturing pawn arrives on the target.
pub proof fn lemma_en_passant_removes_the_passed_pawn(s: GameState, from: Position, to: Position)
    requires
        s.grid.len() == 64,
        from.valid(),
        to.valid(),
        en_passant_capture(s, from, to),
        to.spec_backward(s.turn) matches Some(behind) && behind != from,
    ensures
        piece_at(apply(s, ChessMove::Move(from, to)).grid, to.spec_backward(s.turn)->0).is_none(),
        piece_at(apply(s, ChessMove::Move(from, to)).grid, to) == piece_at(s.grid, from),
{
}

/// A legal move of a pawn that is not a promotion does not end on the
/// farthest rank, and a legal promotion is a pawn's move from the rank
/// before the farthest to one of the four kinds.
pub proof fn lemma_pawn_reaches_last_rank_only_by_promotion(s: GameState, m: ChessMove)
    requires
        legal_moves(s).contains(m),
    ensures
        m is Move && holds_kind(piece_at(s.grid, m->Move_0), PieceType::Pawn) ==> m->Move_1.row
            != last_row(s.turn),
        m is PawnPromote ==> is_promotion(m->PawnPromote_2) && piece_at(s.grid, m->PawnPromote_0)
            == Some(Piece { piece_type: PieceType::Pawn, color: s.turn }) && m->PawnPromote_0.row
            == promotion_row(s.turn),
{
    lemma_legal(s, m);
    if candidates(s).contains(m) {
        lemma_candidate(s, m);
        let from = origin(m)->0;
        lemma_kind_candidate(s, from, piece_at(s.grid, from)->0.piece_type, m);
    }
}

/// Two grids that differ on one square at most, and hold there a piece of
/// `color` each.
pub open spec fn same_but_own_piece(a: Grid, b: Grid, place: int, color: PieceColor) -> bool {
    &&& a.len() == 64
    &&& b.len() == 64
    &&& 0 <= place < 64
    &&& forall|i: int| 0 <= i < 64 && i != place ==> a[i] == b[i]
    &&& holds_color(a[place], color)
    &&& holds_color(b[place], color)
}

/// What a ray meets that is no piece of `color`, with its distance.
pub open spec fn enemy_on_ray(hit: Option<(Piece, int)>, color: PieceColor) -> Option<(Piece, int)> {
    match hit {
        Some((piece, distance)) => if piece.color != color {
            hit
        } else {
            None
        },
        None => None,
    }
}

/// Which of its own pieces stands on a square makes no difference to the
/// enemies that `color` meets along a ray.
pub proof fn lemma_ray_ignores_own_kind(
    a: Grid,
    b: Grid,
    place: int,
    color: PieceColor,
    row: int,
    column: int,
    d_row: int,
    d_column: int,
    distance: int,
)
    requires
        same_but_own_piece(a, b, place, color),
    ensures
        enemy_on_ray(super::board::ray_from(a, row, column, d_row, d_column, distance), color)
            == enemy_on_ray(
            super::board::ray_from(b, row, column, d_row, d_column, distance),
            color,
        ),
    decreases 8 - distance,
{
    if distance <= 7 && on_board(row, column) {
        if at(a, row, column).is_none() {
            lemma_ray_ignores_own_kind(
                a,
                b,
                place,
                color,
                row + d_row,
                column + d_column,
                d_row,
                d_column,
                distance + 1,
            );
        }
    }
}

/// Which of its own pieces stands on a square makes no difference to whether
/// a square is attacked by the enemy of `color`.
pub proof fn lemma_attack_ignores_own_kind(
    a: Grid,
    b: Grid,
    place: int,
    color: PieceColor,
    p: Position,
)
    requires
        same_but_own_piece(a, b, place, color),
    ensures
        attacked(a, p, color) == attacked(b, p, color),
{
    let r = p.row as int;
    let c = p.column as int;
    lemma_ray_ignores_own_kind(a, b, place, color, r - 1, c - 1, -1, -1, 1);
    lemma_ray_ignores_own_kind(a, b, place, color, r - 1, c + 1, -1, 1, 1);
    lemma_ray_ignores_own_kind(a, b, place, color, r + 1, c - 1, 1, -1, 1);
    lemma_ray_ignores_own_kind(a, b, place, color, r + 1, c + 1, 1, 1, 1);
    lemma_ray_ignores_own_kind(a, b, place, color, r - 1, c, -1, 0, 1);
    lemma_ray_ignores_own_kind(a, b, place, color, r + 1, c, 1, 0, 1);
    lemma_ray_ignores_own_kind(a, b, place, color, r, c - 1, 0, -1, 1);
    lemma_ray_ignores_own_kind(a, b, place, color, r, c + 1, 0, 1, 1);
}

/// A pawn that may be promoted to one kind may be promoted to each of the
/// four: the promotions of a pawn move are legal together or not at all.
pub proof fn lemma_promotions_come_in_fours(
    s: GameState,
    from: Position,
    to: Position,
    kind: PieceType,
    other: PieceType,
)
    requires
        s.grid.len() == 64,
        legal_moves(s).contains(ChessMove::PawnPromote(from, to, kind)),
        is_promotion(other),
    ensures
        legal_moves(s).contains(ChessMove::PawnPromote(from, to, other)),
{
    let m = ChessMove::PawnPromote(from, to, kind);
    let wanted = ChessMove::PawnPromote(from, to, other);
    lemma_legal(s, m);
    lemma_legal(s, wanted);
    lemma_candidate(s, m);
    let king = king_of(s.grid, s.turn)->0;
    lemma_pawn_candidate(s, from, m);
    let via = choose|via: Position|
        via.valid() && #[trigger] pawn_move(s.turn, from, via).contains(m) && (via.row == from.row
            + forward_of(s.turn) || (from.row == pawn_row(s.turn) && via.row == from.row + 2
            * forward_of(s.turn) && via.column == from.column)) && offered_whole(s, from, via);
    lemma_pawn_move(s.turn, from, via, m);
    assert(via == to);
    assert(is_promotion(other));
    assert(pawn_move(s.turn, from, to).contains(wanted));
    assert(pawn_candidates(s, from).contains(wanted));
    let i = super::board::cell(from.row as int, from.column as int);
    assert(square(i / 8, i % 8) == from);
    assert(square_candidates(s, i).contains(wanted));
    lemma_square_candidates_are_candidates(s, i, wanted);
    let place = super::board::cell(to.row as int, to.column as int);
    lemma_attack_ignores_own_kind(grid_after(s, m), grid_after(s, wanted), place, s.turn, king);
}

/// The square is on the board and holds no piece of `color`.
pub open spec fn open_to(grid: Grid, p: Position, color: PieceColor) -> bool {
    p.valid() && !holds_color(piece_at(grid, p), color)
}

/// Every square of the sequence is open to `color`.
pub open spec fn all_open(grid: Grid, squares: Seq<Position>, color: PieceColor) -> bool {
    forall|i: int| 0 <= i < squares.len() ==> open_to(grid, #[trigger] squares[i], color)
}

/// The squares that a piece slides to are on the board and hold none of its
/// own side.
pub proof fn lemma_slide_is_open(
    grid: Grid,
    row: int,
    column: int,
    d_row: int,
    d_column: int,
    color: PieceColor,
    captures_only: bool,
    distance: int,
)
    ensures
        all_open(
            grid,
            slide_from(grid, row, column, d_row, d_column, color, captures_only, distance),
            color,
        ),
    decreases 8 - distance,
{
    if distance <= 7 && on_board(row, column) {
        if at(grid, row, column).is_none() {
            lemma_slide_is_open(
                grid,
                row + d_row,
                column + d_column,
                d_row,
                d_column,
                color,
                captures_only,
                distance + 1,
            );
        }
    }
}

/// Squares open to a side, joined, are open to it.
pub proof fn lemma_all_open_add(grid: Grid, a: Seq<Position>, b: Seq<Position>, color: PieceColor)
    requires
        all_open(grid, a, color),
        all_open(grid, b, color),
    ensures
        all_open(grid, a + b, color),
{
    assert forall|i: int| 0 <= i < (a + b).len() implies open_to(
        grid,
        #[trigger] (a + b)[i],
        color,
    ) by {
        if i < a.len() {
            assert((a + b)[i] == a[i]);
        } else {
            assert((a + b)[i] == b[i - a.len()]);
        }
    }
}

/// The squares that a rook or a bishop goes to are open to its side.
pub proof fn lemma_lines_are_open(grid: Grid, p: Position, color: PieceColor)
    ensures
        all_open(grid, super::board::rook_positions(grid, p, color, false), color),
        all_open(grid, super::board::bishup_positions(grid, p, color, false), color),
{
    let r = p.row as int;
    let c = p.column as int;
    lemma_slide_is_open(grid, r - 1, c, -1, 0, color, false, 1);
    lemma_slide_is_open(grid, r + 1, c, 1, 0, color, false, 1);
    lemma_slide_is_open(grid, r, c - 1, 0, -1, color, false, 1);
    lemma_slide_is_open(grid, r, c + 1, 0, 1, color, false, 1);
    let a = super::board::slide(grid, p, -1, 0, color, false);
    let b = super::board::slide(grid, p, 1, 0, color, false);
    let d = super::board::slide(grid, p, 0, -1, color, false);
    let e = super::board::slide(grid, p, 0, 1, color, false);
    lemma_all_open_add(grid, a, b, color);
    lemma_all_open_add(grid, a + b, d, color);
    lemma_all_open_add(grid, a + b + d, e, color);
    lemma_slide_is_open(grid, r - 1, c - 1, -1, -1, color, false, 1);
    lemma_slide_is_open(grid, r - 1, c + 1, -1, 1, color, false, 1);
    lemma_slide_is_open(grid, r + 1, c - 1, 1, -1, color, false, 1);
    lemma_slide_is_open(grid, r + 1, c + 1, 1, 1, color, false, 1);
    let f = super::board::slide(grid, p, -1, -1, color, false);
    let g = super::board::slide(grid, p, -1, 1, color, false);
    let h = super::board::slide(grid, p, 1, -1, color, false);
    let k = super::board::slide(grid, p, 1, 1, color, false);
    lemma_all_open_add(grid, f, g, color);
    lemma_all_open_add(grid, f + g, h, color);
    lemma_all_open_add(grid, f + g + h, k, color);
}

/// The squares that a knight jumps to are open to its side.
pub proof fn lemma_knight_jumps_are_open(grid: Grid, p: Position, color: PieceColor, n: int)
    requires
        p.valid(),
        0 <= n <= 8,
    ensures
        all_open(grid, super::board::knight_positions_upto(grid, p, color, false, n), color),
    decreases n,
{
    if n > 0 {
        lemma_knight_jumps_are_open(grid, p, color, n - 1);
        let step = super::board::knight_offset(n - 1);
        lemma_all_open_add(
            grid,
            super::board::knight_positions_upto(grid, p, color, false, n - 1),
            landing(grid, p.row + step.0, p.column + step.1, color, false),
            color,
        );
    }
}

/// The squares that a king steps to are open to its side.
pub proof fn lemma_king_steps_are_open(grid: Grid, p: Position, color: PieceColor, n: int)
    requires
        p.valid(),
        0 <= n <= 8,
    ensures
        all_open(grid, super::rules::king_positions_upto(grid, p, color, n), color),
    decreases n,
{
    if n > 0 {
        lemma_king_steps_are_open(grid, p, color, n - 1);
        let step = super::rules::king_offset(n - 1);
        lemma_all_open_add(
            grid,
            super::rules::king_positions_upto(grid, p, color, n - 1),
            landing(grid, p.row + step.0, p.column + step.1, color, false),
            color,
        );
    }
}

/// A plain move to one of the squares `targets`, all open to the side to
/// move, ends on a square that is open to it.
pub proof fn lemma_as_moves_open(
    grid: Grid,
    from: Position,
    targets: Seq<Position>,
    color: PieceColor,
    m: ChessMove,
)
    requires
        all_open(grid, targets, color),
        as_moves(from, targets).contains(m),
    ensures
        target(m) matches Some(to) && open_to(grid, to, color),
{
    let moves = as_moves(from, targets);
    let i = choose|i: int| 0 <= i < moves.len() && moves[i] == m;
    assert(open_to(grid, targets[i], color));
}

/// A candidate ends on a square of the board that holds no piece of the side
/// to move, unless a pawn takes on the en-passant target.
pub proof fn lemma_candidate_target(s: GameState, from: Position, kind: PieceType, m: ChessMove)
    requires
        from.valid(),
        kind_candidates(s, from, kind).contains(m),
    ensures
        target(m) matches Some(to) && to.valid() && (!holds_color(piece_at(s.grid, to), s.turn) || (
        kind == PieceType::Pawn && s.en_passant == Some(to))),
{
    lemma_lines_are_open(s.grid, from, s.turn);
    lemma_knight_jumps_are_open(s.grid, from, s.turn, 8);
    lemma_king_steps_are_open(s.grid, from, s.turn, 8);
    let diagonal = super::board::bishup_positions(s.grid, from, s.turn, false);
    let straight = super::board::rook_positions(s.grid, from, s.turn, false);
    match kind {
        PieceType::King => {
            lemma_as_moves_open(
                s.grid,
                from,
                super::rules::king_positions(s.grid, from, s.turn),
                s.turn,
                m,
            );
        },
        PieceType::Queen => {
            lemma_contains_add(as_moves(from, diagonal), as_moves(from, straight), m);
            if as_moves(from, diagonal).contains(m) {
                lemma_as_moves_open(s.grid, from, diagonal, s.turn, m);
            } else {
                lemma_as_moves_open(s.grid, from, straight, s.turn, m);
            }
        },
        PieceType::Bishup => {
            lemma_as_moves_open(s.grid, from, diagonal, s.turn, m);
        },
        PieceType::Rook => {
            lemma_as_moves_open(s.grid, from, straight, s.turn, m);
        },
        PieceType::Knight => {
            lemma_as_moves_open(
                s.grid,
                from,
                super::board::knight_positions(s.grid, from, s.turn, false),
                s.turn,
                m,
            );
        },
        PieceType::Pawn => {
            let ahead = from.row + forward_of(s.turn);
            let column = from.column as int;
            let pushes = pawn_pushes(s, from);
            let right = pawn_capture(s, from, ahead, from.column + 1);
            let left = pawn_capture(s, from, ahead, from.column - 1);
            lemma_contains_add(pushes + right, left, m);
            lemma_contains_add(pushes, right, m);
            if pushes.contains(m) {
                let one = pawn_move(s.turn, from, square(ahead, column));
                let two = pawn_move(s.turn, from, square(ahead + forward_of(s.turn), column));
                lemma_contains_add(one, two, m);
                if one.contains(m) {
                    lemma_pawn_move(s.turn, from, square(ahead, column), m);
                } else {
                    lemma_pawn_move(s.turn, from, square(ahead + forward_of(s.turn), column), m);
                }
            } else if right.contains(m) {
                lemma_pawn_move(s.turn, from, square(ahead, from.column + 1), m);
            } else {
                lemma_pawn_move(s.turn, from, square(ahead, from.column - 1), m);
            }
        },
    }
}

/// Every legal move has its squares on the board and promotes, if it
/// promotes, to a queen, rook, bishop or knight.
pub proof fn lemma_legal_moves_are_valid(s: GameState, m: ChessMove)
    requires
        legal_moves(s).contains(m),
    ensures
        m.valid(),
{
    lemma_legal(s, m);
    if candidates(s).contains(m) {
        lemma_candidate(s, m);
        let from = origin(m)->0;
        let kind = piece_at(s.grid, from)->0.piece_type;
        lemma_kind_candidate(s, from, kind, m);
        lemma_candidate_target(s, from, kind, m);
    }
}

/// A position with a whole board and rights for both sides, in which the
/// en-passant target, if there is one, is an empty square right behind a
/// pawn of the side that has just moved.
pub open spec fn settled(s: GameState) -> bool {
    &&& s.grid.len() == 64
    &&& s.rights.len() == 2
    &&& s.en_passant matches Some(p) ==> p.valid() && piece_at(s.grid, p).is_none()
        && super::fen::en_passant_fits(s.grid, s.turn, p)
}

/// The position at the start of a game is settled.
pub proof fn lemma_start_is_settled()
    ensures
        settled(super::fen::initial_state()),
{
}

/// A legal move leaves a settled position settled: whatever is reached by
/// legal moves from the start is settled.
pub proof fn lemma_legal_move_keeps_settled(s: GameState, m: ChessMove)
    requires
        settled(s),
        legal_moves(s).contains(m),
    ensures
        settled(apply(s, m)),
{
    lemma_legal_moves_are_valid(s, m);
    lemma_legal(s, m);
    match m {
        ChessMove::Move(from, to) => {
            lemma_candidate(s, m);
            let kind = piece_at(s.grid, from)->0.piece_type;
            lemma_kind_candidate(s, from, kind, m);
            lemma_candidate_target(s, from, kind, m);
            if double_step(s, from, to) {
                lemma_pawn_candidate(s, from, m);
                let via = choose|via: Position|
                    via.valid() && #[trigger] pawn_move(s.turn, from, via).contains(m) && (via.row
                        == from.row + forward_of(s.turn) || (from.row == pawn_row(s.turn)
                        && via.row == from.row + 2 * forward_of(s.turn) && via.column
                        == from.column)) && offered_whole(s, from, via);
                lemma_pawn_move(s.turn, from, via, m);
                assert(via == to);
                assert(to.column == from.column);
                lemma_double_step_passes_empty_square(s, from, to);
            }
        },
        _ => {},
    }
}

/// A pawn's double step among the candidates passes over an empty square.
proof fn lemma_double_step_passes_empty_square(s: GameState, from: Position, to: Position)
    requires
        from.valid(),
        pawn_candidates(s, from).contains(ChessMove::Move(from, to)),
        from.row == pawn_row(s.turn),
        to.row == from.row + 2 * forward_of(s.turn),
        to.column == from.column,
    ensures
        at(s.grid, from.row + forward_of(s.turn), from.column as int).is_none(),
{
    let m = ChessMove::Move(from, to);
    let ahead = from.row + forward_of(s.turn);
    let column = from.column as int;
    let pushes = pawn_pushes(s, from);
    let right = pawn_capture(s, from, ahead, from.column + 1);
    let left = pawn_capture(s, from, ahead, from.column - 1);
    lemma_contains_add(pushes + right, left, m);
    lemma_contains_add(pushes, right, m);
    if right.contains(m) {
        lemma_pawn_move(s.turn, from, square(ahead, from.column + 1), m);
    }
    if left.contains(m) {
        lemma_pawn_move(s.turn, from, square(ahead, from.column - 1), m);
    }
}

/// The side `color` has one king, on the square `king`.
pub open spec fn sole_king(grid: Grid, color: PieceColor, king: Position) -> bool {
    forall|i: int|
        0 <= i < 64 ==> (#[trigger] super::board::is_king_at(grid, color, i) <==> i
            == super::board::cell(king.row as int, king.column as int))
}

/// Where one square alone holds the king of a side, that square is where
/// the king is found.
pub proof fn lemma_sole_king_is_found(grid: Grid, color: PieceColor, king: Position)
    requires
        king.valid(),
        sole_king(grid, color, king),
    ensures
        king_of(grid, color) == Some(king),
{
    super::board::lemma_king_of(grid, color);
    let place = super::board::cell(king.row as int, king.column as int);
    assert(super::board::is_king_at(grid, color, place));
    match king_of(grid, color) {
        Some(found) => {
            let there = super::board::cell(found.row as int, found.column as int);
            assert(super::board::is_king_at(grid, color, there));
        },
        None => {},
    }
}

/// What a grid holds after the piece on `from` has been carried to `to`.
pub proof fn lemma_moved(grid: Grid, from: Position, to: Position)
    requires
        grid.len() == 64,
        from.valid(),
        to.valid(),
        piece_at(grid, from).is_some(),
    ensures
        moved(grid, from, to).len() == 64,
        forall|i: int|
            0 <= i < 64 ==> #[trigger] moved(grid, from, to)[i] == (if i == super::board::cell(
                to.row as int,
                to.column as int,
            ) {
                piece_at(grid, from)
            } else if i == super::board::cell(from.row as int, from.column as int) {
                None
            } else {
                grid[i]
            }),
{
}

/// A legal castle leaves the side that castled with one king, on the square
/// where a castling king arrives.
proof fn lemma_castle_keeps_sole_king(s: GameState, king: Position, m: ChessMove)
    requires
        settled(s),
        sole_king(s.grid, s.turn, king),
        (m == ChessMove::CastleKingside && can_castle_kingside(s, king)) || (m
            == ChessMove::CastleQueenside && can_castle_queenside(s, king)),
    ensures
        sole_king(grid_after(s, m), s.turn, king_after(s, king, m)),
        king_after(s, king, m).valid(),
{
    let row = home_row(s.turn);
    let home = super::board::cell(king.row as int, king.column as int);
    let e = square(row, 4);
    let near = if m == ChessMove::CastleKingside {
        square(row, 6)
    } else {
        square(row, 2)
    };
    let corner = if m == ChessMove::CastleKingside {
        square(row, 7)
    } else {
        square(row, 0)
    };
    let beside = if m == ChessMove::CastleKingside {
        square(row, 5)
    } else {
        square(row, 3)
    };
    assert(s.grid[super::board::cell(row, 4)] == at(s.grid, row, 4));
    assert(super::board::is_king_at(s.grid, s.turn, super::board::cell(row, 4)));
    assert(home == super::board::cell(row, 4));
    let first = moved(s.grid, e, near);
    lemma_moved(s.grid, e, near);
    assert(piece_at(first, corner) == piece_at(s.grid, corner));
    lemma_moved(first, corner, beside);
    let after = moved(first, corner, beside);
    assert(after == grid_after(s, m));
    let next = king_after(s, king, m);
    assert(next == near);
    assert forall|i: int| 0 <= i < 64 implies (#[trigger] super::board::is_king_at(
        after,
        s.turn,
        i,
    ) <==> i == super::board::cell(next.row as int, next.column as int)) by {
        assert(super::board::is_king_at(s.grid, s.turn, i) <==> i == home);
    }
}

/// A legal move of a piece, promotions among them, leaves the side that
/// moved with one king: on the target of a king's move, else where it was.
proof fn lemma_move_keeps_sole_king(s: GameState, king: Position, m: ChessMove)
    requires
        settled(s),
        king.valid(),
        sole_king(s.grid, s.turn, king),
        candidates(s).contains(m),
    ensures
        sole_king(grid_after(s, m), s.turn, king_after(s, king, m)),
        king_after(s, king, m).valid(),
{
    lemma_candidate(s, m);
    let from = origin(m)->0;
    let to = target(m)->0;
    let mover = piece_at(s.grid, from)->0;
    lemma_kind_candidate(s, from, mover.piece_type, m);
    lemma_candidate_target(s, from, mover.piece_type, m);
    let home = super::board::cell(king.row as int, king.column as int);
    let start = super::board::cell(from.row as int, from.column as int);
    let end = super::board::cell(to.row as int, to.column as int);
    let next = king_after(s, king, m);
    let after = grid_after(s, m);
    assert(s.grid[start] == piece_at(s.grid, from));
    assert(s.grid[end] == piece_at(s.grid, to));
    assert(super::board::is_king_at(s.grid, s.turn, start) <==> start == home);
    assert(super::board::is_king_at(s.grid, s.turn, end) <==> end == home);
    assert(end != home);
    match m {
        ChessMove::Move(_, _) => {
            let cleared = super::rules::without_passed_pawn(s, from, to);
            if en_passant_capture(s, from, to) {
                let behind = to.spec_backward(s.turn)->0;
                let gone = super::board::cell(behind.row as int, behind.column as int);
                assert(s.grid[gone] == piece_at(s.grid, behind));
                assert(s.en_passant == Some(to));
                assert(super::fen::en_passant_fits(s.grid, s.turn, to));
                assert(piece_at(s.grid, behind) == at(s.grid, behind.row as int, to.column as int));
                assert(holds_color(s.grid[gone], s.turn.opposite()));
                assert(super::board::is_king_at(s.grid, s.turn, gone) <==> gone == home);
                assert(gone != start);
                assert(gone != home);
                assert(cleared == put(s.grid, behind, None));
                assert(cleared.len() == 64);
                assert(piece_at(cleared, from) == Some(mover));
                lemma_moved(cleared, from, to);
                assert forall|i: int| 0 <= i < 64 implies (#[trigger] super::board::is_king_at(
                    after,
                    s.turn,
                    i,
                ) <==> i == super::board::cell(next.row as int, next.column as int)) by {
                    assert(super::board::is_king_at(s.grid, s.turn, i) <==> i == home);
                    assert(cleared[i] == (if i == gone {
                        None
                    } else {
                        s.grid[i]
                    }));
                }
            } else {
                assert(cleared == s.grid);
                lemma_moved(s.grid, from, to);
                assert forall|i: int| 0 <= i < 64 implies (#[trigger] super::board::is_king_at(
                    after,
                    s.turn,
                    i,
                ) <==> i == super::board::cell(next.row as int, next.column as int)) by {
                    assert(super::board::is_king_at(s.grid, s.turn, i) <==> i == home);
                }
            }
        },
        ChessMove::PawnPromote(_, _, piece_type) => {
            assert(start != home);
            assert forall|i: int| 0 <= i < 64 implies (#[trigger] super::board::is_king_at(
                after,
                s.turn,
                i,
            ) <==> i == super::board::cell(next.row as int, next.column as int)) by {
                assert(super::board::is_king_at(s.grid, s.turn, i) <==> i == home);
            }
        },
        _ => {},
    }
}

/// In a settled position with one king of the side to move, a legal move
/// leaves that side with one king, which stands where the move put it and
/// is not attacked there: the mover is never left in check.
pub proof fn lemma_mover_is_not_left_in_check(s: GameState, m: ChessMove)
    requires
        settled(s),
        king_of(s.grid, s.turn) matches Some(king) && sole_king(s.grid, s.turn, king),
        legal_moves(s).contains(m),
    ensures
        sole_king(apply(s, m).grid, s.turn, king_after(s, king_of(s.grid, s.turn)->0, m)),
        king_of(apply(s, m).grid, s.turn) == Some(king_after(s, king_of(s.grid, s.turn)->0, m)),
        !attacked(apply(s, m).grid, king_of(apply(s, m).grid, s.turn)->0, s.turn),
{
    let king = king_of(s.grid, s.turn)->0;
    super::board::lemma_king_of(s.grid, s.turn);
    lemma_legal(s, m);
    if candidates(s).contains(m) {
        lemma_move_keeps_sole_king(s, king, m);
    } else {
        lemma_castle_keeps_sole_king(s, king, m);
    }
    lemma_sole_king_is_found(apply(s, m).grid, s.turn, king_after(s, king, m));
}

/// The move `m` stands at one place of the sequence at most.
pub open spec fn once(moves: Seq<ChessMove>, m: ChessMove) -> bool {
    forall|i: int, j: int|
        0 <= i < moves.len() && 0 <= j < moves.len() && #[trigger] moves[i] == m
            && #[trigger] moves[j] == m ==> i == j
}

/// A move that stands once at most in each of two sequences, and not in
/// both, stands once at most in the two joined.
pub proof fn lemma_once_add(a: Seq<ChessMove>, b: Seq<ChessMove>, m: ChessMove)
    requires
        once(a, m),
        once(b, m),
        !(a.contains(m) && b.contains(m)),
    ensures
        once(a + b, m),
{
    let whole = a + b;
    assert forall|i: int, j: int|
        0 <= i < whole.len() && 0 <= j < whole.len() && #[trigger] whole[i] == m
            && #[trigger] whole[j] == m implies i == j by {
        if i < a.len() {
            assert(a[i] == m);
        } else {
            assert(b[i - a.len()] == m);
        }
        if j < a.len() {
            assert(a[j] == m);
        } else {
            assert(b[j - a.len()] == m);
        }
    }
}

/// A move that does not stand in a sequence stands there once at most.
pub proof fn lemma_once_if_absent(moves: Seq<ChessMove>, m: ChessMove)
    requires
        !moves.contains(m),
    ensures
        once(moves, m),
{
    assert forall|i: int, j: int|
        0 <= i < moves.len() && 0 <= j < moves.len() && #[trigger] moves[i] == m
            && #[trigger] moves[j] == m implies i == j by {
        assert(moves.contains(moves[i]));
    }
}

/// Leaving moves out of a sequence does not make a move stand twice.
pub proof fn lemma_once_filter(moves: Seq<ChessMove>, keep: spec_fn(ChessMove) -> bool, m: ChessMove)
    requires
        once(moves, m),
    ensures
        once(moves.filter(keep), m),
    decreases moves.len(),
{
    reveal(Seq::filter);
    if moves.len() > 0 {
        let init = moves.drop_last();
        let last = moves.last();
        assert forall|i: int, j: int|
            0 <= i < init.len() && 0 <= j < init.len() && #[trigger] init[i] == m
                && #[trigger] init[j] == m implies i == j by {
            assert(moves[i] == m && moves[j] == m);
        }
        lemma_once_filter(init, keep, m);
        let kept = init.filter(keep);
        if keep(last) {
            let out = kept.push(last);
            assert(moves.filter(keep) == out);
            if last == m {
                if kept.contains(m) {
                    init.lemma_filter_contains_rev(keep, m);
                    let i = choose|i: int| 0 <= i < init.len() && init[i] == m;
                    assert(moves[i] == m && moves[moves.len() - 1] == m);
                    assert(false);
                }
            }
            assert forall|i: int, j: int|
                0 <= i < out.len() && 0 <= j < out.len() && #[trigger] out[i] == m
                    && #[trigger] out[j] == m implies i == j by {
                if i < kept.len() {
                    assert(kept[i] == m);
                    assert(kept.contains(m));
                }
                if j < kept.len() {
                    assert(kept[j] == m);
                    assert(kept.contains(m));
                }
            }
        }
    }
}

/// A promotion stands once at most in what a pawn's move is offered as.
pub proof fn lemma_promotion_once_in_pawn_move(
    color: PieceColor,
    from: Position,
    to: Position,
    m: ChessMove,
)
    requires
        m is PawnPromote,
    ensures
        once(pawn_move(color, from, to), m),
        pawn_move(color, from, to).contains(m) ==> target(m) == Some(to) && from.row
            == promotion_row(color),
{
    let offered = pawn_move(color, from, to);
    if offered.contains(m) {
        lemma_pawn_move(color, from, to, m);
    }
    assert forall|i: int, j: int|
        0 <= i < offered.len() && 0 <= j < offered.len() && #[trigger] offered[i] == m
            && #[trigger] offered[j] == m implies i == j by {
        assert(offered[0] == ChessMove::PawnPromote(from, to, PieceType::Queen));
        assert(offered[1] == ChessMove::PawnPromote(from, to, PieceType::Rook));
        assert(offered[2] == ChessMove::PawnPromote(from, to, PieceType::Bishup));
        assert(offered[3] == ChessMove::PawnPromote(from, to, PieceType::Knight));
    }
}

/// A promotion stands once at most among the candidates of a pawn.
pub proof fn lemma_promotion_once_for_pawn(s: GameState, from: Position, m: ChessMove)
    requires
        from.valid(),
        m is PawnPromote,
    ensures
        once(pawn_candidates(s, from), m),
{
    let step = forward_of(s.turn);
    let ahead = from.row + step;
    let column = from.column as int;
    let pushes = pawn_pushes(s, from);
    let right = pawn_capture(s, from, ahead, from.column + 1);
    let left = pawn_capture(s, from, ahead, from.column - 1);
    let one = pawn_move(s.turn, from, square(ahead, column));
    let two = pawn_move(s.turn, from, square(ahead + step, column));
    lemma_promotion_once_in_pawn_move(s.turn, from, square(ahead, column), m);
    lemma_promotion_once_in_pawn_move(s.turn, from, square(ahead + step, column), m);
    lemma_promotion_once_in_pawn_move(s.turn, from, square(ahead, from.column + 1), m);
    lemma_promotion_once_in_pawn_move(s.turn, from, square(ahead, from.column - 1), m);
    if !(on_board(ahead, column) && at(s.grid, ahead, column).is_none()) {
        lemma_once_if_absent(pushes, m);
    } else if from.row == pawn_row(s.turn) && at(s.grid, ahead + step, column).is_none() {
        assert(pushes == one + two);
        lemma_once_add(one, two, m);
    } else {
        assert(pushes =~= one);
    }
    if !right.contains(m) {
        lemma_once_if_absent(right, m);
    }
    if !left.contains(m) {
        lemma_once_if_absent(left, m);
    }
    if pushes.contains(m) {
        lemma_contains_add(one, two, m);
    }
    lemma_once_add(pushes, right, m);
    lemma_contains_add(pushes, right, m);
    lemma_once_add(pushes + right, left, m);
}

/// A promotion stands once at most among the candidates of a piece.
pub proof fn lemma_promotion_once_for_piece(
    s: GameState,
    from: Position,
    kind: PieceType,
    m: ChessMove,
)
    requires
        from.valid(),
        m is PawnPromote,
    ensures
        once(kind_candidates(s, from, kind), m),
{
    if kind == PieceType::Pawn {
        lemma_promotion_once_for_pawn(s, from, m);
    } else {
        if kind_candidates(s, from, kind).contains(m) {
            lemma_kind_candidate(s, from, kind, m);
        }
        lemma_once_if_absent(kind_candidates(s, from, kind), m);
    }
}

/// A candidate of the squares before place `n` starts from one of those
/// squares.
pub proof fn lemma_candidate_starts_before(s: GameState, m: ChessMove, n: int)
    requires
        0 <= n <= 64,
        candidates_upto(s, n).contains(m),
    ensures
        origin(m) matches Some(from) && from.valid() && super::board::cell(
            from.row as int,
            from.column as int,
        ) < n,
    decreases n,
{
    if n > 0 {
        lemma_contains_add(candidates_upto(s, n - 1), square_candidates(s, n - 1), m);
        if candidates_upto(s, n - 1).contains(m) {
            lemma_candidate_starts_before(s, m, n - 1);
        } else {
            let from = square((n - 1) / 8, (n - 1) % 8);
            lemma_kind_candidate(s, from, s.grid[n - 1]->0.piece_type, m);
        }
    }
}

/// A promotion stands once at most among the candidates of the squares
/// before place `n`.
pub proof fn lemma_promotion_once_upto(s: GameState, m: ChessMove, n: int)
    requires
        0 <= n <= 64,
        m is PawnPromote,
    ensures
        once(candidates_upto(s, n), m),
    decreases n,
{
    if n > 0 {
        let before = candidates_upto(s, n - 1);
        let here = square_candidates(s, n - 1);
        let from = square((n - 1) / 8, (n - 1) % 8);
        lemma_promotion_once_upto(s, m, n - 1);
        if here.contains(m) {
            lemma_promotion_once_for_piece(s, from, s.grid[n - 1]->0.piece_type, m);
            lemma_kind_candidate(s, from, s.grid[n - 1]->0.piece_type, m);
            if before.contains(m) {
                lemma_candidate_starts_before(s, m, n - 1);
            }
        } else {
            lemma_once_if_absent(here, m);
        }
        lemma_once_add(before, here, m);
    } else {
        lemma_once_if_absent(candidates_upto(s, n), m);
    }
}

/// No promotion is listed twice among the legal moves.
pub proof fn lemma_promotion_is_listed_once(s: GameState, m: ChessMove)
    requires
        m is PawnPromote,
    ensures
        once(legal_moves(s), m),
{
    match king_of(s.grid, s.turn) {
        Some(king) => {
            lemma_promotion_once_upto(s, m, 64);
            lemma_once_filter(candidates(s), safety(s, king), m);
            let kept = candidates(s).filter(safety(s, king));
            let last = castles(s, king);
            if last.contains(m) {
                let i = choose|i: int| 0 <= i < last.len() && last[i] == m;
                assert(last[i].is_castle());
            }
            lemma_once_if_absent(last, m);
            lemma_once_add(kept, last, m);
        },
        None => {
            lemma_once_if_absent(legal_moves(s), m);
        },
    }
}

} // verus!
