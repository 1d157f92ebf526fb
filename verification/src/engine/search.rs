//! The value of a position by minimax search, as mathematics.

use vstd::prelude::*;
use super::evaluation::static_eval;
use crate::game::chess_move::ChessMove;
use crate::game::piece::PieceColor;
use crate::game::rules::{apply, in_check, is_checkmate, legal_moves, GameState};

verus! {

/// What a castle adds to the value of the line it starts, for the side that
/// castles.
pub const CASTLE_BONUS: i32 = 200;

/// `v` brought into the range of a 32-bit score.
pub open spec fn clamp(v: int) -> int {
    if v < i32::MIN {
        i32::MIN as int
    } else if v > i32::MAX {
        i32::MAX as int
    } else {
        v
    }
}

/// The larger of two scores.
pub open spec fn larger(a: int, b: int) -> int {
    if a >= b {
        a
    } else {
        b
    }
}

/// The smaller of two scores.
pub open spec fn smaller(a: int, b: int) -> int {
    if a <= b {
        a
    } else {
        b
    }
}

/// The bonus of a move: that of a castle, nothing for any other move.
pub open spec fn bonus(m: ChessMove) -> int {
    if m.is_castle() {
        CASTLE_BONUS as int
    } else {
        0
    }
}

/// The value of a position in which the side to move has no legal move,
/// found with `depth` plies left of `search_depth`: nothing if its king is
/// not attacked; else the worst score for `player` if it is the one mated
/// and the best if its opponent is, each less extreme by one for every ply
/// that the mate lies deeper.
pub open spec fn terminal_value(
    player: PieceColor,
    search_depth: int,
    s: GameState,
    depth: int,
) -> int {
    if !in_check(s) {
        0
    } else if s.turn == player {
        i32::MIN + (search_depth - depth)
    } else {
        i32::MAX - (search_depth - depth)
    }
}

/// The value of the position `s` for `player` by a search of `depth` plies
/// inside the window from `alpha` to `beta`, when evaluations carry no
/// jitter.
///
/// With no ply left the value is the static evaluation. A position without
/// legal moves has its terminal value. Otherwise `player` takes the largest
/// value among the moves and its opponent the smallest, where a move counts
/// the value of the position it leads to, searched one ply less deep, with
/// the castle bonus added for `player` and taken off for its opponent; the
/// moves are tried in the order of generation, and the rest is skipped as
/// soon as the running value leaves the window on the far side.
pub open spec fn search(
    player: PieceColor,
    search_depth: int,
    s: GameState,
    depth: nat,
    alpha: int,
    beta: int,
) -> int
    decreases depth, legal_moves(s).len() + 1,
{
    if depth == 0 {
        static_eval(s, player)
    } else if legal_moves(s).len() == 0 {
        terminal_value(player, search_depth, s, depth as int)
    } else if s.turn == player {
        search_max(player, search_depth, s, legal_moves(s), 0, i32::MIN as int, alpha, beta, depth)
    } else {
        search_min(player, search_depth, s, legal_moves(s), 0, i32::MAX as int, alpha, beta, depth)
    }
}

/// The value of a position in which `player` is to move, when the moves
/// before place `i` have given the running value `value` and raised the
/// lower end of the window to `alpha`.
pub open spec fn search_max(
    player: PieceColor,
    search_depth: int,
    s: GameState,
    moves: Seq<ChessMove>,
    i: int,
    value: int,
    alpha: int,
    beta: int,
    depth: nat,
) -> int
    decreases depth, moves.len() - i,
{
    if i < 0 || i >= moves.len() || depth == 0 {
        value
    } else {
        let found = clamp(
            search(player, search_depth, apply(s, moves[i]), (depth - 1) as nat, alpha, beta)
                + bonus(moves[i]),
        );
        let next = larger(value, found);
        if next > beta {
            next
        } else {
            search_max(
                player,
                search_depth,
                s,
                moves,
                i + 1,
                next,
                larger(next, alpha),
                beta,
                depth,
            )
        }
    }
}

/// The value of a position in which the opponent of `player` is to move,
/// when the moves before place `i` have given the running value `value` and
/// lowered the upper end of the window to `beta`.
pub open spec fn search_min(
    player: PieceColor,
    search_depth: int,
    s: GameState,
    moves: Seq<ChessMove>,
    i: int,
    value: int,
    alpha: int,
    beta: int,
    depth: nat,
) -> int
    decreases depth, moves.len() - i,
{
    if i < 0 || i >= moves.len() || depth == 0 {
        value
    } else {
        let found = clamp(
            search(player, search_depth, apply(s, moves[i]), (depth - 1) as nat, alpha, beta)
                - bonus(moves[i]),
        );
        let next = smaller(value, found);
        if next < alpha {
            next
        } else {
            search_min(
                player,
                search_depth,
                s,
                moves,
                i + 1,
                next,
                alpha,
                smaller(next, beta),
                depth,
            )
        }
    }
}

/// The value of the move `m` at the root: that of the position it leads to,
/// searched one ply less than `search_depth` with the window wide open.
pub open spec fn root_value(player: PieceColor, search_depth: int, s: GameState, m: ChessMove) -> int {
    search(
        player,
        search_depth,
        apply(s, m),
        (search_depth - 1) as nat,
        i32::MIN as int,
        i32::MAX as int,
    )
}

/// The move chosen among `moves` from place `i` on, when `best` is the
/// choice so far and `best_value` its value: a later move replaces the
/// choice only with a larger value, so among equals the first stays.
pub open spec fn best_from(
    player: PieceColor,
    search_depth: int,
    s: GameState,
    moves: Seq<ChessMove>,
    i: int,
    best: Option<ChessMove>,
    best_value: int,
) -> Option<ChessMove>
    decreases moves.len() - i,
{
    if i < 0 || i >= moves.len() {
        best
    } else {
        let value = root_value(player, search_depth, s, moves[i]);
        if value > best_value || best.is_none() {
            best_from(player, search_depth, s, moves, i + 1, Some(moves[i]), value)
        } else {
            best_from(player, search_depth, s, moves, i + 1, best, best_value)
        }
    }
}

/// The move that the search chooses in `s`: the first legal move of the
/// largest root value, or none where there is no legal move.
pub open spec fn best_move(player: PieceColor, search_depth: int, s: GameState) -> Option<ChessMove> {
    best_from(player, search_depth, s, legal_moves(s), 0, None, i32::MIN as int)
}

/// The value of the position `s` for `player` by a search of `depth` plies
/// that looks at every move: `player` takes the largest value among the
/// moves and its opponent the smallest.
pub open spec fn minimax(player: PieceColor, search_depth: int, s: GameState, depth: nat) -> int
    decreases depth, legal_moves(s).len() + 1,
{
    if depth == 0 {
        static_eval(s, player)
    } else if legal_moves(s).len() == 0 {
        terminal_value(player, search_depth, s, depth as int)
    } else if s.turn == player {
        minimax_max(player, search_depth, s, legal_moves(s), 0, i32::MIN as int, depth)
    } else {
        minimax_min(player, search_depth, s, legal_moves(s), 0, i32::MAX as int, depth)
    }
}

/// The largest value among `value` and the values of the moves from place
/// `i` on.
pub open spec fn minimax_max(
    player: PieceColor,
    search_depth: int,
    s: GameState,
    moves: Seq<ChessMove>,
    i: int,
    value: int,
    depth: nat,
) -> int
    decreases depth, moves.len() - i,
{
    if i < 0 || i >= moves.len() || depth == 0 {
        value
    } else {
        minimax_max(
            player,
            search_depth,
            s,
            moves,
            i + 1,
            larger(
                value,
                clamp(
                    minimax(player, search_depth, apply(s, moves[i]), (depth - 1) as nat) + bonus(
                        moves[i],
                    ),
                ),
            ),
            depth,
        )
    }
}

/// The smallest value among `value` and the values of the moves from place
/// `i` on.
pub open spec fn minimax_min(
    player: PieceColor,
    search_depth: int,
    s: GameState,
    moves: Seq<ChessMove>,
    i: int,
    value: int,
    depth: nat,
) -> int
    decreases depth, moves.len() - i,
{
    if i < 0 || i >= moves.len() || depth == 0 {
        value
    } else {
        minimax_min(
            player,
            search_depth,
            s,
            moves,
            i + 1,
            smaller(
                value,
                clamp(
                    minimax(player, search_depth, apply(s, moves[i]), (depth - 1) as nat) - bonus(
                        moves[i],
                    ),
                ),
            ),
            depth,
        )
    }
}

/// No castle is legal within `depth` plies of `s`.
pub open spec fn castle_free(s: GameState, depth: nat) -> bool
    decreases depth,
{
    depth == 0 || forall|i: int|
        0 <= i < legal_moves(s).len() ==> !(#[trigger] legal_moves(s)[i]).is_castle()
            && castle_free(apply(s, legal_moves(s)[i]), (depth - 1) as nat)
}

/// No castle is legal before the last of `depth` plies from `s`.
pub open spec fn castle_free_until_last(s: GameState, depth: nat) -> bool
    decreases depth,
{
    depth <= 1 || forall|i: int|
        0 <= i < legal_moves(s).len() ==> !(#[trigger] legal_moves(s)[i]).is_castle()
            && castle_free_until_last(apply(s, legal_moves(s)[i]), (depth - 1) as nat)
}

/// A position that a search of `depth` plies can start from: the move
/// counter has room for the plies, and the depth is within the search depth.
pub open spec fn searchable(s: GameState, search_depth: int, depth: nat) -> bool {
    &&& 0 <= s.half_moves
    &&& s.half_moves + depth <= u16::MAX
    &&& depth <= search_depth <= u16::MAX
}

/// How the value `found` by a search inside the window from `alpha` to
/// `beta` stands to the value `exact` that minimax gives, when each
/// evaluation may be off by `slack`: below the upper end of the window the
/// exact value is not more than what was found, or than the lower end of the
/// window, by more than the slack; above the lower end it is not less than
/// what was found, or than the upper end, by more than the slack.
pub open spec fn within_tolerance(found: int, exact: int, alpha: int, beta: int, slack: int) -> bool {
    &&& found < beta ==> exact <= larger(found, alpha) + slack
    &&& found > alpha ==> exact >= smaller(found, beta) - slack
}

/// `within_tolerance` without slack.
pub open spec fn within_window(found: int, exact: int, alpha: int, beta: int) -> bool {
    within_tolerance(found, exact, alpha, beta, 0)
}

/// The most that a position can be worth with `depth` plies left of
/// `search_depth`, where no castle is legal: a mate of the opponent at this
/// very ply, and one less if the side to move is not mated.
pub open spec fn ceiling(search_depth: int, depth: int, mated: bool) -> int {
    i32::MAX - (search_depth - depth) - (if mated {
        0int
    } else {
        1int
    })
}

/// The least that a position can be worth with `depth` plies left of
/// `search_depth`, where no castle is legal.
pub open spec fn floor(search_depth: int, depth: int, mated: bool) -> int {
    i32::MIN + (search_depth - depth) + (if mated {
        0int
    } else {
        1int
    })
}

/// The exact value of the move `m` at the root: what minimax gives for the
/// position it leads to, one ply less than `search_depth` deep.
pub open spec fn root_minimax(player: PieceColor, search_depth: int, s: GameState, m: ChessMove) -> int {
    minimax(player, search_depth, apply(s, m), (search_depth - 1) as nat)
}

/// The move leaves the opponent mated.
pub open spec fn mates(s: GameState, m: ChessMove) -> bool {
    is_checkmate(apply(s, m))
}


} // verus!
