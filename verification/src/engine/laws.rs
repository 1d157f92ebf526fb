//! What holds of the search: it finds what plain minimax finds, and it finds
//! a mate in one.

use vstd::prelude::*;
use super::evaluation::lemma_static_eval_bound;
use super::search::{
    best_from, best_move, bonus, castle_free, castle_free_until_last, clamp, larger, mates, minimax,
    minimax_max, minimax_min, root_value, search, search_max, search_min, searchable, smaller,
    within_window,
};
use crate::game::chess_move::ChessMove;
use crate::game::laws::{lemma_castle_is_legal_under_its_conditions, lemma_rights_are_never_granted};
use crate::game::piece::PieceColor;
use crate::game::rules::{apply, legal_moves, rights_of, GameState};

verus! {

/// Neither side holds a castling right.
pub open spec fn no_rights_left(s: GameState) -> bool {
    forall|color: PieceColor|
        !(#[trigger] rights_of(s, color)).kingside && !rights_of(s, color).queenside
}

/// A move leaves a searchable position searchable one ply less deep.
pub proof fn lemma_searchable_step(s: GameState, search_depth: int, depth: nat, m: ChessMove)
    requires
        searchable(s, search_depth, depth),
        depth > 0,
    ensures
        searchable(apply(s, m), search_depth, (depth - 1) as nat),
{
}

/// Where neither side holds a castling right, no castle is legal at any
/// depth.
pub proof fn lemma_no_rights_no_castle(s: GameState, depth: nat)
    requires
        s.rights.len() == 2,
        no_rights_left(s),
    ensures
        castle_free(s, depth),
    decreases depth,
{
    if depth > 0 {
        lemma_castle_is_legal_under_its_conditions(s);
        assert(!rights_of(s, s.turn).kingside && !rights_of(s, s.turn).queenside);
        assert forall|i: int| 0 <= i < legal_moves(s).len() implies !(
        #[trigger] legal_moves(s)[i]).is_castle() && castle_free(
            apply(s, legal_moves(s)[i]),
            (depth - 1) as nat,
        ) by {
            let m = legal_moves(s)[i];
            assert(legal_moves(s).contains(m));
            let after = apply(s, m);
            assert forall|color: PieceColor|
                !(#[trigger] rights_of(after, color)).kingside && !rights_of(
                    after,
                    color,
                ).queenside by {
                lemma_rights_are_never_granted(s, m, color);
                assert(!rights_of(s, color).kingside);
            }
            lemma_no_rights_no_castle(after, (depth - 1) as nat);
        }
    }
}

/// What the search returns is a 32-bit score.
pub proof fn lemma_search_in_range(
    player: PieceColor,
    search_depth: int,
    s: GameState,
    depth: nat,
    alpha: int,
    beta: int,
)
    requires
        searchable(s, search_depth, depth),
    ensures
        i32::MIN <= search(player, search_depth, s, depth, alpha, beta) <= i32::MAX,
    decreases depth, legal_moves(s).len() + 1,
{
    if depth == 0 {
        lemma_static_eval_bound(s, player);
    } else if legal_moves(s).len() == 0 {
    } else if s.turn == player {
        lemma_search_max_in_range(
            player,
            search_depth,
            s,
            legal_moves(s),
            0,
            i32::MIN as int,
            alpha,
            beta,
            depth,
        );
    } else {
        lemma_search_min_in_range(
            player,
            search_depth,
            s,
            legal_moves(s),
            0,
            i32::MAX as int,
            alpha,
            beta,
            depth,
        );
    }
}

/// What the search of the moves from place `i` on returns for the side that
/// takes the largest value is a 32-bit score.
pub proof fn lemma_search_max_in_range(
    player: PieceColor,
    search_depth: int,
    s: GameState,
    moves: Seq<ChessMove>,
    i: int,
    value: int,
    alpha: int,
    beta: int,
    depth: nat,
)
    requires
        i32::MIN <= value <= i32::MAX,
    ensures
        i32::MIN <= search_max(player, search_depth, s, moves, i, value, alpha, beta, depth)
            <= i32::MAX,
    decreases depth, moves.len() - i,
{
    if 0 <= i < moves.len() && depth > 0 {
        let found = clamp(
            search(player, search_depth, apply(s, moves[i]), (depth - 1) as nat, alpha, beta)
                + bonus(moves[i]),
        );
        let next = larger(value, found);
        if next <= beta {
            lemma_search_max_in_range(
                player,
                search_depth,
                s,
                moves,
                i + 1,
                next,
                larger(next, alpha),
                beta,
                depth,
            );
        }
    }
}

/// What the search of the moves from place `i` on returns for the side that
/// takes the smallest value is a 32-bit score.
pub proof fn lemma_search_min_in_range(
    player: PieceColor,
    search_depth: int,
    s: GameState,
    moves: Seq<ChessMove>,
    i: int,
    value: int,
    alpha: int,
    beta: int,
    depth: nat,
)
    requires
        i32::MIN <= value <= i32::MAX,
    ensures
        i32::MIN <= search_min(player, search_depth, s, moves, i, value, alpha, beta, depth)
            <= i32::MAX,
    decreases depth, moves.len() - i,
{
    if 0 <= i < moves.len() && depth > 0 {
        let found = clamp(
            search(player, search_depth, apply(s, moves[i]), (depth - 1) as nat, alpha, beta)
                - bonus(moves[i]),
        );
        let next = smaller(value, found);
        if next >= alpha {
            lemma_search_min_in_range(
                player,
                search_depth,
                s,
                moves,
                i + 1,
                next,
                alpha,
                smaller(next, beta),
                depth,
            );
        }
    }
}

/// What minimax returns is a 32-bit score.
pub proof fn lemma_minimax_in_range(player: PieceColor, search_depth: int, s: GameState, depth: nat)
    requires
        searchable(s, search_depth, depth),
    ensures
        i32::MIN <= minimax(player, search_depth, s, depth) <= i32::MAX,
    decreases depth, legal_moves(s).len() + 1,
{
    if depth == 0 {
        lemma_static_eval_bound(s, player);
    } else if legal_moves(s).len() == 0 {
    } else if s.turn == player {
        lemma_minimax_max_bounds(player, search_depth, s, legal_moves(s), 0, i32::MIN as int, depth);
    } else {
        lemma_minimax_min_bounds(player, search_depth, s, legal_moves(s), 0, i32::MAX as int, depth);
    }
}

/// The largest value from place `i` on is a 32-bit score and not less than
/// the value it started from.
pub proof fn lemma_minimax_max_bounds(
    player: PieceColor,
    search_depth: int,
    s: GameState,
    moves: Seq<ChessMove>,
    i: int,
    value: int,
    depth: nat,
)
    requires
        i32::MIN <= value <= i32::MAX,
    ensures
        value <= minimax_max(player, search_depth, s, moves, i, value, depth) <= i32::MAX,
    decreases depth, moves.len() - i,
{
    if 0 <= i < moves.len() && depth > 0 {
        let found = clamp(
            minimax(player, search_depth, apply(s, moves[i]), (depth - 1) as nat) + bonus(moves[i]),
        );
        lemma_minimax_max_bounds(
            player,
            search_depth,
            s,
            moves,
            i + 1,
            larger(value, found),
            depth,
        );
    }
}

/// The smallest value from place `i` on is a 32-bit score and not more than
/// the value it started from.
pub proof fn lemma_minimax_min_bounds(
    player: PieceColor,
    search_depth: int,
    s: GameState,
    moves: Seq<ChessMove>,
    i: int,
    value: int,
    depth: nat,
)
    requires
        i32::MIN <= value <= i32::MAX,
    ensures
        i32::MIN <= minimax_min(player, search_depth, s, moves, i, value, depth) <= value,
    decreases depth, moves.len() - i,
{
    if 0 <= i < moves.len() && depth > 0 {
        let found = clamp(
            minimax(player, search_depth, apply(s, moves[i]), (depth - 1) as nat) - bonus(moves[i]),
        );
        lemma_minimax_min_bounds(
            player,
            search_depth,
            s,
            moves,
            i + 1,
            smaller(value, found),
            depth,
        );
    }
}

/// Where no castle is legal within some depth, none is before the last ply
/// of that depth.
pub proof fn lemma_castle_free_until_last(s: GameState, depth: nat)
    requires
        castle_free(s, depth),
    ensures
        castle_free_until_last(s, depth),
    decreases depth,
{
    if depth > 1 {
        assert forall|i: int| 0 <= i < legal_moves(s).len() implies !(
        #[trigger] legal_moves(s)[i]).is_castle() && castle_free_until_last(
            apply(s, legal_moves(s)[i]),
            (depth - 1) as nat,
        ) by {
            lemma_castle_free_until_last(apply(s, legal_moves(s)[i]), (depth - 1) as nat);
        }
    }
}

/// The search inside a window stands to minimax as `within_window` says,
/// wherever no castle is legal before the last ply of the search.
pub proof fn lemma_search_within_window(
    player: PieceColor,
    search_depth: int,
    s: GameState,
    depth: nat,
    alpha: int,
    beta: int,
)
    requires
        searchable(s, search_depth, depth),
        castle_free_until_last(s, depth),
        i32::MIN <= alpha <= i32::MAX,
        i32::MIN <= beta <= i32::MAX,
    ensures
        within_window(
            search(player, search_depth, s, depth, alpha, beta),
            minimax(player, search_depth, s, depth),
            alpha,
            beta,
        ),
    decreases depth, legal_moves(s).len() + 1,
{
    if depth == 0 {
    } else if legal_moves(s).len() == 0 {
    } else if s.turn == player {
        lemma_max_within_window(
            player,
            search_depth,
            s,
            legal_moves(s),
            0,
            i32::MIN as int,
            i32::MIN as int,
            alpha,
            alpha,
            beta,
            depth,
        );
    } else {
        lemma_min_within_window(
            player,
            search_depth,
            s,
            legal_moves(s),
            0,
            i32::MAX as int,
            i32::MAX as int,
            beta,
            alpha,
            beta,
            depth,
        );
    }
}

/// One more move for the side that takes the largest value: what was found
/// still stands to the exact value as `within_window` says, if the value
/// found for the move is the exact one, or stands to it so inside the window
/// as the moves before have narrowed it.
pub proof fn lemma_larger_keeps_window(
    found: int,
    exact: int,
    child_found: int,
    child_exact: int,
    alpha: int,
    beta: int,
)
    requires
        within_window(found, exact, alpha, beta),
        found <= beta,
        child_found == child_exact || within_window(
            child_found,
            child_exact,
            larger(found, alpha),
            beta,
        ),
    ensures
        within_window(larger(found, child_found), larger(exact, child_exact), alpha, beta),
{
}

/// One more move for the side that takes the smallest value: what was found
/// still stands to the exact value as `within_window` says, if the value
/// found for the move is the exact one, or stands to it so inside the window
/// as the moves before have narrowed it.
pub proof fn lemma_smaller_keeps_window(
    found: int,
    exact: int,
    child_found: int,
    child_exact: int,
    alpha: int,
    beta: int,
)
    requires
        within_window(found, exact, alpha, beta),
        found >= alpha,
        child_found == child_exact || within_window(
            child_found,
            child_exact,
            alpha,
            smaller(found, beta),
        ),
    ensures
        within_window(smaller(found, child_found), smaller(exact, child_exact), alpha, beta),
{
}

/// The search of the moves from place `i` on stands to minimax as
/// `within_window` says, for the side that takes the largest value, if the
/// values found so far do.
pub proof fn lemma_max_within_window(
    player: PieceColor,
    search_depth: int,
    s: GameState,
    moves: Seq<ChessMove>,
    i: int,
    found: int,
    exact: int,
    low: int,
    alpha: int,
    beta: int,
    depth: nat,
)
    requires
        searchable(s, search_depth, depth),
        castle_free_until_last(s, depth),
        depth > 0,
        moves == legal_moves(s),
        0 <= i <= moves.len(),
        i32::MIN <= alpha <= i32::MAX,
        i32::MIN <= beta <= i32::MAX,
        i32::MIN <= found <= i32::MAX,
        i32::MIN <= exact <= i32::MAX,
        found <= beta,
        low == larger(found, alpha),
        within_window(found, exact, alpha, beta),
    ensures
        within_window(
            search_max(player, search_depth, s, moves, i, found, low, beta, depth),
            minimax_max(player, search_depth, s, moves, i, exact, depth),
            alpha,
            beta,
        ),
    decreases depth, moves.len() - i,
{
    if i < moves.len() {
        let m = moves[i];
        let after = apply(s, m);
        let below = (depth - 1) as nat;
        lemma_searchable_step(s, search_depth, depth, m);
        lemma_search_in_range(player, search_depth, after, below, low, beta);
        lemma_minimax_in_range(player, search_depth, after, below);
        let raw_found = search(player, search_depth, after, below, low, beta);
        let raw_exact = minimax(player, search_depth, after, below);
        if depth > 1 {
            assert(!m.is_castle() && castle_free_until_last(after, below));
            lemma_search_within_window(player, search_depth, after, below, low, beta);
            assert(bonus(m) == 0);
        } else {
            assert(raw_found == raw_exact);
        }
        let child_found = clamp(raw_found + bonus(m));
        let child_exact = clamp(raw_exact + bonus(m));
        let next_found = larger(found, child_found);
        let next_exact = larger(exact, child_exact);
        lemma_larger_keeps_window(found, exact, child_found, child_exact, alpha, beta);
        lemma_minimax_max_bounds(player, search_depth, s, moves, i + 1, next_exact, depth);
        if next_found <= beta {
            lemma_max_within_window(
                player,
                search_depth,
                s,
                moves,
                i + 1,
                next_found,
                next_exact,
                larger(next_found, low),
                alpha,
                beta,
                depth,
            );
        }
    }
}

/// The search of the moves from place `i` on stands to minimax as
/// `within_window` says, for the side that takes the smallest value, if the
/// values found so far do.
pub proof fn lemma_min_within_window(
    player: PieceColor,
    search_depth: int,
    s: GameState,
    moves: Seq<ChessMove>,
    i: int,
    found: int,
    exact: int,
    high: int,
    alpha: int,
    beta: int,
    depth: nat,
)
    requires
        searchable(s, search_depth, depth),
        castle_free_until_last(s, depth),
        depth > 0,
        moves == legal_moves(s),
        0 <= i <= moves.len(),
        i32::MIN <= alpha <= i32::MAX,
        i32::MIN <= beta <= i32::MAX,
        i32::MIN <= found <= i32::MAX,
        i32::MIN <= exact <= i32::MAX,
        found >= alpha,
        high == smaller(found, beta),
        within_window(found, exact, alpha, beta),
    ensures
        within_window(
            search_min(player, search_depth, s, moves, i, found, alpha, high, depth),
            minimax_min(player, search_depth, s, moves, i, exact, depth),
            alpha,
            beta,
        ),
    decreases depth, moves.len() - i,
{
    if i < moves.len() {
        let m = moves[i];
        let after = apply(s, m);
        let below = (depth - 1) as nat;
        lemma_searchable_step(s, search_depth, depth, m);
        lemma_search_in_range(player, search_depth, after, below, alpha, high);
        lemma_minimax_in_range(player, search_depth, after, below);
        let raw_found = search(player, search_depth, after, below, alpha, high);
        let raw_exact = minimax(player, search_depth, after, below);
        if depth > 1 {
            assert(!m.is_castle() && castle_free_until_last(after, below));
            lemma_search_within_window(player, search_depth, after, below, alpha, high);
            assert(bonus(m) == 0);
        } else {
            assert(raw_found == raw_exact);
        }
        let child_found = clamp(raw_found - bonus(m));
        let child_exact = clamp(raw_exact - bonus(m));
        let next_found = smaller(found, child_found);
        let next_exact = smaller(exact, child_exact);
        lemma_smaller_keeps_window(found, exact, child_found, child_exact, alpha, beta);
        lemma_minimax_min_bounds(player, search_depth, s, moves, i + 1, next_exact, depth);
        if next_found >= alpha {
            lemma_min_within_window(
                player,
                search_depth,
                s,
                moves,
                i + 1,
                next_found,
                next_exact,
                smaller(next_found, high),
                alpha,
                beta,
                depth,
            );
        }
    }
}

/// With the window wide open the search returns what minimax returns,
/// wherever no castle is legal before the last ply of the search: skipping
/// moves loses nothing. A castle that is legal earlier can make the two
/// differ, because its bonus is added after the position behind it was
/// searched inside the window.
pub proof fn lemma_search_equals_minimax(
    player: PieceColor,
    search_depth: int,
    s: GameState,
    depth: nat,
)
    requires
        searchable(s, search_depth, depth),
        castle_free_until_last(s, depth),
    ensures
        search(player, search_depth, s, depth, i32::MIN as int, i32::MAX as int) == minimax(
            player,
            search_depth,
            s,
            depth,
        ),
{
    lemma_search_within_window(player, search_depth, s, depth, i32::MIN as int, i32::MAX as int);
    lemma_search_in_range(player, search_depth, s, depth, i32::MIN as int, i32::MAX as int);
    lemma_minimax_in_range(player, search_depth, s, depth);
}

/// The smallest value from place `i` on, found inside a window, is not more
/// than the value the search of the moves started from.
pub proof fn lemma_search_min_falls(
    player: PieceColor,
    search_depth: int,
    s: GameState,
    moves: Seq<ChessMove>,
    i: int,
    value: int,
    alpha: int,
    beta: int,
    depth: nat,
)
    ensures
        search_min(player, search_depth, s, moves, i, value, alpha, beta, depth) <= value,
    decreases depth, moves.len() - i,
{
    if 0 <= i < moves.len() && depth > 0 {
        let found = clamp(
            search(player, search_depth, apply(s, moves[i]), (depth - 1) as nat, alpha, beta)
                - bonus(moves[i]),
        );
        let next = smaller(value, found);
        if next >= alpha {
            lemma_search_min_falls(
                player,
                search_depth,
                s,
                moves,
                i + 1,
                next,
                alpha,
                smaller(next, beta),
                depth,
            );
        }
    }
}

/// Two plies or more below the root, where no castle is legal, no value
/// reaches that of a mate in one.
pub proof fn lemma_deep_values_stay_below_mate(
    player: PieceColor,
    search_depth: int,
    s: GameState,
    depth: nat,
    alpha: int,
    beta: int,
)
    requires
        searchable(s, search_depth, depth),
        depth + 2 <= search_depth,
        castle_free(s, depth),
    ensures
        search(player, search_depth, s, depth, alpha, beta) <= i32::MAX - 2,
    decreases depth, legal_moves(s).len() + 1,
{
    if depth == 0 {
        lemma_static_eval_bound(s, player);
    } else if legal_moves(s).len() == 0 {
    } else if s.turn == player {
        lemma_deep_max_stays_below_mate(
            player,
            search_depth,
            s,
            legal_moves(s),
            0,
            i32::MIN as int,
            alpha,
            beta,
            depth,
        );
    } else {
        let moves = legal_moves(s);
        let after = apply(s, moves[0]);
        let below = (depth - 1) as nat;
        assert(!moves[0].is_castle() && castle_free(after, below));
        lemma_searchable_step(s, search_depth, depth, moves[0]);
        lemma_deep_values_stay_below_mate(player, search_depth, after, below, alpha, beta);
        lemma_search_in_range(player, search_depth, after, below, alpha, beta);
        let first = search(player, search_depth, after, below, alpha, beta);
        let next = smaller(i32::MAX as int, first);
        if next >= alpha {
            lemma_search_min_falls(
                player,
                search_depth,
                s,
                moves,
                1,
                next,
                alpha,
                smaller(next, beta),
                depth,
            );
        }
    }
}

/// Two plies or more below the root, where no castle is legal, the largest
/// value from place `i` on does not reach that of a mate in one.
pub proof fn lemma_deep_max_stays_below_mate(
    player: PieceColor,
    search_depth: int,
    s: GameState,
    moves: Seq<ChessMove>,
    i: int,
    value: int,
    alpha: int,
    beta: int,
    depth: nat,
)
    requires
        searchable(s, search_depth, depth),
        depth > 0,
        depth + 2 <= search_depth,
        castle_free(s, depth),
        moves == legal_moves(s),
        0 <= i <= moves.len(),
        value <= i32::MAX - 2,
    ensures
        search_max(player, search_depth, s, moves, i, value, alpha, beta, depth) <= i32::MAX - 2,
    decreases depth, moves.len() - i,
{
    if i < moves.len() {
        let after = apply(s, moves[i]);
        let below = (depth - 1) as nat;
        assert(!moves[i].is_castle() && castle_free(after, below));
        lemma_searchable_step(s, search_depth, depth, moves[i]);
        lemma_deep_values_stay_below_mate(player, search_depth, after, below, alpha, beta);
        lemma_search_in_range(player, search_depth, after, below, alpha, beta);
        let next = larger(value, search(player, search_depth, after, below, alpha, beta));
        if next <= beta {
            lemma_deep_max_stays_below_mate(
                player,
                search_depth,
                s,
                moves,
                i + 1,
                next,
                larger(next, alpha),
                beta,
                depth,
            );
        }
    }
}

/// At the root, a move that mates is worth exactly one less than the best
/// score, and any other move less than that.
pub proof fn lemma_root_value_of_mate(
    player: PieceColor,
    search_depth: int,
    s: GameState,
    m: ChessMove,
)
    requires
        searchable(s, search_depth, search_depth as nat),
        search_depth >= 2,
        s.turn == player,
        castle_free(s, search_depth as nat),
        legal_moves(s).contains(m),
    ensures
        mates(s, m) ==> root_value(player, search_depth, s, m) == i32::MAX - 1,
        !mates(s, m) ==> root_value(player, search_depth, s, m) <= i32::MAX - 2,
{
    let after = apply(s, m);
    let depth = (search_depth - 1) as nat;
    let i = choose|i: int| 0 <= i < legal_moves(s).len() && legal_moves(s)[i] == m;
    assert(!legal_moves(s)[i].is_castle() && castle_free(after, depth));
    lemma_searchable_step(s, search_depth, search_depth as nat, m);
    if !mates(s, m) && legal_moves(after).len() > 0 {
        let replies = legal_moves(after);
        let next = apply(after, replies[0]);
        let below = (depth - 1) as nat;
        assert(!replies[0].is_castle() && castle_free(next, below));
        lemma_searchable_step(after, search_depth, depth, replies[0]);
        lemma_deep_values_stay_below_mate(
            player,
            search_depth,
            next,
            below,
            i32::MIN as int,
            i32::MAX as int,
        );
        lemma_search_in_range(player, search_depth, next, below, i32::MIN as int, i32::MAX as int);
        let first = search(player, search_depth, next, below, i32::MIN as int, i32::MAX as int);
        let value = smaller(i32::MAX as int, first);
        lemma_search_min_falls(
            player,
            search_depth,
            after,
            replies,
            1,
            value,
            i32::MIN as int,
            smaller(value, i32::MAX as int),
            depth,
        );
    }
}

/// The value is what the kind of the move `m` asks for: one less than the
/// best score if the move is one of `good`, less than that if it is not.
pub open spec fn rated(good: Set<ChessMove>, m: ChessMove, value: int) -> bool {
    if good.contains(m) {
        value == i32::MAX - 1
    } else {
        value <= i32::MAX - 2
    }
}

/// The choice among the moves from place `i` on is one of `good`, if the
/// moves of `good` are worth one less than the best score and all others
/// less than that, and if the choice so far is one of `good` or one of them
/// is still to come.
pub proof fn lemma_best_from_finds_the_good(
    player: PieceColor,
    search_depth: int,
    s: GameState,
    moves: Seq<ChessMove>,
    good: Set<ChessMove>,
    i: int,
    best: Option<ChessMove>,
    best_value: int,
)
    requires
        0 <= i <= moves.len(),
        forall|j: int|
            0 <= j < moves.len() ==> rated(
                good,
                #[trigger] moves[j],
                root_value(player, search_depth, s, moves[j]),
            ),
        best matches Some(b) ==> moves.contains(b) && rated(good, b, best_value),
        (best matches Some(b) && good.contains(b)) || exists|j: int|
            i <= j < moves.len() && good.contains(#[trigger] moves[j]),
    ensures
        best_from(player, search_depth, s, moves, i, best, best_value) matches Some(m)
            && moves.contains(m) && good.contains(m),
    decreases moves.len() - i,
{
    if i < moves.len() {
        let m = moves[i];
        assert(moves.contains(m));
        let value = root_value(player, search_depth, s, m);
        assert(rated(good, m, value));
        if value > best_value || best.is_none() {
            if !good.contains(m) {
                let j = choose|j: int| i <= j < moves.len() && good.contains(#[trigger] moves[j]);
                assert(i + 1 <= j);
            }
            lemma_best_from_finds_the_good(
                player,
                search_depth,
                s,
                moves,
                good,
                i + 1,
                Some(m),
                value,
            );
        } else {
            if !good.contains(best->0) {
                let j = choose|j: int| i <= j < moves.len() && good.contains(#[trigger] moves[j]);
                assert(i + 1 <= j);
            }
            lemma_best_from_finds_the_good(
                player,
                search_depth,
                s,
                moves,
                good,
                i + 1,
                best,
                best_value,
            );
        }
    }
}

/// The moves of `s` that leave the opponent mated.
pub open spec fn mating_moves(s: GameState) -> Set<ChessMove> {
    Set::new(|m: ChessMove| mates(s, m))
}

/// Where the engine's side can mate in one, the move that the search chooses
/// mates, if the search is two plies deep or more and no castle is legal
/// within its depth.
pub proof fn lemma_mate_in_one_is_found(player: PieceColor, search_depth: int, s: GameState, m: ChessMove)
    requires
        searchable(s, search_depth, search_depth as nat),
        search_depth >= 2,
        s.turn == player,
        castle_free(s, search_depth as nat),
        legal_moves(s).contains(m),
        mates(s, m),
    ensures
        best_move(player, search_depth, s) matches Some(chosen) && legal_moves(s).contains(chosen)
            && mates(s, chosen),
{
    let moves = legal_moves(s);
    let good = mating_moves(s);
    let j = choose|j: int| 0 <= j < moves.len() && moves[j] == m;
    assert(good.contains(moves[j]));
    assert forall|k: int| 0 <= k < moves.len() implies rated(
        good,
        #[trigger] moves[k],
        root_value(player, search_depth, s, moves[k]),
    ) by {
        assert(moves.contains(moves[k]));
        lemma_root_value_of_mate(player, search_depth, s, moves[k]);
    }
    lemma_best_from_finds_the_good(
        player,
        search_depth,
        s,
        moves,
        good,
        0,
        None,
        i32::MIN as int,
    );
}

} // verus!
