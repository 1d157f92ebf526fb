//! Move selection by searching the game tree.

pub mod deepening;
pub mod evaluation;
pub mod laws;
pub mod parallel;
pub mod search;
pub mod tree;

use vstd::prelude::*;
use rand::Rng;
use crate::game::chess_move::ChessMove;
use crate::game::movegen::all_valid;
use crate::game::piece::PieceColor;
use crate::game::rules::{apply, in_check, is_checkmate, legal_moves};
use crate::game::Game;
use deepening::deepen_upto;
use evaluation::{lemma_static_eval_bound, score_with_jitter, static_eval, JITTER};
use laws::{
    lemma_minimax_in_range, lemma_minimax_max_bounds, lemma_minimax_min_bounds,
    lemma_search_equals_minimax, lemma_searchable_step,
};
use parallel::castle_bonus;
use search::{
    best_from, best_move, bonus, castle_free, castle_free_until_last, ceiling, clamp, floor, larger,
    mates, minimax, minimax_max, minimax_min, root_minimax, root_value, search, search_max,
    search_min, smaller, terminal_value, within_tolerance,
};
use tree::{
    answered, complete, first_of_value, grown, has_move, has_value, lemma_first_of_value_is_a_child,
    lemma_value_is_found, root_sketch, searched, sketches, tidy, weighed, Node,
};

verus! {

/// An engine: the game it plays, the side it plays, and how deep it looks.
pub struct Engine {
    pub game: Game,
    /// The search tree kept from the last iterative search of this position.
    pub tree: Option<Node>,
    pub search_depth: u16,
    pub player: PieceColor,
    /// Whether evaluations are moved by a small random amount to break ties.
    pub jitter: bool,
}

/// Draws a number from `low` to `high`, both ends included, with
/// `rand::Rng::gen_range` on the generator of the thread, `rand::thread_rng`.
/// The call returns a value of the range it is given and does not take an
/// empty range; which value it returns is not known.
#[verifier::external_body]
fn draw_between(low: i32, high: i32) -> (r: i32)
    requires
        low <= high,
    ensures
        low <= r <= high,
{
    rand::thread_rng().gen_range(low..=high)
}

/// The sum of two scores, held at the ends of the 32-bit range.
pub fn saturating_sum(a: i32, b: i32) -> (r: i32)
    ensures
        r == clamp(a + b),
{
    let wide: i64 = a as i64 + b as i64;
    if wide > i32::MAX as i64 {
        i32::MAX
    } else if wide < i32::MIN as i64 {
        i32::MIN
    } else {
        wide as i32
    }
}

impl Engine {
    /// An engine that plays `player` in `game` and searches `search_depth`
    /// plies deep, with jitter.
    pub fn new(game: Game, player: PieceColor, search_depth: u16) -> (e: Engine)
        ensures
            e.game == game,
            e.tree.is_none(),
            e.search_depth == search_depth,
            e.player == player,
            e.jitter,
    {
        Engine { game, tree: None, search_depth, player, jitter: true }
    }

    /// Makes a move in the engine's game and drops the search tree, which
    /// belonged to the position before.
    pub fn advance_move(&mut self, chess_move: ChessMove)
        requires
            old(self).game.valid(),
            chess_move.valid(),
            old(self).game.half_moves < u16::MAX,
        ensures
            final(self).game@ == apply(old(self).game@, chess_move),
            final(self).game.valid(),
            final(self).tree.is_none(),
            final(self).search_depth == old(self).search_depth,
            final(self).player == old(self).player,
            final(self).jitter == old(self).jitter,
    {
        self.game.make_move(&chess_move);
        self.tree = None;
    }

    /// The evaluation of `game` as the engine's side sees it: the static
    /// evaluation, moved by at most 10 either way if the engine uses jitter.
    pub fn evaluate_state(&self, game: &Game) -> (r: i32)
        ensures
            -JITTER <= r - static_eval(game@, self.player) <= JITTER,
            !self.jitter ==> r == static_eval(game@, self.player),
    {
        let jitter = if self.jitter {
            draw_between(-JITTER, JITTER)
        } else {
            0
        };
        score_with_jitter(game, self.player, jitter)
    }

    /// Whether the king of the side to move is attacked.
    pub fn king_attacked(game: &Game) -> (r: bool)
        ensures
            r == in_check(game@),
    {
        match game.board.get_king(&game.turn) {
            Some(king) => game.board.has_check(&king, &game.turn),
            None => false,
        }
    }

    /// The value of `game` for the engine's side by a search of `depth` plies
    /// inside the window from `alpha` to `beta`.
    ///
    /// Without jitter the value is exactly that of `search`. With or without
    /// it, a position without legal moves has its terminal value; and where
    /// no castle is legal within the depth, the value stands to that of
    /// minimax as `within_tolerance` says, with the jitter as slack, and lies
    /// between `floor` and `ceiling`. With the window wide open this means
    /// that the value is that of minimax, give or take the jitter: skipping
    /// moves loses nothing. Without jitter this holds also where a castle is
    /// legal at the last ply of the search, though not before.
    pub fn search_tree(&self, game: &Game, depth: u16, alpha: i32, beta: i32) -> (r: i32)
        requires
            game.valid(),
            depth <= self.search_depth,
            game.half_moves + depth <= u16::MAX,
        ensures
            !self.jitter ==> r == search(
                self.player,
                self.search_depth as int,
                game@,
                depth as nat,
                alpha as int,
                beta as int,
            ),
            depth == 0 ==> -JITTER <= r - static_eval(game@, self.player) <= JITTER,
            depth > 0 && legal_moves(game@).len() == 0 ==> r == terminal_value(
                self.player,
                self.search_depth as int,
                game@,
                depth as int,
            ),
            castle_free(game@, depth as nat) ==> within_tolerance(
                r as int,
                minimax(self.player, self.search_depth as int, game@, depth as nat),
                alpha as int,
                beta as int,
                self.slack(),
            ),
            castle_free(game@, depth as nat) ==> floor(
                self.search_depth as int,
                depth as int,
                is_checkmate(game@),
            ) <= r <= ceiling(self.search_depth as int, depth as int, is_checkmate(game@)),
            castle_free(game@, depth as nat) && alpha == i32::MIN && beta == i32::MAX ==> r
                - self.slack() <= minimax(
                self.player,
                self.search_depth as int,
                game@,
                depth as nat,
            ) <= r + self.slack(),
            !self.jitter && castle_free_until_last(game@, depth as nat) && alpha == i32::MIN && beta
                == i32::MAX ==> r == minimax(
                self.player,
                self.search_depth as int,
                game@,
                depth as nat,
            ),
        decreases depth,
    {
        let ghost player = self.player;
        let ghost limit = self.search_depth as int;
        let ghost free = castle_free(game@, depth as nat);
        let ghost whole = minimax(player, limit, game@, depth as nat);
        proof {
            lemma_static_eval_bound(game@, player);
            lemma_minimax_in_range(player, limit, game@, depth as nat);
        }
        if depth == 0 {
            return self.evaluate_state(game);
        }
        let moves = game.get_moves();
        if moves.len() == 0 {
            if Self::king_attacked(game) {
                if self.player == game.turn {
                    return i32::MIN + (self.search_depth - depth) as i32;
                } else {
                    return i32::MAX - (self.search_depth - depth) as i32;
                }
            } else {
                return 0;
            }
        }
        let ghost answer = search(
            player,
            limit,
            game@,
            depth as nat,
            alpha as int,
            beta as int,
        );
        let ghost late = castle_free_until_last(game@, depth as nat) && alpha == i32::MIN && beta
            == i32::MAX;
        proof {
            if late {
                lemma_search_equals_minimax(player, limit, game@, depth as nat);
            }
        }
        let ghost mut exact: int;
        let mut low = alpha;
        let mut high = beta;
        let mut i: usize = 0;
        if game.turn == self.player {
            let mut value = i32::MIN;
            proof {
                exact = i32::MIN as int;
            }
            while i < moves.len()
                invariant
                    i <= moves.len(),
                    game.valid(),
                    0 < depth <= self.search_depth,
                    game.half_moves + depth <= u16::MAX,
                    all_valid(moves@),
                    moves@.len() > 0,
                    moves@ == legal_moves(game@),
                    game.turn == self.player,
                    player == self.player,
                    limit == self.search_depth as int,
                    free == castle_free(game@, depth as nat),
                    whole == minimax(player, limit, game@, depth as nat),
                    i32::MIN <= whole <= i32::MAX,
                    late ==> answer == whole,
                    answer == search(
                        self.player,
                        self.search_depth as int,
                        game@,
                        depth as nat,
                        alpha as int,
                        beta as int,
                    ),
                    !self.jitter ==> search_max(
                        player,
                        limit,
                        game@,
                        moves@,
                        i as int,
                        value as int,
                        low as int,
                        high as int,
                        depth as nat,
                    ) == answer,
                    high == beta,
                    low == larger(value as int, alpha as int),
                    value <= beta,
                    i32::MIN <= exact <= i32::MAX,
                    free ==> minimax_max(player, limit, game@, moves@, i as int, exact, depth as nat)
                        == whole,
                    free ==> within_tolerance(
                        value as int,
                        exact,
                        alpha as int,
                        beta as int,
                        self.slack(),
                    ),
                    free ==> value <= ceiling(limit, depth as int, false),
                    free && i > 0 ==> value >= floor(limit, depth as int, false),
                decreases moves.len() - i,
            {
                let chess_move = moves[i];
                let mut next_game = *game;
                next_game.make_move(&chess_move);
                let castled_bonus = castle_bonus(&chess_move);
                let below = self.search_tree(&next_game, depth - 1, low, high);
                let found = saturating_sum(below, castled_bonus);
                proof {
                    lemma_searchable_step(game@, limit, depth as nat, chess_move);
                    lemma_minimax_in_range(player, limit, next_game@, (depth - 1) as nat);
                    let child = minimax(player, limit, next_game@, (depth - 1) as nat);
                    if free {
                        assert(!moves@[i as int].is_castle() && castle_free(
                            next_game@,
                            (depth - 1) as nat,
                        ));
                        assert(found == below);
                    }
                    exact = larger(exact, clamp(child + bonus(chess_move)));
                    lemma_minimax_max_bounds(
                        player,
                        limit,
                        game@,
                        moves@,
                        i + 1,
                        exact,
                        depth as nat,
                    );
                }
                if found > value {
                    value = found;
                }
                if value > high {
                    return value;
                }
                if value > low {
                    low = value;
                }
                i = i + 1;
            }
            value
        } else {
            let mut value = i32::MAX;
            proof {
                exact = i32::MAX as int;
            }
            while i < moves.len()
                invariant
                    i <= moves.len(),
                    game.valid(),
                    0 < depth <= self.search_depth,
                    game.half_moves + depth <= u16::MAX,
                    all_valid(moves@),
                    moves@.len() > 0,
                    moves@ == legal_moves(game@),
                    game.turn != self.player,
                    player == self.player,
                    limit == self.search_depth as int,
                    free == castle_free(game@, depth as nat),
                    whole == minimax(player, limit, game@, depth as nat),
                    i32::MIN <= whole <= i32::MAX,
                    late ==> answer == whole,
                    answer == search(
                        self.player,
                        self.search_depth as int,
                        game@,
                        depth as nat,
                        alpha as int,
                        beta as int,
                    ),
                    !self.jitter ==> search_min(
                        player,
                        limit,
                        game@,
                        moves@,
                        i as int,
                        value as int,
                        low as int,
                        high as int,
                        depth as nat,
                    ) == answer,
                    low == alpha,
                    high == smaller(value as int, beta as int),
                    value >= alpha,
                    i32::MIN <= exact <= i32::MAX,
                    free ==> minimax_min(player, limit, game@, moves@, i as int, exact, depth as nat)
                        == whole,
                    free ==> within_tolerance(
                        value as int,
                        exact,
                        alpha as int,
                        beta as int,
                        self.slack(),
                    ),
                    free ==> value >= floor(limit, depth as int, false),
                    free && i > 0 ==> value <= ceiling(limit, depth as int, false),
                decreases moves.len() - i,
            {
                let chess_move = moves[i];
                let mut next_game = *game;
                next_game.make_move(&chess_move);
                let castled_bonus = castle_bonus(&chess_move);
                let below = self.search_tree(&next_game, depth - 1, low, high);
                let found = saturating_sum(below, -castled_bonus);
                proof {
                    lemma_searchable_step(game@, limit, depth as nat, chess_move);
                    lemma_minimax_in_range(player, limit, next_game@, (depth - 1) as nat);
                    let child = minimax(player, limit, next_game@, (depth - 1) as nat);
                    if free {
                        assert(!moves@[i as int].is_castle() && castle_free(
                            next_game@,
                            (depth - 1) as nat,
                        ));
                        assert(found == below);
                    }
                    exact = smaller(exact, clamp(child - bonus(chess_move)));
                    lemma_minimax_min_bounds(
                        player,
                        limit,
                        game@,
                        moves@,
                        i + 1,
                        exact,
                        depth as nat,
                    );
                }
                if found < value {
                    value = found;
                }
                if value < low {
                    return value;
                }
                if value < high {
                    high = value;
                }
                i = i + 1;
            }
            value
        }
    }

    /// By how much an evaluation of this engine may be off: the jitter, or
    /// nothing if the engine uses none.
    pub open spec fn slack(self) -> int {
        if self.jitter {
            JITTER as int
        } else {
            0
        }
    }

    /// The move that the engine would play by deepening its search tree one
    /// ply at a time up to its search depth: the move of the first child of
    /// the root whose value is the root's. The tree is kept for the next
    /// search of the same position.
    ///
    /// A tree that the engine has built itself has grown from the engine's
    /// game, is weighed and searched, and is answered and complete at its
    /// root; so is the empty tree of a new engine or after a move. With such
    /// a tree there is a move exactly when there is a legal one, and the move
    /// is legal. After the search the root has been searched to the search
    /// depth, unless its value is the best score there is. Without jitter
    /// the tree after the search is exactly `deepen_upto`.
    pub fn get_best_move_iterative(&mut self) -> (r: Option<ChessMove>)
        requires
            old(self).game.valid(),
            old(self).game.half_moves + old(self).search_depth <= u16::MAX,
            old(self).tree matches Some(root) ==> tidy(root@),
        ensures
            final(self).game == old(self).game,
            final(self).search_depth == old(self).search_depth,
            final(self).player == old(self).player,
            final(self).jitter == old(self).jitter,
            final(self).search_depth == 0 ==> final(self).tree == old(self).tree,
            final(self).search_depth >= 1 ==> final(self).tree is Some,
            final(self).tree matches Some(root) ==> tidy(root@),
            grown(root_sketch(&old(self).tree), old(self).game@) ==> grown(
                root_sketch(&final(self).tree),
                final(self).game@,
            ) && (r matches Some(m) ==> legal_moves(final(self).game@).contains(m)),
            answered(root_sketch(&old(self).tree)) ==> answered(root_sketch(&final(self).tree)),
            complete(root_sketch(&old(self).tree), old(self).game.turn == old(self).player)
                ==> complete(
                root_sketch(&final(self).tree),
                final(self).game.turn == final(self).player,
            ),
            final(self).search_depth >= 1 ==> root_sketch(&final(self).tree).depth
                >= final(self).search_depth || root_sketch(&final(self).tree).value == i32::MAX,
            weighed(root_sketch(&old(self).tree), old(self).game@, old(self).player) ==> weighed(
                root_sketch(&final(self).tree),
                final(self).game@,
                final(self).player,
            ),
            searched(root_sketch(&old(self).tree), old(self).game@, old(self).player) ==> searched(
                root_sketch(&final(self).tree),
                final(self).game@,
                final(self).player,
            ),
            grown(root_sketch(&old(self).tree), old(self).game@) && answered(
                root_sketch(&old(self).tree),
            ) && final(self).search_depth >= 1 ==> (r.is_none() <==> legal_moves(
                final(self).game@,
            ).len() == 0),
            final(self).search_depth >= 1 && !final(self).jitter ==> final(self).tree->0@
                == deepen_upto(
                final(self).player,
                final(self).game@,
                root_sketch(&old(self).tree),
                1,
                final(self).search_depth as int,
            ),
            r == (match final(self).tree {
                Some(root) => match root@.children {
                    Some(kids) => first_of_value(
                        kids,
                        if final(self).search_depth >= 1 {
                            root@.value
                        } else {
                            0
                        },
                        0,
                    ),
                    None => None,
                },
                None => None,
            }),
    {
        let game = self.game;
        let limit = self.search_depth;
        let ghost start = root_sketch(&self.tree);
        let ghost went = grown(start, game@);
        let ghost sound = answered(start);
        let ghost full = complete(start, game.turn == self.player);
        let ghost even = weighed(start, game@, self.player);
        let ghost deep = searched(start, game@, self.player);
        let mut expected_value: i32 = 0;
        let mut i: u16 = 1;
        while i <= limit
            invariant_except_break
                i >= 2 ==> self.tree is Some && self.tree->0@.value != i32::MAX && expected_value
                    == self.tree->0@.value,
                i == 1 ==> self.tree == old(self).tree && expected_value == 0,
                i >= 2 ==> self.tree->0@.depth >= i - 1,
                !self.jitter ==> deepen_upto(
                    self.player,
                    game@,
                    root_sketch(&self.tree),
                    i as int,
                    limit as int,
                ) == deepen_upto(self.player, game@, start, 1, limit as int),
            invariant
                1 <= i <= limit + 1,
                game == old(self).game,
                self.game == game,
                limit == old(self).search_depth,
                self.search_depth == limit,
                self.player == old(self).player,
                self.jitter == old(self).jitter,
                game.valid(),
                game.half_moves + limit <= u16::MAX,
                self.tree matches Some(root) ==> tidy(root@),
                went ==> grown(root_sketch(&self.tree), game@),
                sound ==> answered(root_sketch(&self.tree)),
                full ==> complete(root_sketch(&self.tree), game.turn == self.player),
                even ==> weighed(root_sketch(&self.tree), game@, self.player),
                deep ==> searched(root_sketch(&self.tree), game@, self.player),
                i >= 2 ==> root_sketch(&self.tree).depth >= 1,
            ensures
                limit == 0 ==> self.tree == old(self).tree && expected_value == 0,
                limit >= 1 ==> self.tree is Some && expected_value == self.tree->0@.value
                    && self.tree->0@.depth >= 1,
                limit >= 1 ==> self.tree->0@.depth >= limit || expected_value == i32::MAX,
                limit >= 1 && !self.jitter ==> self.tree->0@ == deepen_upto(
                    self.player,
                    game@,
                    start,
                    1,
                    limit as int,
                ),
            decreases limit + 1 - i,
        {
            let root = match self.tree.take() {
                Some(root) => root,
                None => Node { children: None, value: 0, depth: 0 },
            };
            let root = self.deepen(&game, root, i, i32::MIN, i32::MAX);
            expected_value = root.value;
            self.tree = Some(root);
            if expected_value == i32::MAX {
                break ;
            }
            if i == limit {
                assert(deepen_upto(
                    self.player,
                    game@,
                    root_sketch(&self.tree),
                    limit + 1,
                    limit as int,
                ) == root_sketch(&self.tree));
                break ;
            }
            i = i + 1;
        }
        match &self.tree {
            Some(root) => {
                proof {
                    assert(root_sketch(&self.tree) == root@);
                    assert(root@.children is Some <==> root.children is Some);
                }
                match &root.children {
                    Some(kids) => {
                        proof {
                            let shown = sketches(kids@);
                            assert(root@.children == Some(shown));
                            lemma_first_of_value_is_a_child(shown, expected_value as int, 0);
                            if went && sound && limit >= 1 {
                                assert(grown(root@, game@));
                                assert(answered(root@));
                                if shown.len() > 0 {
                                    assert(has_value(shown, expected_value as int));
                                    let i = choose|i: int|
                                        0 <= i < shown.len() && i < shown.len() && (
                                        #[trigger] shown[i]).1.value == expected_value;
                                    lemma_value_is_found(shown, expected_value as int, 0, i);
                                    assert(has_move(shown, shown[0].0));
                                    assert(legal_moves(game@).contains(shown[0].0));
                                } else if legal_moves(game@).len() > 0 {
                                    let m = legal_moves(game@)[0];
                                    assert(legal_moves(game@).contains(m));
                                    assert(has_move(shown, m));
                                }
                            }
                        }
                        Self::first_child_of_value(kids, expected_value)
                    },
                    None => None,
                }
            },
            None => None,
        }
    }

    /// The move of the first child whose value is `value`.
    fn first_child_of_value(kids: &Vec<(ChessMove, Node)>, value: i32) -> (r: Option<ChessMove>)
        ensures
            r == first_of_value(sketches(kids@), value as int, 0),
    {
        let mut j: usize = 0;
        assert(sketches(kids@).len() == kids@.len());
        while j < kids.len()
            invariant
                j <= kids.len(),
                sketches(kids@).len() == kids@.len(),
                first_of_value(sketches(kids@), value as int, j as int) == first_of_value(
                    sketches(kids@),
                    value as int,
                    0,
                ),
            decreases kids.len() - j,
        {
            assert(sketches(kids@)[j as int] == (kids@[j as int].0, kids@[j as int].1@));
            if kids[j].1.value == value {
                return Some(kids[j].0);
            }
            j = j + 1;
        }
        None
    }

    /// What holds of the value that a search finds for a move at the root,
    /// where no castle is legal within the search depth: the value differs
    /// from what minimax gives by no more than the jitter; and if the engine
    /// is to move and the search is two plies deep or more, a move that mates
    /// is worth one less than the best score there is, and any other move
    /// less than that.
    pub open spec fn root_fact(self, m: ChessMove, value: int) -> bool {
        let limit = self.search_depth as int;
        castle_free(self.game@, limit as nat) ==> {
            &&& value - self.slack() <= root_minimax(self.player, limit, self.game@, m) <= value
                + self.slack()
            &&& self.game.turn == self.player && limit >= 2 ==> (if mates(self.game@, m) {
                value == i32::MAX - 1
            } else {
                value <= i32::MAX - 2
            })
        }
    }

    /// The value of a legal move at the root: that of the position it leads
    /// to, searched one ply less than the search depth with the window wide
    /// open. Whatever the jitter, `root_fact` holds of it.
    pub fn root_search(&self, chess_move: &ChessMove) -> (value: i32)
        requires
            self.game.valid(),
            self.search_depth >= 1,
            self.game.half_moves + self.search_depth <= u16::MAX,
            legal_moves(self.game@).contains(*chess_move),
            chess_move.valid(),
        ensures
            !self.jitter ==> value == root_value(
                self.player,
                self.search_depth as int,
                self.game@,
                *chess_move,
            ),
            self.root_fact(*chess_move, value as int),
    {
        let mut next_game = self.game;
        next_game.make_move(chess_move);
        let value = self.search_tree(&next_game, self.search_depth - 1, i32::MIN, i32::MAX);
        proof {
            let limit = self.search_depth as int;
            lemma_searchable_step(self.game@, limit, limit as nat, *chess_move);
            lemma_minimax_in_range(self.player, limit, next_game@, (limit - 1) as nat);
            if castle_free(self.game@, limit as nat) {
                let moves = legal_moves(self.game@);
                let i = choose|i: int| 0 <= i < moves.len() && moves[i] == *chess_move;
                assert(!moves[i].is_castle() && castle_free(next_game@, (limit - 1) as nat));
            }
        }
        value
    }

    /// The move that the engine would play: the first legal move of the
    /// largest value, each move valued by a search of the position it leads
    /// to. There is a move exactly when there is a legal one.
    ///
    /// Without jitter the move is exactly `best_move`. With or without it,
    /// where no castle is legal within the search depth, no legal move is
    /// better by minimax than the one chosen by more than twice the jitter;
    /// and if the engine is to move and can mate at once, the move chosen
    /// mates, provided that the search is two plies deep or more.
    pub fn get_best_move(&self) -> (r: Option<ChessMove>)
        requires
            self.game.valid(),
            self.search_depth >= 1,
            self.game.half_moves + self.search_depth <= u16::MAX,
        ensures
            r.is_none() <==> legal_moves(self.game@).len() == 0,
            r matches Some(m) ==> legal_moves(self.game@).contains(m) && m.valid(),
            !self.jitter ==> r == best_move(self.player, self.search_depth as int, self.game@),
            castle_free(self.game@, self.search_depth as nat) ==> (r matches Some(m)
                ==> forall|j: int|
                0 <= j < legal_moves(self.game@).len() ==> #[trigger] root_minimax(
                    self.player,
                    self.search_depth as int,
                    self.game@,
                    legal_moves(self.game@)[j],
                ) <= root_minimax(self.player, self.search_depth as int, self.game@, m) + 2
                    * self.slack()),
            castle_free(self.game@, self.search_depth as nat) && self.game.turn == self.player
                && self.search_depth >= 2 && (exists|j: int|
                0 <= j < legal_moves(self.game@).len() && mates(
                    self.game@,
                    #[trigger] legal_moves(self.game@)[j],
                )) ==> (r matches Some(m) && mates(self.game@, m)),
    {
        let moves = self.game.get_moves();
        let mut returned_move: Option<ChessMove> = None;
        let mut max_value = i32::MIN;
        let mut i: usize = 0;
        let ghost mut values: Seq<int> = Seq::empty();
        let ghost mut k: int = 0;
        while i < moves.len()
            invariant
                i <= moves.len(),
                self.game.valid(),
                self.search_depth >= 1,
                self.game.half_moves + self.search_depth <= u16::MAX,
                moves@ == legal_moves(self.game@),
                all_valid(moves@),
                returned_move.is_none() <==> i == 0,
                !self.jitter ==> best_from(
                    self.player,
                    self.search_depth as int,
                    self.game@,
                    moves@,
                    i as int,
                    returned_move,
                    max_value as int,
                ) == best_move(self.player, self.search_depth as int, self.game@),
                values.len() == i,
                forall|j: int| 0 <= j < i ==> self.root_fact(moves@[j], #[trigger] values[j]),
                forall|j: int| 0 <= j < i ==> #[trigger] values[j] <= max_value,
                i > 0 ==> 0 <= k < i && returned_move == Some(moves@[k]) && max_value == values[k],
            decreases moves.len() - i,
        {
            let chess_move = moves[i];
            assert(moves@.contains(moves@[i as int]));
            let value = self.root_search(&chess_move);
            proof {
                values = values.push(value as int);
            }
            if value > max_value || returned_move.is_none() {
                max_value = value;
                returned_move = Some(chess_move);
                proof {
                    k = i as int;
                }
            }
            i = i + 1;
        }
        proof {
            let s = self.game@;
            let limit = self.search_depth as int;
            if i > 0 {
                let chosen = moves@[k];
                assert(moves@.contains(chosen));
                assert(self.root_fact(chosen, values[k]));
                if castle_free(s, limit as nat) {
                    assert forall|j: int| 0 <= j < moves@.len() implies #[trigger] root_minimax(
                        self.player,
                        limit,
                        s,
                        moves@[j],
                    ) <= root_minimax(self.player, limit, s, chosen) + 2 * self.slack() by {
                        assert(self.root_fact(moves@[j], values[j]));
                        assert(values[j] <= max_value);
                    }
                    if self.game.turn == self.player && limit >= 2 && (exists|j: int|
                        0 <= j < moves@.len() && mates(s, #[trigger] moves@[j])) {
                        let j = choose|j: int| 0 <= j < moves@.len() && mates(s, #[trigger] moves@[j]);
                        assert(self.root_fact(moves@[j], values[j]));
                        assert(values[j] <= max_value);
                    }
                }
            }
        }
        returned_move
    }
}

} // verus!
