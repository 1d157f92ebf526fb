//! Iterative deepening over a search tree that is kept between searches.

use vstd::prelude::*;
use super::search::{larger, smaller};
use super::tree::{
    answered, before, child_weighed, closing_value, complete, extreme, first_of_value, grown,
    grown_all, has_children, lemma_extreme_is_a_value, lemma_new_children_are_grown,
    lemma_new_children_are_searched, lemma_ordered, lemma_ordered_keeps_grown,
    lemma_ordered_keeps_searched, lemma_ordered_keeps_weighed, lemma_searched_children,
    lemma_sweep_step, lemma_swept_is_reached, lemma_update_keeps_grown, lemma_update_keeps_searched,
    lemma_update_keeps_tidy, lemma_update_keeps_weighed, lemma_weighed_children, new_children,
    node_searched, ordered, place_for, reached, searched, searched_all, sketches, swept, tidy,
    tidy_all, weighed, weighed_all, weighed_children, Node, Sketch,
};
use super::Engine;
use crate::game::chess_move::ChessMove;
use crate::game::movegen::all_valid;
use crate::game::piece::PieceColor;
use crate::game::rules::{apply, legal_moves, GameState};
use crate::game::Game;

verus! {

/// It is `player` who is to move in `s`: the side that takes the largest
/// value.
pub open spec fn to_move(s: GameState, player: PieceColor) -> bool {
    s.turn == player
}

/// The children of a node after a sweep, and the value that the sweep found.
pub struct Swept {
    pub kids: Seq<(ChessMove, Sketch)>,
    pub value: int,
}

/// The tree `node` of the position `s` once it has been searched `depth`
/// plies deep inside the window from `alpha` to `beta`, when evaluations
/// carry no jitter.
///
/// A node that was searched at least as deep before is left as it is; so is
/// every node when no ply is asked for. A node known to be final keeps its
/// value. Any other node is expanded if it was not, each new child with the
/// static evaluation of its position; the children are put in the order of
/// their values, the best for the side to move first, and searched one ply
/// less deep in that order until the running value leaves the window on the
/// far side; the node takes the running value.
pub open spec fn deepen(
    player: PieceColor,
    s: GameState,
    node: Sketch,
    depth: nat,
    alpha: int,
    beta: int,
) -> Sketch
    decreases depth, 1int, 0int,
{
    if node.depth >= depth || depth == 0 {
        node
    } else if node.children matches Some(kids) && kids.len() == 0 {
        Sketch { children: node.children, value: node.value, depth: depth as int }
    } else {
        let kids = match node.children {
            Some(kids) => kids,
            None => weighed_children(player, s, legal_moves(s)),
        };
        if kids.len() == 0 {
            Sketch { children: Some(kids), value: closing_value(player, s), depth: depth as int }
        } else {
            let maximizing = s.turn == player;
            let swept = deepen_all(
                player,
                s,
                ordered(kids, maximizing),
                0,
                if maximizing {
                    i32::MIN as int
                } else {
                    i32::MAX as int
                },
                alpha,
                beta,
                depth,
                maximizing,
            );
            Sketch { children: Some(swept.kids), value: swept.value, depth: depth as int }
        }
    }
}

/// The sweep over the children from place `i` on, when the children before
/// have given the running value `value` and narrowed the window to `alpha`
/// and `beta`.
pub open spec fn deepen_all(
    player: PieceColor,
    s: GameState,
    kids: Seq<(ChessMove, Sketch)>,
    i: int,
    value: int,
    alpha: int,
    beta: int,
    depth: nat,
    maximizing: bool,
) -> Swept
    decreases depth, 0int, kids.len() - i,
{
    if i < 0 || i >= kids.len() || depth == 0 {
        Swept { kids, value }
    } else {
        let child = deepen(player, apply(s, kids[i].0), kids[i].1, (depth - 1) as nat, alpha, beta);
        let searched = kids.update(i, (kids[i].0, child));
        let next = if maximizing {
            larger(value, child.value)
        } else {
            smaller(value, child.value)
        };
        if (maximizing && next > beta) || (!maximizing && next < alpha) {
            Swept { kids: searched, value: next }
        } else {
            deepen_all(
                player,
                s,
                searched,
                i + 1,
                next,
                if maximizing {
                    larger(next, alpha)
                } else {
                    alpha
                },
                if maximizing {
                    beta
                } else {
                    smaller(next, beta)
                },
                depth,
                maximizing,
            )
        }
    }
}

/// The tree after the searches of depth `i`, `i + 1` and so on to `limit`,
/// each with the window wide open. The deepening stops early at a search
/// that finds the best score there is.
pub open spec fn deepen_upto(player: PieceColor, s: GameState, root: Sketch, i: int, limit: int) -> Sketch
    decreases limit - i + 1,
{
    if i < 1 || i > limit {
        root
    } else {
        let next = deepen(player, s, root, i as nat, i32::MIN as int, i32::MAX as int);
        if next.value == i32::MAX {
            next
        } else {
            deepen_upto(player, s, next, i + 1, limit)
        }
    }
}

/// The move of the first child whose value is that of the root.
pub open spec fn chosen(root: Sketch) -> Option<ChessMove> {
    match root.children {
        Some(kids) => first_of_value(kids, root.value, 0),
        None => None,
    }
}

impl Engine {
    /// Whether a child of value `a` is searched before one of value `b`.
    fn goes_before(a: i32, b: i32, descending: bool) -> (r: bool)
        ensures
            r == before(a as int, b as int, descending),
    {
        if descending {
            a > b
        } else {
            a < b
        }
    }

    /// Puts children in the order in which they are searched.
    fn order_children(kids: Vec<(ChessMove, Node)>, descending: bool) -> (r: Vec<(ChessMove, Node)>)
        ensures
            sketches(r@) == ordered(sketches(kids@), descending),
    {
        let ghost all = sketches(kids@);
        let mut kids = kids;
        let mut sorted: Vec<(ChessMove, Node)> = Vec::new();
        assert(all.subrange(all.len() as int, all.len() as int) =~= Seq::empty());
        assert(sketches(sorted@) =~= Seq::empty());
        while kids.len() > 0
            invariant
                kids@.len() <= all.len(),
                sketches(kids@) == all.subrange(0, kids@.len() as int),
                sketches(sorted@) == ordered(
                    all.subrange(kids@.len() as int, all.len() as int),
                    descending,
                ),
            decreases kids.len(),
        {
            let ghost n = kids@.len() as int;
            let ghost tail = all.subrange(n, all.len() as int);
            let ghost longer = all.subrange(n - 1, all.len() as int);
            let ghost before_kids = sketches(kids@);
            let ghost rest = sketches(sorted@);
            match kids.pop() {
                Some(item) => {
                    proof {
                        assert(longer.drop_first() =~= tail);
                        assert(before_kids[n - 1] == all[n - 1]);
                        assert(longer[0] == (item.0, item.1@));
                        assert(sketches(kids@) =~= all.subrange(0, n - 1));
                        lemma_ordered(tail, descending);
                    }
                    let mut j: usize = 0;
                    while j < sorted.len() && Self::goes_before(
                        sorted[j].1.value,
                        item.1.value,
                        descending,
                    )
                        invariant
                            j <= sorted.len(),
                            rest == sketches(sorted@),
                            place_for(rest, item.1.value as int, descending, j as int)
                                == place_for(rest, item.1.value as int, descending, 0),
                        decreases sorted.len() - j,
                    {
                        assert(rest[j as int].1.value == sorted@[j as int].1.value);
                        j = j + 1;
                    }
                    proof {
                        if j < sorted.len() {
                            assert(rest[j as int].1.value == sorted@[j as int].1.value);
                        }
                        assert(place_for(rest, item.1.value as int, descending, 0) == j);
                    }
                    let ghost shown = (item.0, item.1@);
                    sorted.insert(j, item);
                    assert(sketches(sorted@) =~= rest.insert(j as int, shown));
                },
                None => {},
            }
        }
        assert(all.subrange(0, all.len() as int) =~= all);
        sorted
    }

    /// New children for the moves of a position: each is given the evaluation
    /// of the position that its move leads to.
    fn make_children(&self, game: &Game, moves: &Vec<ChessMove>) -> (r: Vec<(ChessMove, Node)>)
        requires
            game.valid(),
            game.half_moves < u16::MAX,
            all_valid(moves@),
        ensures
            new_children(sketches(r@), game@, self.player, moves@, self.slack()),
            !self.jitter ==> sketches(r@) == weighed_children(self.player, game@, moves@),
            tidy_all(sketches(r@)),
    {
        let mut kids: Vec<(ChessMove, Node)> = Vec::new();
        let mut i: usize = 0;
        while i < moves.len()
            invariant
                i <= moves.len(),
                game.valid(),
                game.half_moves < u16::MAX,
                all_valid(moves@),
                sketches(kids@).len() == i,
                forall|j: int|
                    0 <= j < i ==> (#[trigger] sketches(kids@)[j]).0 == moves@[j]
                        && super::tree::is_leaf_of(
                        sketches(kids@)[j].1,
                        apply(game@, moves@[j]),
                        self.player,
                        self.slack(),
                    ),
                !self.jitter ==> sketches(kids@) == weighed_children(
                    self.player,
                    game@,
                    moves@.subrange(0, i as int),
                ),
                tidy_all(sketches(kids@)),
            decreases moves.len() - i,
        {
            let mut next_game = *game;
            next_game.make_move(&moves[i]);
            let found = self.evaluate_state(&next_game);
            let node = Node { children: None, value: found, depth: 0 };
            let ghost shown = sketches(kids@);
            let ghost leaf = node@;
            assert(leaf == (Sketch { children: None, value: found as int, depth: 0 }));
            kids.push((moves[i], node));
            assert(sketches(kids@) =~= shown.push((moves@[i as int], leaf)));
            proof {
                if !self.jitter {
                    assert(shown.push((moves@[i as int], leaf)) =~= weighed_children(
                        self.player,
                        game@,
                        moves@.subrange(0, i + 1),
                    ));
                }
            }
            i = i + 1;
        }
        assert(moves@.subrange(0, i as int) =~= moves@);
        kids
    }

    /// Searches the tree `node` of the position `game` to `depth` plies and
    /// returns the tree with what the search found.
    ///
    /// Without jitter the tree returned is exactly `deepen`. With or without
    /// it:
    /// - a node that was searched at least as deep before is returned as it
    ///   came;
    /// - a node known to be final keeps its value and stays final;
    /// - any other node comes back expanded and searched to `depth`; without
    ///   children it has the closing value of the position, with children
    ///   its value is the largest or the smallest of the values of the
    ///   children that the sweep reached, as `swept` says;
    /// - a tree that has grown from the position is returned grown, a tree
    ///   that is weighed is returned weighed, a tree that is searched is
    ///   returned searched, and with the window wide open a tree that is
    ///   answered is returned answered and a tree that is complete at its
    ///   root is returned so.
    #[verifier::rlimit(60)]
    pub fn deepen(&self, game: &Game, node: Node, depth: u16, alpha: i32, beta: i32) -> (r: Node)
        requires
            game.valid(),
            game.half_moves + depth <= u16::MAX,
            tidy(node@),
        ensures
            tidy(r@),
            node@.depth >= depth ==> r@ == node@,
            node@.depth < depth ==> r@.depth == depth && r@.children is Some,
            node@.depth < depth && node@.children == Some(Seq::<(ChessMove, Sketch)>::empty())
                ==> r@.value == node@.value && r@.children == node@.children,
            node@.depth < depth && r@.children == Some(Seq::<(ChessMove, Sketch)>::empty())
                && node@.children != r@.children ==> r@.value == closing_value(
                self.player,
                game@,
            ),
            node@.depth < depth && has_children(r@) ==> exists|n: int|
                #[trigger] swept(
                    r@.children->0,
                    r@.value,
                    n,
                    depth as int,
                    alpha as int,
                    beta as int,
                    to_move(game@, self.player),
                ),
            grown(node@, game@) ==> grown(r@, game@),
            weighed(node@, game@, self.player) ==> weighed(r@, game@, self.player),
            searched(node@, game@, self.player) ==> searched(r@, game@, self.player),
            answered(node@) && alpha == i32::MIN && beta == i32::MAX ==> answered(r@),
            complete(node@, to_move(game@, self.player)) && alpha == i32::MIN && beta == i32::MAX
                ==> complete(r@, to_move(game@, self.player)),
            !self.jitter ==> r@ == deepen(
                self.player,
                game@,
                node@,
                depth as nat,
                alpha as int,
                beta as int,
            ),
        decreases depth,
    {
        let ghost before_node = node@;
        let ghost went = grown(node@, game@);
        let ghost even = weighed(node@, game@, self.player);
        let ghost deep = searched(node@, game@, self.player);
        let ghost open = answered(node@) && alpha == i32::MIN && beta == i32::MAX;
        let ghost answer = deepen(
            self.player,
            game@,
            before_node,
            depth as nat,
            alpha as int,
            beta as int,
        );
        proof {
            lemma_weighed_children(node@, game@, self.player);
            lemma_searched_children(node@, game@, self.player);
        }
        let Node { children, value, depth: done } = node;
        if done >= depth {
            return Node { children, value, depth: done };
        }
        let ghost expanded = children is None;
        let kids = match children {
            Some(kids) => {
                if kids.len() == 0 {
                    assert(sketches(kids@) =~= Seq::empty());
                    let r = Node { children: Some(kids), value, depth };
                    proof {
                        lemma_weighed_children(r@, game@, self.player);
                        lemma_searched_children(r@, game@, self.player);
                    }
                    return r;
                }
                kids
            },
            None => {
                let moves = game.get_moves();
                let kids = self.make_children(game, &moves);
                proof {
                    lemma_new_children_are_grown(
                        sketches(kids@),
                        game@,
                        self.player,
                        self.slack(),
                    );
                    lemma_new_children_are_searched(
                        sketches(kids@),
                        game@,
                        self.player,
                        self.slack(),
                    );
                }
                kids
            },
        };
        assert(sketches(kids@).len() == kids@.len());
        assert(went ==> grown_all(sketches(kids@), game@));
        assert(even ==> weighed_all(sketches(kids@), game@, self.player));
        assert(deep ==> searched_all(sketches(kids@), game@, self.player));
        assert(expanded ==> grown_all(sketches(kids@), game@));
        if kids.len() == 0 {
            let closing = if !Self::king_attacked(game) {
                0
            } else if game.turn == self.player {
                i32::MIN
            } else {
                i32::MAX
            };
            let r = Node { children: Some(kids), value: closing, depth };
            proof {
                lemma_weighed_children(r@, game@, self.player);
                lemma_searched_children(r@, game@, self.player);
                assert(r@.children == Some(sketches(kids@)));
                assert(sketches(kids@) =~= Seq::<(ChessMove, Sketch)>::empty());
            }
            return r;
        }
        let maximizing = game.turn == self.player;
        proof {
            lemma_ordered(sketches(kids@), maximizing);
            if went || expanded {
                lemma_ordered_keeps_grown(sketches(kids@), game@, maximizing);
            }
            if even {
                lemma_ordered_keeps_weighed(sketches(kids@), game@, self.player, maximizing);
            }
            if deep {
                lemma_ordered_keeps_searched(sketches(kids@), game@, self.player, maximizing);
            }
        }
        let mut sorted = Self::order_children(kids, maximizing);
        let mut running: i32 = if maximizing {
            i32::MIN
        } else {
            i32::MAX
        };
        let mut low = alpha;
        let mut high = beta;
        let mut i: usize = 0;
        let ghost whole = deepen_all(
            self.player,
            game@,
            sketches(sorted@),
            0,
            running as int,
            alpha as int,
            beta as int,
            depth as nat,
            maximizing,
        );
        assert(!self.jitter ==> answer == (Sketch {
            children: Some(whole.kids),
            value: whole.value,
            depth: depth as int,
        }));
        assert(sketches(sorted@).len() == sorted@.len());
        while i < sorted.len()
            invariant_except_break
                i == sorted.len() ==> swept(
                    sketches(sorted@),
                    running as int,
                    i as int,
                    depth as int,
                    alpha as int,
                    beta as int,
                    maximizing,
                ),
                running == extreme(sketches(sorted@), i as int, maximizing),
                forall|j: int|
                    0 <= j < i ==> (#[trigger] sketches(sorted@)[j]).1.depth >= depth - 1,
                !self.jitter ==> deepen_all(
                    self.player,
                    game@,
                    sketches(sorted@),
                    i as int,
                    running as int,
                    low as int,
                    high as int,
                    depth as nat,
                    maximizing,
                ) == whole,
            invariant
                i <= sorted.len(),
                game.valid(),
                depth > 0,
                game.half_moves + depth <= u16::MAX,
                tidy_all(sketches(sorted@)),
                went ==> grown_all(sketches(sorted@), game@),
                even ==> weighed_all(sketches(sorted@), game@, self.player),
                deep ==> searched_all(sketches(sorted@), game@, self.player),
                maximizing == (game.turn == self.player),
                maximizing ==> high == beta,
                !maximizing ==> low == alpha,
                sorted@.len() > 0,
                sketches(sorted@).len() == sorted@.len(),
            ensures
                !self.jitter ==> (Swept { kids: sketches(sorted@), value: running as int }) == whole,
                exists|n: int|
                    #[trigger] swept(
                        sketches(sorted@),
                        running as int,
                        n,
                        depth as int,
                        alpha as int,
                        beta as int,
                        maximizing,
                    ),
            decreases sorted.len() - i,
        {
            let ghost shown = sketches(sorted@);
            let (chess_move, child) = sorted.remove(i);
            assert(shown[i as int] == (chess_move, child@));
            let ghost was = child@;
            let mut next_game = *game;
            next_game.make_move(&chess_move);
            let child = self.deepen(&next_game, child, depth - 1, low, high);
            let found = child.value;
            let ghost seen = child@;
            sorted.insert(i, (chess_move, child));
            proof {
                let now = shown.update(i as int, (chess_move, seen));
                assert(sketches(sorted@) =~= now);
                lemma_update_keeps_tidy(shown, i as int, seen);
                if went {
                    lemma_update_keeps_grown(shown, i as int, seen, game@);
                }
                if even {
                    assert(child_weighed(shown[i as int], game@, self.player));
                    lemma_update_keeps_weighed(shown, i as int, seen, game@, self.player);
                }
                if deep {
                    assert(searched(shown[i as int].1, apply(game@, shown[i as int].0), self.player));
                    lemma_update_keeps_searched(shown, i as int, seen, game@, self.player);
                }
                lemma_sweep_step(shown, i as int, seen, depth as int, maximizing);
            }
            if maximizing {
                if found > running {
                    running = found;
                }
                if running > high {
                    assert(swept(
                        sketches(sorted@),
                        running as int,
                        i + 1,
                        depth as int,
                        alpha as int,
                        beta as int,
                        maximizing,
                    ));
                    break ;
                }
                if running > low {
                    low = running;
                }
            } else {
                if found < running {
                    running = found;
                }
                if running < low {
                    assert(swept(
                        sketches(sorted@),
                        running as int,
                        i + 1,
                        depth as int,
                        alpha as int,
                        beta as int,
                        maximizing,
                    ));
                    break ;
                }
                if running < high {
                    high = running;
                }
            }
            i = i + 1;
            proof {
                if i == sorted.len() {
                    assert(swept(
                        sketches(sorted@),
                        running as int,
                        i as int,
                        depth as int,
                        alpha as int,
                        beta as int,
                        maximizing,
                    ));
                }
            }
        }
        let r = Node { children: Some(sorted), value: running, depth };
        proof {
            let kids = sketches(sorted@);
            assert(r@.children == Some(kids));
            assert(to_move(game@, self.player) == maximizing);
            assert(has_children(r@));
            lemma_weighed_children(r@, game@, self.player);
            let n = choose|n: int|
                #[trigger] swept(
                    kids,
                    running as int,
                    n,
                    depth as int,
                    alpha as int,
                    beta as int,
                    maximizing,
                );
            assert(r@.children->0 == kids);
            assert(r@.value == running);
            assert(swept(
                r@.children->0,
                r@.value,
                n,
                depth as int,
                alpha as int,
                beta as int,
                to_move(game@, self.player),
            ));
            if open {
                assert(n == kids.len());
                lemma_extreme_is_a_value(kids, n, maximizing);
            }
            if alpha == i32::MIN && beta == i32::MAX {
                assert(n == kids.len());
                lemma_swept_is_reached(
                    kids,
                    running as int,
                    n,
                    depth as int,
                    alpha as int,
                    beta as int,
                    maximizing,
                );
                assert(reached(
                    r@.children->0,
                    r@.value,
                    r@.children->0.len() as int,
                    r@.depth,
                    maximizing,
                ));
            }
            if deep {
                lemma_swept_is_reached(
                    kids,
                    running as int,
                    n,
                    depth as int,
                    alpha as int,
                    beta as int,
                    maximizing,
                );
                assert(reached(r@.children->0, r@.value, n, r@.depth, maximizing));
                assert(node_searched(r@, game@.turn == self.player));
                lemma_searched_children(r@, game@, self.player);
            }
        }
        r
    }

    /// Searches `root`, the tree of `game`, to `depth` plies in place. What
    /// holds of the tree that `deepen` returns holds of the tree that is left
    /// in `root`: a node that was searched at least as deep before is left as
    /// it was, and a node known to be final keeps its value and stays final.
    pub fn iterative_search(&self, game: &Game, root: &mut Node, depth: u16, alpha: i32, beta: i32)
        requires
            game.valid(),
            game.half_moves + depth <= u16::MAX,
            tidy(old(root)@),
        ensures
            tidy(final(root)@),
            old(root)@.depth >= depth ==> final(root)@ == old(root)@,
            old(root)@.depth < depth ==> final(root)@.depth == depth && final(root)@.children
                is Some,
            old(root)@.depth < depth && old(root)@.children == Some(
                Seq::<(ChessMove, Sketch)>::empty(),
            ) ==> final(root)@.value == old(root)@.value && final(root)@.children
                == old(root)@.children,
            old(root)@.depth < depth && final(root)@.children == Some(
                Seq::<(ChessMove, Sketch)>::empty(),
            ) && old(root)@.children != final(root)@.children ==> final(root)@.value
                == closing_value(self.player, game@),
            old(root)@.depth < depth && has_children(final(root)@) ==> exists|n: int|
                #[trigger] swept(
                    final(root)@.children->0,
                    final(root)@.value,
                    n,
                    depth as int,
                    alpha as int,
                    beta as int,
                    to_move(game@, self.player),
                ),
            grown(old(root)@, game@) ==> grown(final(root)@, game@),
            weighed(old(root)@, game@, self.player) ==> weighed(final(root)@, game@, self.player),
            searched(old(root)@, game@, self.player) ==> searched(final(root)@, game@, self.player),
            answered(old(root)@) && alpha == i32::MIN && beta == i32::MAX ==> answered(
                final(root)@,
            ),
            complete(old(root)@, to_move(game@, self.player)) && alpha == i32::MIN && beta
                == i32::MAX ==> complete(final(root)@, to_move(game@, self.player)),
            !self.jitter ==> final(root)@ == deepen(
                self.player,
                game@,
                old(root)@,
                depth as nat,
                alpha as int,
                beta as int,
            ),
    {
        let node = Node { children: root.children.take(), value: root.value, depth: root.depth };
        *root = self.deepen(game, node, depth, alpha, beta);
    }
}

} // verus!
