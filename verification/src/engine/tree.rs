//! The search tree that an engine keeps between searches of one position.

use vstd::prelude::*;
use super::evaluation::{static_eval, JITTER};
use crate::game::chess_move::ChessMove;
use crate::game::piece::PieceColor;
use crate::game::rules::{apply, in_check, legal_moves, GameState};

verus! {

/// A node of the search tree.
pub struct Node {
    /// The moves of the position with the positions they lead to, once the
    /// node has been expanded. An expanded node without children is final.
    pub children: Option<Vec<(ChessMove, Node)>>,
    /// The value found by the deepest search of the node.
    pub value: i32,
    /// The depth of that search.
    pub depth: u16,
}

/// A search tree as a mathematical value.
pub struct Sketch {
    pub children: Option<Seq<(ChessMove, Sketch)>>,
    pub value: int,
    pub depth: int,
}

/// A node of which nothing is known yet.
pub open spec fn fresh() -> Sketch {
    Sketch { children: None, value: 0, depth: 0 }
}

/// The sketches of the children in `kids`.
pub open spec fn sketches(kids: Seq<(ChessMove, Node)>) -> Seq<(ChessMove, Sketch)>
    decreases kids,
{
    Seq::new(
        kids.len(),
        |i: int|
            if 0 <= i < kids.len() {
                (kids[i].0, kids[i].1.view())
            } else {
                (ChessMove::CastleKingside, fresh())
            },
    )
}

impl View for Node {
    type V = Sketch;

    open spec fn view(&self) -> Sketch
        decreases self,
    {
        Sketch {
            children: match self.children {
                Some(kids) => Some(sketches(kids@)),
                None => None,
            },
            value: self.value as int,
            depth: self.depth as int,
        }
    }
}


/// The tree that a search starts from: the one kept, or a fresh node.
pub open spec fn root_sketch(tree: &Option<Node>) -> Sketch {
    match tree {
        Some(root) => root@,
        None => fresh(),
    }
}

/// Every move in the tree has its squares on the board.
pub open spec fn tidy(node: Sketch) -> bool
    decreases node,
{
    match node.children {
        None => true,
        Some(kids) => forall|i: int|
            0 <= i < kids.len() ==> (#[trigger] kids[i]).0.valid() && tidy(kids[i].1),
    }
}

/// Every child of the sequence has a valid move and a tidy tree.
pub open spec fn tidy_all(kids: Seq<(ChessMove, Sketch)>) -> bool {
    forall|i: int| 0 <= i < kids.len() ==> (#[trigger] kids[i]).0.valid() && tidy(kids[i].1)
}

/// A node that has been evaluated and not searched: it has no children, its
/// depth is 0, and its value is the static evaluation of the position `s` for
/// `player`, give or take `slack`.
pub open spec fn is_leaf_of(node: Sketch, s: GameState, player: PieceColor, slack: int) -> bool {
    &&& node.children is None
    &&& node.depth == 0
    &&& -slack <= node.value - static_eval(s, player) <= slack
}

/// The children are those of a node that has just been expanded: one for
/// each of `moves`, in their order, each evaluated and not searched.
pub open spec fn new_children(
    kids: Seq<(ChessMove, Sketch)>,
    s: GameState,
    player: PieceColor,
    moves: Seq<ChessMove>,
    slack: int,
) -> bool {
    &&& kids.len() == moves.len()
    &&& forall|i: int|
        0 <= i < kids.len() ==> (#[trigger] kids[i]).0 == moves[i] && is_leaf_of(
            kids[i].1,
            apply(s, moves[i]),
            player,
            slack,
        )
}

/// The children of a node that has just been expanded, when evaluations
/// carry no jitter: one for each move, in the order of the moves, with the
/// static evaluation of the position that the move leads to.
pub open spec fn weighed_children(player: PieceColor, s: GameState, moves: Seq<ChessMove>) -> Seq<
    (ChessMove, Sketch),
> {
    Seq::new(
        moves.len(),
        |i: int|
            (
                moves[i],
                Sketch { children: None, value: static_eval(apply(s, moves[i]), player), depth: 0 },
            ),
    )
}

/// Every child that has not been searched beyond its evaluation carries the
/// static evaluation of its position for `player`, give or take the jitter,
/// and so on down the tree.
pub open spec fn weighed(node: Sketch, s: GameState, player: PieceColor) -> bool
    decreases node,
{
    match node.children {
        None => true,
        Some(kids) => forall|i: int|
            0 <= i < kids.len() ==> child_weighed(#[trigger] kids[i], s, player) && weighed(
                kids[i].1,
                apply(s, kids[i].0),
                player,
            ),
    }
}

/// A child of depth 0 carries the static evaluation of its position, give or
/// take the jitter.
pub open spec fn child_weighed(kid: (ChessMove, Sketch), s: GameState, player: PieceColor) -> bool {
    kid.1.depth == 0 ==> -JITTER <= kid.1.value - static_eval(apply(s, kid.0), player) <= JITTER
}

/// Every child is weighed, and so is its tree.
pub open spec fn weighed_all(kids: Seq<(ChessMove, Sketch)>, s: GameState, player: PieceColor) -> bool {
    forall|i: int|
        0 <= i < kids.len() ==> child_weighed(#[trigger] kids[i], s, player) && weighed(
            kids[i].1,
            apply(s, kids[i].0),
            player,
        )
}

/// A node with children is weighed exactly when its children are.
pub proof fn lemma_weighed_children(node: Sketch, s: GameState, player: PieceColor)
    ensures
        node.children matches Some(kids) ==> (weighed(node, s, player) <==> weighed_all(
            kids,
            s,
            player,
        )),
        node.children is None ==> weighed(node, s, player),
{
}

/// The node is expanded and has a child.
pub open spec fn has_children(node: Sketch) -> bool {
    node.children matches Some(kids) && kids.len() > 0
}

/// The largest of the values of the first `n` children, or the smallest:
/// what a sweep over those children finds.
pub open spec fn extreme(kids: Seq<(ChessMove, Sketch)>, n: int, maximizing: bool) -> int
    decreases n,
{
    if n <= 0 {
        if maximizing {
            i32::MIN as int
        } else {
            i32::MAX as int
        }
    } else if n == 1 {
        kids[0].1.value
    } else {
        let rest = extreme(kids, n - 1, maximizing);
        let value = kids[n - 1].1.value;
        if maximizing {
            if rest >= value {
                rest
            } else {
                value
            }
        } else {
            if rest <= value {
                rest
            } else {
                value
            }
        }
    }
}

/// What a sweep of depth `depth` over the first `n` children leaves: the
/// value is the largest or the smallest of their values, each of them has
/// been searched one ply less deep at least, and the sweep has stopped
/// before the last child only because the value left the window from
/// `alpha` to `beta` on the far side.
pub open spec fn swept(
    kids: Seq<(ChessMove, Sketch)>,
    value: int,
    n: int,
    depth: int,
    alpha: int,
    beta: int,
    maximizing: bool,
) -> bool {
    &&& 1 <= n <= kids.len()
    &&& value == extreme(kids, n, maximizing)
    &&& forall|j: int| 0 <= j < n ==> (#[trigger] kids[j]).1.depth >= depth - 1
    &&& n < kids.len() ==> (if maximizing {
        value > beta
    } else {
        value < alpha
    })
}

/// The extreme of the first `n` children depends on the values of those
/// children only.
pub proof fn lemma_extreme_of_prefix(
    a: Seq<(ChessMove, Sketch)>,
    b: Seq<(ChessMove, Sketch)>,
    n: int,
    maximizing: bool,
)
    requires
        0 <= n <= a.len(),
        n <= b.len(),
        forall|j: int| 0 <= j < n ==> (#[trigger] a[j]).1.value == b[j].1.value,
    ensures
        extreme(a, n, maximizing) == extreme(b, n, maximizing),
    decreases n,
{
    if n > 0 {
        lemma_extreme_of_prefix(a, b, n - 1, maximizing);
        assert(a[n - 1].1.value == b[n - 1].1.value);
    }
}

/// The extreme of all children is the value of one of them.
pub proof fn lemma_extreme_is_a_value(kids: Seq<(ChessMove, Sketch)>, n: int, maximizing: bool)
    requires
        1 <= n <= kids.len(),
    ensures
        found_before(kids, n, extreme(kids, n, maximizing)),
    decreases n,
{
    if n > 1 {
        lemma_extreme_is_a_value(kids, n - 1, maximizing);
        let rest = extreme(kids, n - 1, maximizing);
        if extreme(kids, n, maximizing) == rest {
            let i = choose|i: int|
                0 <= i < n - 1 && i < kids.len() && (#[trigger] kids[i]).1.value == rest;
            assert(kids[i].1.value == extreme(kids, n, maximizing));
        } else {
            assert(kids[n - 1].1.value == extreme(kids, n, maximizing));
        }
    } else {
        assert(kids[0].1.value == extreme(kids, n, maximizing));
    }
}

/// Whether a child of value `a` is to be searched before one of value `b`:
/// the larger first where the larger is wanted, else the smaller first.
pub open spec fn before(a: int, b: int, descending: bool) -> bool {
    if descending {
        a > b
    } else {
        a < b
    }
}

/// The first place from `j` on whose child is not to be searched before a
/// child of value `value`.
pub open spec fn place_for(
    kids: Seq<(ChessMove, Sketch)>,
    value: int,
    descending: bool,
    j: int,
) -> int
    decreases kids.len() - j,
{
    if j < 0 || j >= kids.len() || !before(kids[j].1.value, value, descending) {
        j
    } else {
        place_for(kids, value, descending, j + 1)
    }
}

/// The children in the order in which they are searched: by value, and
/// among equal values in the order they had.
pub open spec fn ordered(kids: Seq<(ChessMove, Sketch)>, descending: bool) -> Seq<
    (ChessMove, Sketch),
>
    decreases kids.len(),
{
    if kids.len() == 0 {
        kids
    } else {
        let rest = ordered(kids.drop_first(), descending);
        rest.insert(place_for(rest, kids[0].1.value, descending, 0), kids[0])
    }
}

/// The first move from place `j` on whose child has the value `value`.
pub open spec fn first_of_value(kids: Seq<(ChessMove, Sketch)>, value: int, j: int) -> Option<
    ChessMove,
>
    decreases kids.len() - j,
{
    if j < 0 || j >= kids.len() {
        None
    } else if kids[j].1.value == value {
        Some(kids[j].0)
    } else {
        first_of_value(kids, value, j + 1)
    }
}

/// A place at or after `j` lies within the sequence or at its end.
pub proof fn lemma_place_for_bounds(
    kids: Seq<(ChessMove, Sketch)>,
    value: int,
    descending: bool,
    j: int,
)
    requires
        0 <= j <= kids.len(),
    ensures
        j <= place_for(kids, value, descending, j) <= kids.len(),
    decreases kids.len() - j,
{
    if j < kids.len() && before(kids[j].1.value, value, descending) {
        lemma_place_for_bounds(kids, value, descending, j + 1);
    }
}

/// Ordering keeps the number of children, and keeps them tidy.
pub proof fn lemma_ordered(kids: Seq<(ChessMove, Sketch)>, descending: bool)
    ensures
        ordered(kids, descending).len() == kids.len(),
        tidy_all(kids) ==> tidy_all(ordered(kids, descending)),
    decreases kids.len(),
{
    if kids.len() > 0 {
        let rest = ordered(kids.drop_first(), descending);
        lemma_ordered(kids.drop_first(), descending);
        lemma_place_for_bounds(rest, kids[0].1.value, descending, 0);
        if tidy_all(kids) {
            assert(tidy_all(kids.drop_first())) by {
                assert forall|i: int| 0 <= i < kids.drop_first().len() implies (
                #[trigger] kids.drop_first()[i]).0.valid() && tidy(kids.drop_first()[i].1) by {
                    assert(kids.drop_first()[i] == kids[i + 1]);
                }
            }
            let place = place_for(rest, kids[0].1.value, descending, 0);
            let out = rest.insert(place, kids[0]);
            assert forall|i: int| 0 <= i < out.len() implies (#[trigger] out[i]).0.valid() && tidy(
                out[i].1,
            ) by {
                if i < place {
                    assert(out[i] == rest[i]);
                } else if i == place {
                    assert(out[i] == kids[0]);
                } else {
                    assert(out[i] == rest[i - 1]);
                }
            }
        }
    }
}

/// One of the children goes with the move `m`.
pub open spec fn has_move(kids: Seq<(ChessMove, Sketch)>, m: ChessMove) -> bool {
    exists|i: int| 0 <= i < kids.len() && (#[trigger] kids[i]).0 == m
}

/// The children go with the legal moves of the position `s`, whatever their
/// order, and each has grown from the position that its move leads to.
pub open spec fn grown_all(kids: Seq<(ChessMove, Sketch)>, s: GameState) -> bool {
    &&& forall|m: ChessMove| #[trigger] legal_moves(s).contains(m) <==> has_move(kids, m)
    &&& forall|i: int|
        0 <= i < kids.len() ==> grown((#[trigger] kids[i]).1, apply(s, kids[i].0))
}

/// The tree has grown from the position `s`: wherever a node is expanded,
/// its children go with the legal moves of the node's position.
pub open spec fn grown(node: Sketch, s: GameState) -> bool
    decreases node,
{
    match node.children {
        None => true,
        Some(kids) => {
            &&& forall|m: ChessMove| #[trigger] legal_moves(s).contains(m) <==> has_move(kids, m)
            &&& forall|i: int|
                0 <= i < kids.len() ==> grown((#[trigger] kids[i]).1, apply(s, kids[i].0))
        },
    }
}

/// Ordering the children changes nothing but their order: each child of the
/// ordered sequence is one of the sequence, and the other way round.
pub proof fn lemma_ordered_keeps_children(kids: Seq<(ChessMove, Sketch)>, descending: bool)
    ensures
        forall|i: int|
            0 <= i < ordered(kids, descending).len() ==> kids.contains(
                #[trigger] ordered(kids, descending)[i],
            ),
        forall|i: int| 0 <= i < kids.len() ==> ordered(kids, descending).contains(#[trigger] kids[i]),
    decreases kids.len(),
{
    if kids.len() > 0 {
        let tail = kids.drop_first();
        let rest = ordered(tail, descending);
        lemma_ordered_keeps_children(tail, descending);
        lemma_ordered(tail, descending);
        lemma_place_for_bounds(rest, kids[0].1.value, descending, 0);
        let place = place_for(rest, kids[0].1.value, descending, 0);
        let out = rest.insert(place, kids[0]);
        assert forall|i: int| 0 <= i < out.len() implies kids.contains(#[trigger] out[i]) by {
            if i == place {
                assert(out[i] == kids[0]);
            } else {
                let j = if i < place {
                    i
                } else {
                    i - 1
                };
                assert(out[i] == rest[j]);
                assert(tail.contains(rest[j]));
                let k = choose|k: int| 0 <= k < tail.len() && tail[k] == rest[j];
                assert(kids[k + 1] == rest[j]);
            }
        }
        assert forall|i: int| 0 <= i < kids.len() implies out.contains(#[trigger] kids[i]) by {
            if i == 0 {
                assert(out[place] == kids[0]);
            } else {
                assert(tail[i - 1] == kids[i]);
                assert(rest.contains(tail[i - 1]));
                let k = choose|k: int| 0 <= k < rest.len() && rest[k] == tail[i - 1];
                if k < place {
                    assert(out[k] == rest[k]);
                } else {
                    assert(out[k + 1] == rest[k]);
                }
            }
        }
    }
}

/// Ordering keeps children grown.
pub proof fn lemma_ordered_keeps_grown(
    kids: Seq<(ChessMove, Sketch)>,
    s: GameState,
    descending: bool,
)
    requires
        grown_all(kids, s),
    ensures
        grown_all(ordered(kids, descending), s),
{
    let out = ordered(kids, descending);
    lemma_ordered_keeps_children(kids, descending);
    assert forall|m: ChessMove| #[trigger] legal_moves(s).contains(m) <==> has_move(out, m) by {
        if has_move(kids, m) {
            let i = choose|i: int| 0 <= i < kids.len() && (#[trigger] kids[i]).0 == m;
            assert(out.contains(kids[i]));
            let k = choose|k: int| 0 <= k < out.len() && out[k] == kids[i];
            assert(out[k].0 == m);
        }
        if has_move(out, m) {
            let i = choose|i: int| 0 <= i < out.len() && (#[trigger] out[i]).0 == m;
            assert(kids.contains(out[i]));
            let k = choose|k: int| 0 <= k < kids.len() && kids[k] == out[i];
            assert(kids[k].0 == m);
        }
    }
    assert forall|i: int| 0 <= i < out.len() implies grown(
        (#[trigger] out[i]).1,
        apply(s, out[i].0),
    ) by {
        assert(kids.contains(out[i]));
        let k = choose|k: int| 0 <= k < kids.len() && kids[k] == out[i];
        assert(grown(kids[k].1, apply(s, kids[k].0)));
    }
}

/// New children for the legal moves of a position have grown from it and
/// are weighed.
pub proof fn lemma_new_children_are_grown(
    kids: Seq<(ChessMove, Sketch)>,
    s: GameState,
    player: PieceColor,
    slack: int,
)
    requires
        new_children(kids, s, player, legal_moves(s), slack),
        0 <= slack <= JITTER,
    ensures
        grown_all(kids, s),
        weighed_all(kids, s, player),
{
    assert forall|m: ChessMove| #[trigger] legal_moves(s).contains(m) <==> has_move(kids, m) by {
        if legal_moves(s).contains(m) {
            let i = choose|i: int| 0 <= i < legal_moves(s).len() && legal_moves(s)[i] == m;
            assert(kids[i].0 == m);
        }
        if has_move(kids, m) {
            let i = choose|i: int| 0 <= i < kids.len() && (#[trigger] kids[i]).0 == m;
            assert(legal_moves(s)[i] == m);
        }
    }
    assert forall|i: int| 0 <= i < kids.len() implies grown(
        (#[trigger] kids[i]).1,
        apply(s, kids[i].0),
    ) && child_weighed(kids[i], s, player) && weighed(kids[i].1, apply(s, kids[i].0), player) by {
        assert(is_leaf_of(kids[i].1, apply(s, legal_moves(s)[i]), player, slack));
    }
}

/// Ordering keeps children weighed.
pub proof fn lemma_ordered_keeps_weighed(
    kids: Seq<(ChessMove, Sketch)>,
    s: GameState,
    player: PieceColor,
    descending: bool,
)
    requires
        weighed_all(kids, s, player),
    ensures
        weighed_all(ordered(kids, descending), s, player),
{
    let out = ordered(kids, descending);
    lemma_ordered_keeps_children(kids, descending);
    assert forall|i: int| 0 <= i < out.len() implies child_weighed(#[trigger] out[i], s, player)
        && weighed(out[i].1, apply(s, out[i].0), player) by {
        assert(kids.contains(out[i]));
        let k = choose|k: int| 0 <= k < kids.len() && kids[k] == out[i];
        assert(child_weighed(kids[k], s, player));
    }
}

/// The move of the first child of some value is the move of a child.
pub proof fn lemma_first_of_value_is_a_child(kids: Seq<(ChessMove, Sketch)>, value: int, j: int)
    requires
        0 <= j,
    ensures
        first_of_value(kids, value, j) matches Some(m) ==> has_move(kids, m),
    decreases kids.len() - j,
{
    if j < kids.len() {
        if kids[j].1.value == value {
            assert(kids[j].0 == first_of_value(kids, value, j)->0);
        } else {
            lemma_first_of_value_is_a_child(kids, value, j + 1);
        }
    }
}

/// One of the first `n` children has the value `value`.
pub open spec fn found_before(kids: Seq<(ChessMove, Sketch)>, n: int, value: int) -> bool {
    exists|i: int| 0 <= i < n && i < kids.len() && (#[trigger] kids[i]).1.value == value
}

/// One of the children has the value `value`.
pub open spec fn has_value(kids: Seq<(ChessMove, Sketch)>, value: int) -> bool {
    found_before(kids, kids.len() as int, value)
}

/// The node is as a search with the window wide open leaves it: it is
/// expanded exactly if it was searched a ply deep or more, and if it has
/// children its value is that of one of them.
pub open spec fn answered(node: Sketch) -> bool {
    &&& node.children is Some <==> node.depth >= 1
    &&& node.children matches Some(kids) ==> kids.len() > 0 ==> has_value(kids, node.value)
}

/// Where a child has the value, the first child of that value is found.
pub proof fn lemma_value_is_found(kids: Seq<(ChessMove, Sketch)>, value: int, j: int, i: int)
    requires
        0 <= j <= i < kids.len(),
        kids[i].1.value == value,
    ensures
        first_of_value(kids, value, j) is Some,
    decreases kids.len() - j,
{
    if kids[j].1.value != value {
        lemma_value_is_found(kids, value, j + 1, i);
    }
}

/// A child that has grown from its position takes its place among grown
/// children.
pub proof fn lemma_update_keeps_grown(
    kids: Seq<(ChessMove, Sketch)>,
    i: int,
    child: Sketch,
    s: GameState,
)
    requires
        grown_all(kids, s),
        0 <= i < kids.len(),
        grown(child, apply(s, kids[i].0)),
    ensures
        grown_all(kids.update(i, (kids[i].0, child)), s),
{
    let now = kids.update(i, (kids[i].0, child));
    assert forall|m: ChessMove| #[trigger] legal_moves(s).contains(m) <==> has_move(now, m) by {
        if has_move(kids, m) {
            let k = choose|k: int| 0 <= k < kids.len() && (#[trigger] kids[k]).0 == m;
            assert(now[k].0 == m);
        }
        if has_move(now, m) {
            let k = choose|k: int| 0 <= k < now.len() && (#[trigger] now[k]).0 == m;
            assert(kids[k].0 == m);
        }
    }
    assert forall|k: int| 0 <= k < now.len() implies grown(
        (#[trigger] now[k]).1,
        apply(s, now[k].0),
    ) by {
        if k != i {
            assert(now[k] == kids[k]);
        }
    }
}

/// A child that is weighed takes its place among weighed children.
pub proof fn lemma_update_keeps_weighed(
    kids: Seq<(ChessMove, Sketch)>,
    i: int,
    child: Sketch,
    s: GameState,
    player: PieceColor,
)
    requires
        weighed_all(kids, s, player),
        0 <= i < kids.len(),
        child_weighed((kids[i].0, child), s, player),
        weighed(child, apply(s, kids[i].0), player),
    ensures
        weighed_all(kids.update(i, (kids[i].0, child)), s, player),
{
    let now = kids.update(i, (kids[i].0, child));
    assert forall|k: int| 0 <= k < now.len() implies child_weighed(#[trigger] now[k], s, player)
        && weighed(now[k].1, apply(s, now[k].0), player) by {
        if k != i {
            assert(now[k] == kids[k]);
        }
    }
}

/// A child that is tidy takes its place among tidy children.
pub proof fn lemma_update_keeps_tidy(kids: Seq<(ChessMove, Sketch)>, i: int, child: Sketch)
    requires
        tidy_all(kids),
        0 <= i < kids.len(),
        tidy(child),
    ensures
        tidy_all(kids.update(i, (kids[i].0, child))),
{
    let now = kids.update(i, (kids[i].0, child));
    assert forall|k: int| 0 <= k < now.len() implies (#[trigger] now[k]).0.valid() && tidy(
        now[k].1,
    ) by {
        if k != i {
            assert(now[k] == kids[k]);
        } else {
            assert(kids[i].0.valid());
        }
    }
}

/// One more child in a sweep: the extreme of the children up to and with the
/// child at `i`, once that child has been searched, is the extreme before
/// or the value of the child; and the children before it are as they were.
pub proof fn lemma_sweep_step(
    kids: Seq<(ChessMove, Sketch)>,
    i: int,
    child: Sketch,
    depth: int,
    maximizing: bool,
)
    requires
        0 <= i < kids.len(),
        forall|j: int| 0 <= j < i ==> (#[trigger] kids[j]).1.depth >= depth - 1,
        child.depth >= depth - 1,
        i32::MIN <= child.value <= i32::MAX,
    ensures
        extreme(kids.update(i, (kids[i].0, child)), i, maximizing) == extreme(kids, i, maximizing),
        extreme(kids.update(i, (kids[i].0, child)), i + 1, maximizing) == (if maximizing {
            if extreme(kids, i, maximizing) >= child.value {
                extreme(kids, i, maximizing)
            } else {
                child.value
            }
        } else {
            if extreme(kids, i, maximizing) <= child.value {
                extreme(kids, i, maximizing)
            } else {
                child.value
            }
        }),
        forall|j: int|
            0 <= j < i + 1 ==> (#[trigger] kids.update(i, (kids[i].0, child))[j]).1.depth >= depth
                - 1,
{
    let now = kids.update(i, (kids[i].0, child));
    assert forall|j: int| 0 <= j < i implies (#[trigger] now[j]).1.value == kids[j].1.value by {
        assert(now[j] == kids[j]);
    }
    lemma_extreme_of_prefix(now, kids, i, maximizing);
    assert forall|j: int| 0 <= j < i + 1 implies (#[trigger] now[j]).1.depth >= depth - 1 by {
        if j < i {
            assert(now[j] == kids[j]);
        }
    }
}

/// The value stands for the first `n` children: it is the largest or the
/// smallest of their values, and each of them has been searched one ply
/// less deep than `depth` at least.
pub open spec fn reached(
    kids: Seq<(ChessMove, Sketch)>,
    value: int,
    n: int,
    depth: int,
    maximizing: bool,
) -> bool {
    &&& 1 <= n <= kids.len()
    &&& value == extreme(kids, n, maximizing)
    &&& forall|j: int| 0 <= j < n ==> (#[trigger] kids[j]).1.depth >= depth - 1
}

/// A node that has been searched and has children carries the value that
/// stands for all of them: the largest of their values, or the smallest,
/// each of them searched one ply less deep at least.
pub open spec fn complete(node: Sketch, maximizing: bool) -> bool {
    node.depth > 0 && has_children(node) ==> reached(
        node.children->0,
        node.value,
        node.children->0.len() as int,
        node.depth,
        maximizing,
    )
}

/// The value of a position in which the side to move has no legal move:
/// nothing if its king is not attacked, else the worst score for `player` if
/// it is the one mated and the best if its opponent is.
pub open spec fn closing_value(player: PieceColor, s: GameState) -> int {
    if !in_check(s) {
        0
    } else if s.turn == player {
        i32::MIN as int
    } else {
        i32::MAX as int
    }
}

/// A node that has been searched is expanded, and if it has children it
/// carries the value that stands for a first part of them.
pub open spec fn node_searched(node: Sketch, maximizing: bool) -> bool {
    &&& node.depth > 0 ==> node.children is Some
    &&& node.depth > 0 && has_children(node) ==> exists|n: int| #[trigger]
        reached(node.children->0, node.value, n, node.depth, maximizing)
}

/// A final node of the position `s` carries the closing value of the
/// position.
pub open spec fn node_closed(node: Sketch, s: GameState, player: PieceColor) -> bool {
    node.children matches Some(kids) ==> kids.len() == 0 ==> node.value == closing_value(player, s)
}

/// The tree of the position `s` has been searched for `player`. Every node
/// in it that has been searched is expanded. Without children it carries the
/// closing value of its position. With children it carries the largest of
/// the values of a first part of them where `player` is to move, the
/// smallest where the other side is, each of those children searched one ply
/// less deep at least.
pub open spec fn searched(node: Sketch, s: GameState, player: PieceColor) -> bool
    decreases node,
{
    &&& node_searched(node, s.turn == player)
    &&& node_closed(node, s, player)
    &&& match node.children {
        None => true,
        Some(kids) => forall|i: int|
            0 <= i < kids.len() ==> searched((#[trigger] kids[i]).1, apply(s, kids[i].0), player),
    }
}

/// The tree of every child has been searched.
pub open spec fn searched_all(kids: Seq<(ChessMove, Sketch)>, s: GameState, player: PieceColor) -> bool {
    forall|i: int|
        0 <= i < kids.len() ==> searched((#[trigger] kids[i]).1, apply(s, kids[i].0), player)
}

/// A node's tree has been searched exactly when the node carries the value
/// that its children or its position ask for and the trees of its children
/// have been searched; a node that is not expanded counts as searched as
/// long as no search of it is on record.
pub proof fn lemma_searched_children(node: Sketch, s: GameState, player: PieceColor)
    ensures
        node.children matches Some(kids) ==> (searched(node, s, player) <==> node_searched(
            node,
            s.turn == player,
        ) && node_closed(node, s, player) && searched_all(kids, s, player)),
        node.children is None ==> (searched(node, s, player) <==> node.depth <= 0),
{
}

/// What a sweep leaves stands for the children that it reached.
pub proof fn lemma_swept_is_reached(
    kids: Seq<(ChessMove, Sketch)>,
    value: int,
    n: int,
    depth: int,
    alpha: int,
    beta: int,
    maximizing: bool,
)
    requires
        swept(kids, value, n, depth, alpha, beta, maximizing),
    ensures
        reached(kids, value, n, depth, maximizing),
{
}

/// Ordering keeps the trees of the children searched.
pub proof fn lemma_ordered_keeps_searched(
    kids: Seq<(ChessMove, Sketch)>,
    s: GameState,
    player: PieceColor,
    descending: bool,
)
    requires
        searched_all(kids, s, player),
    ensures
        searched_all(ordered(kids, descending), s, player),
{
    let out = ordered(kids, descending);
    lemma_ordered_keeps_children(kids, descending);
    assert forall|i: int| 0 <= i < out.len() implies searched(
        (#[trigger] out[i]).1,
        apply(s, out[i].0),
        player,
    ) by {
        assert(kids.contains(out[i]));
        let k = choose|k: int| 0 <= k < kids.len() && kids[k] == out[i];
        assert(searched(kids[k].1, apply(s, kids[k].0), player));
    }
}

/// A child whose tree has been searched takes its place among such
/// children.
pub proof fn lemma_update_keeps_searched(
    kids: Seq<(ChessMove, Sketch)>,
    i: int,
    child: Sketch,
    s: GameState,
    player: PieceColor,
)
    requires
        searched_all(kids, s, player),
        0 <= i < kids.len(),
        searched(child, apply(s, kids[i].0), player),
    ensures
        searched_all(kids.update(i, (kids[i].0, child)), s, player),
{
    let now = kids.update(i, (kids[i].0, child));
    assert forall|k: int| 0 <= k < now.len() implies searched(
        (#[trigger] now[k]).1,
        apply(s, now[k].0),
        player,
    ) by {
        if k != i {
            assert(now[k] == kids[k]);
        }
    }
}

/// New children have nothing below them, so their trees count as searched.
pub proof fn lemma_new_children_are_searched(
    kids: Seq<(ChessMove, Sketch)>,
    s: GameState,
    player: PieceColor,
    slack: int,
)
    requires
        new_children(kids, s, player, legal_moves(s), slack),
    ensures
        searched_all(kids, s, player),
{
    assert forall|i: int| 0 <= i < kids.len() implies searched(
        (#[trigger] kids[i]).1,
        apply(s, kids[i].0),
        player,
    ) by {
        assert(is_leaf_of(kids[i].1, apply(s, legal_moves(s)[i]), player, slack));
    }
}

/// A node with children is tidy exactly when its children are.
pub proof fn lemma_tidy_children(node: Sketch)
    ensures
        node.children matches Some(kids) ==> (tidy(node) <==> tidy_all(kids)),
        node.children is None ==> tidy(node),
{
}

impl Node {
    /// Whether every move in the tree has its squares on the board.
    pub fn is_tidy(&self) -> (r: bool)
        ensures
            r == tidy(self@),
        decreases self,
    {
        match &self.children {
            None => true,
            Some(kids) => {
                let mut i: usize = 0;
                assert(sketches(kids@).len() == kids@.len());
                while i < kids.len()
                    invariant
                        i <= kids.len(),
                        self.children == Some(*kids),
                        sketches(kids@).len() == kids@.len(),
                        forall|j: int|
                            0 <= j < i ==> (#[trigger] sketches(kids@)[j]).0.valid() && tidy(
                                sketches(kids@)[j].1,
                            ),
                    decreases kids.len() - i,
                {
                    assert(sketches(kids@)[i as int] == (kids@[i as int].0, kids@[i as int].1@));
                    assert(self@.children == Some(sketches(kids@)));
                    proof {
                        assert(decreases_to!(self => self.children));
                        assert(decreases_to!(self.children => kids));
                        assert(decreases_to!(kids => kids@));
                        assert(decreases_to!(kids@ => kids@[i as int]));
                        assert(decreases_to!(kids@[i as int] => kids@[i as int].1));
                    }
                    let ghost shown = sketches(kids@);
                    if !kids[i].0.is_valid() || !kids[i].1.is_tidy() {
                        proof {
                            lemma_tidy_children(self@);
                            assert(!(shown[i as int].0.valid() && tidy(shown[i as int].1)));
                        }
                        return false;
                    }
                    i = i + 1;
                }
                true
            },
        }
    }
}

} // verus!
