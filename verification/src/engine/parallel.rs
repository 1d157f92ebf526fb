//! The search that looks two plies ahead first and values the lines that
//! result side by side.

use vstd::prelude::*;
use rayon::prelude::{IntoParallelRefIterator, ParallelIterator};
use super::laws::{lemma_minimax_in_range, lemma_searchable_step};
use super::search::{bonus, castle_free, clamp, minimax, search, smaller, CASTLE_BONUS};
use super::{saturating_sum, Engine};
use crate::game::chess_move::ChessMove;
use crate::game::movegen::all_valid;
use crate::game::piece::PieceColor;
use crate::game::rules::{apply, legal_moves, GameState};
use crate::game::Game;

verus! {

/// A line of two plies as a mathematical value: the first move, the reply,
/// and the position between the two.
pub struct Line {
    pub first: ChessMove,
    pub reply: ChessMove,
    pub between: GameState,
}

/// The line that a triple of move, reply and game stands for.
pub open spec fn line_of(item: (ChessMove, ChessMove, Game)) -> Line {
    Line { first: item.0, reply: item.1, between: item.2@ }
}

/// The lines that the triples stand for.
pub open spec fn lines_of(items: Seq<(ChessMove, ChessMove, Game)>) -> Seq<Line> {
    Seq::new(items.len(), |i: int| line_of(items[i]))
}

/// The lines that start with `first`: one for each legal reply to it, in
/// the order of generation.
pub open spec fn lines_after(s: GameState, first: ChessMove) -> Seq<Line> {
    let between = apply(s, first);
    Seq::new(
        legal_moves(between).len(),
        |j: int| Line { first, reply: legal_moves(between)[j], between },
    )
}

/// The lines that start with one of the first `n` of `moves`.
pub open spec fn lines_upto(s: GameState, moves: Seq<ChessMove>, n: int) -> Seq<Line>
    decreases n,
{
    if n <= 0 {
        Seq::empty()
    } else {
        lines_upto(s, moves, n - 1) + lines_after(s, moves[n - 1])
    }
}

/// Every line of two plies from `s`: each legal move with each legal reply.
/// A move that leaves no reply starts no line.
pub open spec fn two_plies(s: GameState) -> Seq<Line> {
    lines_upto(s, legal_moves(s), legal_moves(s).len() as int)
}

/// The value of a line for `player`, when evaluations carry no jitter: that
/// of the position after the reply, searched two plies less than
/// `search_depth` with the window wide open, less the castle bonus if the
/// reply castles.
pub open spec fn line_value(player: PieceColor, search_depth: int, line: Line) -> int {
    clamp(
        search(
            player,
            search_depth,
            apply(line.between, line.reply),
            (search_depth - 2) as nat,
            i32::MIN as int,
            i32::MAX as int,
        ) - bonus(line.reply),
    )
}

/// The value of every line with the first move of the line, in the order of
/// the lines.
pub open spec fn line_values(player: PieceColor, search_depth: int, lines: Seq<Line>) -> Seq<
    (ChessMove, i32),
> {
    Seq::new(lines.len(), |i: int| (lines[i].first, line_value(player, search_depth, lines[i]) as i32))
}

/// The value of a line is a 32-bit score.
pub proof fn lemma_line_value_in_range(player: PieceColor, search_depth: int, line: Line)
    ensures
        i32::MIN <= line_value(player, search_depth, line) <= i32::MAX,
{
}

/// The first moves seen in `lines` before place `n`, each once and in the order
/// of its first line, with the least of its lines' values; to the value of a
/// line the castle bonus is added if the first move castles.
pub open spec fn worst_cases(lines: Seq<(ChessMove, i32)>, n: int) -> Seq<(ChessMove, i32)>
    decreases n,
{
    if n <= 0 {
        Seq::empty()
    } else {
        let before = worst_cases(lines, n - 1);
        let m = lines[n - 1].0;
        let value = clamp(lines[n - 1].1 + bonus(m)) as i32;
        let at = place_of(before, m, 0);
        if at < before.len() {
            before.update(at, (m, smaller(before[at].1 as int, value as int) as i32))
        } else {
            before.push((m, value))
        }
    }
}

/// The first place from `j` on that holds the move `m`, or the length of
/// the sequence if none does.
pub open spec fn place_of(cases: Seq<(ChessMove, i32)>, m: ChessMove, j: int) -> int
    decreases cases.len() - j,
{
    if j < 0 || j >= cases.len() || cases[j].0 == m {
        j
    } else {
        place_of(cases, m, j + 1)
    }
}

/// What a first move counts when the moves are compared: its worst case,
/// and the castle bonus if it castles.
pub open spec fn rank(case: (ChessMove, i32)) -> int {
    clamp(case.1 + bonus(case.0))
}

/// The choice among the cases from place `j` on, when `best` is the place
/// chosen so far: a later case replaces the choice only if it counts more.
pub open spec fn choice_from(cases: Seq<(ChessMove, i32)>, j: int, best: int) -> int
    decreases cases.len() - j,
{
    if j < 0 || j >= cases.len() {
        best
    } else if rank(cases[j]) > rank(cases[best]) {
        choice_from(cases, j + 1, j)
    } else {
        choice_from(cases, j + 1, best)
    }
}

/// The move chosen from the values of the lines: the first of the first
/// moves whose worst case counts most, or none if there is no line.
pub open spec fn picked(lines: Seq<(ChessMove, i32)>) -> Option<ChessMove> {
    let cases = worst_cases(lines, lines.len() as int);
    if cases.len() == 0 {
        None
    } else {
        Some(cases[choice_from(cases, 1, 0)].0)
    }
}

/// The exact value of a line for `player`: what minimax gives for the
/// position after the reply, two plies less than `search_depth` deep.
pub open spec fn line_minimax(player: PieceColor, search_depth: int, line: Line) -> int {
    minimax(player, search_depth, apply(line.between, line.reply), (search_depth - 2) as nat)
}

/// The reply after which `player` is left with the exact value of line `k`
/// serves as a measure for the move `best`: after no reply to `best` is
/// `player` worse off than that by more than `slack`.
pub open spec fn no_reply_much_worse(
    player: PieceColor,
    search_depth: int,
    lines: Seq<Line>,
    k: int,
    best: ChessMove,
    slack: int,
) -> bool {
    forall|j: int|
        0 <= j < lines.len() && (#[trigger] lines[j]).first == best ==> line_minimax(
            player,
            search_depth,
            lines[j],
        ) >= line_minimax(player, search_depth, lines[k]) - slack
}

/// The first move of line `i` has a reply that serves as a measure for
/// `best`: after it `player` is no better off, by more than `slack`, than
/// after any reply to `best`.
pub open spec fn has_measure(
    player: PieceColor,
    search_depth: int,
    lines: Seq<Line>,
    i: int,
    best: ChessMove,
    slack: int,
) -> bool {
    exists|k: int|
        0 <= k < lines.len() && lines[k].first == lines[i].first && #[trigger] no_reply_much_worse(
            player,
            search_depth,
            lines,
            k,
            best,
            slack,
        )
}

/// No first move is much better than `best`: to every first move there is a
/// reply after which `player` is no better off, by more than `slack`, than
/// after any reply to `best`.
pub open spec fn no_move_much_better(
    player: PieceColor,
    search_depth: int,
    lines: Seq<Line>,
    best: ChessMove,
    slack: int,
) -> bool {
    forall|i: int|
        0 <= i < lines.len() ==> #[trigger] has_measure(player, search_depth, lines, i, best, slack)
}

/// What the value of a line counts when worst cases are formed: the value,
/// and the castle bonus if the first move castles.
pub open spec fn gross(line: (ChessMove, i32)) -> int {
    clamp(line.1 + bonus(line.0))
}

/// The case stands for one of the first `n` lines: it has the first move of
/// that line and counts what that line counts.
pub open spec fn is_a_line(lines: Seq<(ChessMove, i32)>, n: int, case: (ChessMove, i32)) -> bool {
    exists|k: int| 0 <= k < n && (#[trigger] lines[k]).0 == case.0 && case.1 == gross(lines[k])
}

/// One of the cases has the first move of the line and counts no more than
/// the line.
pub open spec fn is_covered(cases: Seq<(ChessMove, i32)>, line: (ChessMove, i32)) -> bool {
    exists|c: int| 0 <= c < cases.len() && (#[trigger] cases[c]).0 == line.0 && cases[c].1 <= gross(line)
}

/// Where `place_of` finds the move: within the sequence or at its end, on a
/// case with that move if within, and past the place `c` if the case there
/// has another move.
pub proof fn lemma_place_of(cases: Seq<(ChessMove, i32)>, m: ChessMove, j: int, c: int)
    requires
        0 <= j <= cases.len(),
    ensures
        j <= place_of(cases, m, j) <= cases.len(),
        place_of(cases, m, j) < cases.len() ==> cases[place_of(cases, m, j)].0 == m,
        j <= c < place_of(cases, m, j) ==> cases[c].0 != m,
    decreases cases.len() - j,
{
    if j < cases.len() && cases[j].0 != m {
        lemma_place_of(cases, m, j + 1, c);
    }
}

/// Each worst case of the first `n` lines stands for one of those lines.
pub proof fn lemma_worst_case_is_a_line(lines: Seq<(ChessMove, i32)>, n: int, c: int)
    requires
        0 <= n <= lines.len(),
        0 <= c < worst_cases(lines, n).len(),
    ensures
        is_a_line(lines, n, worst_cases(lines, n)[c]),
    decreases n,
{
    if n > 0 {
        let before = worst_cases(lines, n - 1);
        let after = worst_cases(lines, n);
        let m = lines[n - 1].0;
        let value = gross(lines[n - 1]) as i32;
        let at = place_of(before, m, 0);
        lemma_place_of(before, m, 0, 0);
        if c == at && !(at < before.len() && before[at].1 < value) {
            assert(lines[n - 1].0 == after[c].0 && after[c].1 == gross(lines[n - 1]));
        } else {
            assert(after[c] == before[c]);
            lemma_worst_case_is_a_line(lines, n - 1, c);
            let k = choose|k: int|
                0 <= k < n - 1 && (#[trigger] lines[k]).0 == before[c].0 && before[c].1 == gross(
                    lines[k],
                );
            assert(lines[k].0 == after[c].0 && after[c].1 == gross(lines[k]));
        }
    }
}

/// Each of the first `n` lines is covered by a worst case of those lines.
pub proof fn lemma_line_is_covered(lines: Seq<(ChessMove, i32)>, n: int, k: int)
    requires
        0 <= k < n <= lines.len(),
    ensures
        is_covered(worst_cases(lines, n), lines[k]),
    decreases n,
{
    let before = worst_cases(lines, n - 1);
    let after = worst_cases(lines, n);
    let m = lines[n - 1].0;
    let at = place_of(before, m, 0);
    lemma_place_of(before, m, 0, 0);
    if k == n - 1 {
        assert(after[at].0 == lines[k].0 && after[at].1 <= gross(lines[k]));
    } else {
        lemma_line_is_covered(lines, n - 1, k);
        let c = choose|c: int|
            0 <= c < before.len() && (#[trigger] before[c]).0 == lines[k].0 && before[c].1 <= gross(
                lines[k],
            );
        assert(after[c].0 == lines[k].0 && after[c].1 <= gross(lines[k]));
    }
}

/// No two worst cases have the same first move.
pub proof fn lemma_cases_differ(lines: Seq<(ChessMove, i32)>, n: int, a: int, b: int)
    requires
        0 <= n <= lines.len(),
        0 <= a < b < worst_cases(lines, n).len(),
    ensures
        worst_cases(lines, n)[a].0 != worst_cases(lines, n)[b].0,
    decreases n,
{
    if n > 0 {
        let before = worst_cases(lines, n - 1);
        let after = worst_cases(lines, n);
        let m = lines[n - 1].0;
        let at = place_of(before, m, 0);
        lemma_place_of(before, m, 0, a);
        if b < before.len() {
            lemma_cases_differ(lines, n - 1, a, b);
            assert(after[a].0 == before[a].0);
            assert(after[b].0 == before[b].0);
        } else {
            assert(after[a] == before[a]);
            assert(after[b].0 == m);
        }
    }
}

/// The choice among the cases counts no less than the choice so far, nor
/// than the case at `c` if that is yet to be compared.
pub proof fn lemma_choice_is_best(cases: Seq<(ChessMove, i32)>, j: int, best: int, c: int)
    requires
        0 <= best < cases.len(),
        0 <= j <= cases.len(),
    ensures
        0 <= choice_from(cases, j, best) < cases.len(),
        rank(cases[best]) <= rank(cases[choice_from(cases, j, best)]),
        j <= c < cases.len() ==> rank(cases[c]) <= rank(cases[choice_from(cases, j, best)]),
    decreases cases.len() - j,
{
    if j < cases.len() {
        if rank(cases[j]) > rank(cases[best]) {
            lemma_choice_is_best(cases, j + 1, j, c);
        } else {
            lemma_choice_is_best(cases, j + 1, best, c);
        }
    }
}

/// A case counts no more than any line that has its first move.
pub proof fn lemma_case_is_the_worst(lines: Seq<(ChessMove, i32)>, c: int, j: int)
    requires
        0 <= c < worst_cases(lines, lines.len() as int).len(),
        0 <= j < lines.len(),
        lines[j].0 == worst_cases(lines, lines.len() as int)[c].0,
    ensures
        worst_cases(lines, lines.len() as int)[c].1 <= gross(lines[j]),
{
    let n = lines.len() as int;
    let cases = worst_cases(lines, n);
    lemma_line_is_covered(lines, n, j);
    let cj = choose|cj: int|
        0 <= cj < cases.len() && (#[trigger] cases[cj]).0 == lines[j].0 && cases[cj].1 <= gross(
            lines[j],
        );
    if cj < c {
        lemma_cases_differ(lines, n, cj, c);
    } else if c < cj {
        lemma_cases_differ(lines, n, c, cj);
    }
}

/// The move that is picked is the first move of the case that counts most:
/// the case at the place that the lemma returns counts no less than the case
/// at `c`.
pub proof fn lemma_picked_case(lines: Seq<(ChessMove, i32)>, c: int) -> (b: int)
    requires
        lines.len() > 0,
        0 <= c < worst_cases(lines, lines.len() as int).len(),
    ensures
        0 <= b < worst_cases(lines, lines.len() as int).len(),
        b == choice_from(worst_cases(lines, lines.len() as int), 1, 0),
        picked(lines) == Some(worst_cases(lines, lines.len() as int)[b].0),
        rank(worst_cases(lines, lines.len() as int)[c]) <= rank(
            worst_cases(lines, lines.len() as int)[b],
        ),
{
    let cases = worst_cases(lines, lines.len() as int);
    lemma_choice_is_best(cases, 1, 0, c);
    choice_from(cases, 1, 0)
}

/// The place among the worst cases of the case with the first move `m`.
pub open spec fn case_of(lines: Seq<(ChessMove, i32)>, m: ChessMove) -> int {
    place_of(worst_cases(lines, lines.len() as int), m, 0)
}

/// A line with the first move `m` that counts least among the lines of `m`:
/// what it counts is what the case of `m` counts.
pub open spec fn weakest_line(lines: Seq<(ChessMove, i32)>, m: ChessMove) -> int {
    choose|k: int|
        0 <= k < lines.len() && (#[trigger] lines[k]).0 == m && gross(lines[k]) == worst_cases(
            lines,
            lines.len() as int,
        )[case_of(lines, m)].1
}

/// The first move of a line has a case, and a weakest line.
pub proof fn lemma_weakest_line(lines: Seq<(ChessMove, i32)>, i: int)
    requires
        0 <= i < lines.len(),
    ensures
        0 <= case_of(lines, lines[i].0) < worst_cases(lines, lines.len() as int).len(),
        worst_cases(lines, lines.len() as int)[case_of(lines, lines[i].0)].0 == lines[i].0,
        0 <= weakest_line(lines, lines[i].0) < lines.len(),
        lines[weakest_line(lines, lines[i].0)].0 == lines[i].0,
        gross(lines[weakest_line(lines, lines[i].0)]) == worst_cases(
            lines,
            lines.len() as int,
        )[case_of(lines, lines[i].0)].1,
{
    let n = lines.len() as int;
    let cases = worst_cases(lines, n);
    let m = lines[i].0;
    lemma_line_is_covered(lines, n, i);
    let covering = choose|c: int|
        0 <= c < cases.len() && (#[trigger] cases[c]).0 == lines[i].0 && cases[c].1 <= gross(lines[i]);
    lemma_place_of(cases, m, 0, covering);
    let c = case_of(lines, m);
    assert(c < cases.len());
    lemma_worst_case_is_a_line(lines, n, c);
    let k = choose|k: int|
        0 <= k < n && (#[trigger] lines[k]).0 == cases[c].0 && cases[c].1 == gross(lines[k]);
    assert(0 <= k < lines.len() && lines[k].0 == m && gross(lines[k]) == cases[c].1);
}

/// Where neither move castles, a line of the move that is picked counts no
/// less than the weakest line of the first move of any line.
pub proof fn lemma_picked_is_best(lines: Seq<(ChessMove, i32)>, i: int, j: int)
    requires
        0 <= i < lines.len(),
        0 <= j < lines.len(),
        picked(lines) == Some(lines[j].0),
        !lines[j].0.is_castle(),
        !lines[i].0.is_castle(),
    ensures
        lines[j].1 >= lines[weakest_line(lines, lines[i].0)].1,
{
    let cases = worst_cases(lines, lines.len() as int);
    lemma_weakest_line(lines, i);
    let b = lemma_picked_case(lines, case_of(lines, lines[i].0));
    lemma_case_is_the_worst(lines, b, j);
}

/// A line among those of the first `n` moves starts with one of the moves
/// and goes on with a legal reply from the position that the move leads to.
pub proof fn lemma_line_is_legal(s: GameState, moves: Seq<ChessMove>, n: int, i: int)
    requires
        0 <= n <= moves.len(),
        0 <= i < lines_upto(s, moves, n).len(),
    ensures
        moves.contains(lines_upto(s, moves, n)[i].first),
        lines_upto(s, moves, n)[i].between == apply(s, lines_upto(s, moves, n)[i].first),
        legal_moves(lines_upto(s, moves, n)[i].between).contains(lines_upto(s, moves, n)[i].reply),
    decreases n,
{
    if n > 0 {
        let before = lines_upto(s, moves, n - 1);
        if i < before.len() {
            lemma_line_is_legal(s, moves, n - 1, i);
        } else {
            let last = lines_after(s, moves[n - 1]);
            let j = i - before.len();
            assert(lines_upto(s, moves, n)[i] == last[j]);
            assert(moves[n - 1] == last[j].first);
            assert(legal_moves(apply(s, moves[n - 1]))[j] == last[j].reply);
        }
    }
}

/// The bonus of a move.
pub fn castle_bonus(chess_move: &ChessMove) -> (r: i32)
    ensures
        r == bonus(*chess_move),
{
    if *chess_move == ChessMove::CastleKingside || *chess_move == ChessMove::CastleQueenside {
        CASTLE_BONUS
    } else {
        0
    }
}

/// The move to play, given the value of every line of two plies with the
/// first move of the line: the first move whose worst reply is best.
pub fn pick_line(lines: &Vec<(ChessMove, i32)>) -> (r: Option<ChessMove>)
    ensures
        r == picked(lines@),
        r matches Some(m) ==> exists|i: int| 0 <= i < lines@.len() && lines@[i].0 == m,
{
    let mut cases: Vec<(ChessMove, i32)> = Vec::new();
    let mut i: usize = 0;
    while i < lines.len()
        invariant
            i <= lines.len(),
            cases@ == worst_cases(lines@, i as int),
            forall|k: int|
                0 <= k < cases@.len() ==> exists|l: int|
                    0 <= l < i && lines@[l].0 == (#[trigger] cases@[k]).0,
        decreases lines.len() - i,
    {
        let chess_move = lines[i].0;
        let value = saturating_sum(lines[i].1, castle_bonus(&chess_move));
        let ghost before = cases@;
        let mut j: usize = 0;
        while j < cases.len() && cases[j].0 != chess_move
            invariant
                j <= cases.len(),
                place_of(cases@, chess_move, j as int) == place_of(cases@, chess_move, 0),
            decreases cases.len() - j,
        {
            j = j + 1;
        }
        if j < cases.len() {
            let held = cases[j].1;
            let least = if value < held {
                value
            } else {
                held
            };
            cases[j] = (chess_move, least);
            assert(cases@ =~= before.update(j as int, (chess_move, least)));
        } else {
            cases.push((chess_move, value));
        }
        assert forall|k: int| 0 <= k < cases@.len() implies exists|l: int|
            0 <= l < i + 1 && lines@[l].0 == (#[trigger] cases@[k]).0 by {
            if k == j {
                assert(lines@[i as int].0 == cases@[k].0);
            } else {
                assert(cases@[k] == before[k]);
                let l = choose|l: int| 0 <= l < i && lines@[l].0 == before[k].0;
                assert(lines@[l].0 == cases@[k].0);
            }
        }
        i = i + 1;
    }
    if cases.len() == 0 {
        return None;
    }
    let mut best: usize = 0;
    let mut j: usize = 1;
    while j < cases.len()
        invariant
            1 <= j <= cases.len(),
            best < cases.len(),
            choice_from(cases@, j as int, best as int) == choice_from(cases@, 1, 0),
        decreases cases.len() - j,
    {
        let here = saturating_sum(cases[j].1, castle_bonus(&cases[j].0));
        let held = saturating_sum(cases[best].1, castle_bonus(&cases[best].0));
        if here > held {
            best = j;
        }
        j = j + 1;
    }
    Some(cases[best].0)
}

/// Adds to `lines` the line of the move `first` with each of `replies`, in
/// their order, each with the game `between` the two moves.
fn add_lines(
    lines: &mut Vec<(ChessMove, ChessMove, Game)>,
    first: ChessMove,
    between: Game,
    replies: &Vec<ChessMove>,
)
    ensures
        final(lines)@.len() == old(lines)@.len() + replies@.len(),
        forall|k: int| 0 <= k < old(lines)@.len() ==> final(lines)@[k] == old(lines)@[k],
        forall|k: int|
            old(lines)@.len() <= k < final(lines)@.len() ==> final(lines)@[k] == (
                first,
                replies@[k - old(lines)@.len()],
                between,
            ),
{
    let ghost start = lines@;
    let mut j: usize = 0;
    while j < replies.len()
        invariant
            j <= replies.len(),
            lines@.len() == start.len() + j,
            forall|k: int| 0 <= k < start.len() ==> lines@[k] == start[k],
            forall|k: int|
                start.len() <= k < lines@.len() ==> lines@[k] == (
                    first,
                    replies@[k - start.len()],
                    between,
                ),
        decreases replies.len() - j,
    {
        lines.push((first, replies[j], between));
        j = j + 1;
    }
}

impl Engine {
    /// Every line of two plies from the engine's game: each legal move with
    /// each legal reply and the game between the two.
    pub fn expand_two_plies(&self) -> (r: Vec<(ChessMove, ChessMove, Game)>)
        requires
            self.game.valid(),
            self.game.half_moves < u16::MAX,
        ensures
            lines_of(r@) == two_plies(self.game@),
            forall|i: int|
                0 <= i < r@.len() ==> (#[trigger] r@[i]).0.valid() && r@[i].1.valid()
                    && r@[i].2.valid() && r@[i].2.half_moves == self.game.half_moves + 1
                    && legal_moves(self.game@).contains(r@[i].0),
    {
        let mut next_moves: Vec<(ChessMove, ChessMove, Game)> = Vec::new();
        let firsts = self.game.get_moves();
        let mut i: usize = 0;
        assert(lines_of(next_moves@) =~= Seq::empty());
        while i < firsts.len()
            invariant
                i <= firsts.len(),
                self.game.valid(),
                self.game.half_moves < u16::MAX,
                firsts@ == legal_moves(self.game@),
                all_valid(firsts@),
                lines_of(next_moves@) == lines_upto(self.game@, firsts@, i as int),
                forall|k: int|
                    0 <= k < next_moves@.len() ==> (#[trigger] next_moves@[k]).0.valid()
                        && next_moves@[k].1.valid() && next_moves@[k].2.valid()
                        && next_moves@[k].2.half_moves == self.game.half_moves + 1
                        && legal_moves(self.game@).contains(next_moves@[k].0),
            decreases firsts.len() - i,
        {
            let first_move = firsts[i];
            let mut next_game = self.game;
            next_game.make_move(&first_move);
            let replies = next_game.get_moves();
            let ghost start = next_moves@;
            add_lines(&mut next_moves, first_move, next_game, &replies);
            proof {
                let added = lines_after(self.game@, first_move);
                assert(lines_of(next_moves@) =~= lines_of(start) + added) by {
                    assert forall|k: int| 0 <= k < next_moves@.len() implies lines_of(
                        next_moves@,
                    )[k] == (lines_of(start) + added)[k] by {
                        if k >= start.len() {
                            assert(next_moves@[k] == (
                                first_move,
                                replies@[k - start.len()],
                                next_game,
                            ));
                        } else {
                            assert(next_moves@[k] == start[k]);
                        }
                    }
                }
                assert forall|k: int| 0 <= k < next_moves@.len() implies (
                #[trigger] next_moves@[k]).0.valid() && next_moves@[k].1.valid()
                    && next_moves@[k].2.valid() && next_moves@[k].2.half_moves
                    == self.game.half_moves + 1 && legal_moves(self.game@).contains(
                    next_moves@[k].0,
                ) by {
                    if k >= start.len() {
                        assert(next_moves@[k] == (
                            first_move,
                            replies@[k - start.len()],
                            next_game,
                        ));
                        assert(firsts@.contains(firsts@[i as int]));
                    } else {
                        assert(next_moves@[k] == start[k]);
                    }
                }
            }
            i = i + 1;
        }
        next_moves
    }

    /// What holds of the value found for a line of two plies, given with the
    /// first move of the line: the move is that of the line; without jitter
    /// the value is exactly `line_value`; and with or without it, where the
    /// reply is legal and no castle is legal from the position between the
    /// two moves within the rest of the search depth, the value differs from
    /// what minimax gives by no more than the jitter.
    pub open spec fn line_result(self, line: Line, r: (ChessMove, i32)) -> bool {
        let limit = self.search_depth as int;
        &&& r.0 == line.first
        &&& !self.jitter ==> r.1 == line_value(self.player, limit, line)
        &&& castle_free(line.between, (limit - 1) as nat) && legal_moves(line.between).contains(
            line.reply,
        ) ==> r.1 - self.slack() <= line_minimax(self.player, limit, line) <= r.1 + self.slack()
    }

    /// The value of one line of two plies for the engine's side, with the
    /// first move of the line.
    pub fn evaluate_line(&self, line: &(ChessMove, ChessMove, Game)) -> (r: (ChessMove, i32))
        requires
            self.search_depth >= 2,
            line.1.valid(),
            line.2.valid(),
            line.2.half_moves + self.search_depth - 1 <= u16::MAX,
        ensures
            self.line_result(line_of(*line), r),
    {
        let mut next_game = line.2;
        next_game.make_move(&line.1);
        let value = self.search_tree(&next_game, self.search_depth - 2, i32::MIN, i32::MAX);
        proof {
            let limit = self.search_depth as int;
            lemma_searchable_step(line.2@, limit, (limit - 1) as nat, line.1);
            lemma_minimax_in_range(self.player, limit, next_game@, (limit - 2) as nat);
            if castle_free(line.2@, (limit - 1) as nat) && legal_moves(line.2@).contains(line.1) {
                let moves = legal_moves(line.2@);
                let i = choose|i: int| 0 <= i < moves.len() && moves[i] == line.1;
                assert(!moves[i].is_castle() && castle_free(next_game@, (limit - 2) as nat));
            }
        }
        (line.0, saturating_sum(value, -castle_bonus(&line.1)))
    }

    /// Values every line on the worker threads of `rayon`, by `par_iter`,
    /// `map` and `collect`, which hand back one result for each line in the
    /// order of the lines. Each result is what `evaluate_line` returns for
    /// its line, so the contract repeats that function's own.
    #[verifier::external_body]
    fn evaluate_lines(&self, lines: &Vec<(ChessMove, ChessMove, Game)>) -> (r: Vec<(ChessMove, i32)>)
        requires
            self.search_depth >= 2,
            forall|i: int|
                0 <= i < lines@.len() ==> (#[trigger] lines@[i]).1.valid() && lines@[i].2.valid()
                    && lines@[i].2.half_moves + self.search_depth - 1 <= u16::MAX,
        ensures
            r@.len() == lines@.len(),
            forall|i: int|
                0 <= i < r@.len() ==> self.line_result(line_of(lines@[i]), #[trigger] r@[i]),
    {
        lines.par_iter().map(|line| self.evaluate_line(line)).collect()
    }

    /// The move that the engine would play by looking two plies ahead and
    /// searching what follows each line on its own: the first move whose
    /// worst reply is best. A move that leaves the opponent no reply starts
    /// no line and is not chosen; where there is no line, no move is chosen.
    ///
    /// Without jitter the move is exactly what `picked` picks from the values
    /// of the lines. With or without it, where no castle is legal within the
    /// search depth, no first move is better than the one chosen by more than
    /// twice the jitter, as `no_move_much_better` says.
    pub fn get_best_move_parallel(&self) -> (r: Option<ChessMove>)
        requires
            self.game.valid(),
            self.search_depth >= 2,
            self.game.half_moves + self.search_depth <= u16::MAX,
        ensures
            r matches Some(m) ==> legal_moves(self.game@).contains(m),
            r.is_none() <==> two_plies(self.game@).len() == 0,
            !self.jitter ==> r == picked(
                line_values(self.player, self.search_depth as int, two_plies(self.game@)),
            ),
            castle_free(self.game@, self.search_depth as nat) ==> (r matches Some(m)
                ==> no_move_much_better(
                self.player,
                self.search_depth as int,
                two_plies(self.game@),
                m,
                2 * self.slack(),
            )),
    {
        let next_moves = self.expand_two_plies();
        let game_lines = self.evaluate_lines(&next_moves);
        let r = pick_line(&game_lines);
        proof {
            let limit = self.search_depth as int;
            let lines = two_plies(self.game@);
            assert(lines_of(next_moves@).len() == next_moves@.len());
            assert forall|i: int| 0 <= i < game_lines@.len() implies self.line_result(
                lines[i],
                #[trigger] game_lines@[i],
            ) by {
                assert(lines_of(next_moves@)[i] == line_of(next_moves@[i]));
            }
            if !self.jitter {
                let wanted = line_values(self.player, limit, lines);
                assert forall|i: int| 0 <= i < game_lines@.len() implies game_lines@[i]
                    == wanted[i] by {
                    assert(self.line_result(lines[i], game_lines@[i]));
                    lemma_line_value_in_range(self.player, limit, lines[i]);
                }
                assert(game_lines@ =~= wanted);
            }
            if r is Some {
                let m = r->0;
                let i = choose|i: int| 0 <= i < game_lines@.len() && game_lines@[i].0 == m;
                assert(self.line_result(lines[i], game_lines@[i]));
                assert(next_moves@[i].0 == m);
            }
            if game_lines@.len() > 0 {
                lemma_line_is_covered(game_lines@, game_lines@.len() as int, 0);
            }
            if castle_free(self.game@, limit as nat) && r is Some {
                self.lemma_no_move_much_better(next_moves@, game_lines@);
            }
        }
        r
    }

    /// In a game in which no castle is legal within the search depth, no line
    /// of two plies starts with a castle, every reply is legal, and no castle
    /// is legal after the first move within the rest of the depth.
    proof fn lemma_lines_of_a_castle_free_game(
        self,
        items: Seq<(ChessMove, ChessMove, Game)>,
        values: Seq<(ChessMove, i32)>,
    )
        requires
            self.search_depth >= 2,
            castle_free(self.game@, self.search_depth as nat),
            lines_of(items) == two_plies(self.game@),
            values.len() == items.len(),
            forall|i: int|
                0 <= i < values.len() ==> self.line_result(line_of(items[i]), #[trigger] values[i]),
        ensures
            forall|i: int| 0 <= i < values.len() ==> !(#[trigger] values[i]).0.is_castle(),
            forall|i: int|
                0 <= i < values.len() ==> (#[trigger] values[i]).1 - self.slack() <= line_minimax(
                    self.player,
                    self.search_depth as int,
                    two_plies(self.game@)[i],
                ) <= values[i].1 + self.slack(),
    {
        let s = self.game@;
        let limit = self.search_depth as int;
        let lines = two_plies(s);
        assert(lines_of(items).len() == items.len());
        assert forall|i: int| 0 <= i < values.len() implies !(#[trigger] values[i]).0.is_castle()
            && values[i].1 - self.slack() <= line_minimax(self.player, limit, lines[i])
            <= values[i].1 + self.slack() by {
            assert(lines_of(items)[i] == line_of(items[i]));
            assert(self.line_result(lines[i], values[i]));
            lemma_line_is_legal(s, legal_moves(s), legal_moves(s).len() as int, i);
            let first = lines[i].first;
            let j = choose|j: int| 0 <= j < legal_moves(s).len() && legal_moves(s)[j] == first;
            assert(!legal_moves(s)[j].is_castle() && castle_free(
                apply(s, first),
                (limit - 1) as nat,
            ));
        }
    }
    /// Where no castle is legal within the search depth, after no reply to
    /// the move that is picked is the engine worse off, by more than twice the
    /// jitter, than after the weakest reply to the first move of line `i`.
    proof fn lemma_reply_is_not_much_worse(
        self,
        items: Seq<(ChessMove, ChessMove, Game)>,
        values: Seq<(ChessMove, i32)>,
        i: int,
        j: int,
    )
        requires
            self.search_depth >= 2,
            castle_free(self.game@, self.search_depth as nat),
            lines_of(items) == two_plies(self.game@),
            values.len() == items.len(),
            forall|l: int|
                0 <= l < values.len() ==> self.line_result(line_of(items[l]), #[trigger] values[l]),
            0 <= i < values.len(),
            0 <= j < values.len(),
            picked(values) == Some(values[j].0),
        ensures
            0 <= weakest_line(values, values[i].0) < values.len(),
            values[weakest_line(values, values[i].0)].0 == values[i].0,
            line_minimax(self.player, self.search_depth as int, two_plies(self.game@)[j])
                >= line_minimax(
                self.player,
                self.search_depth as int,
                two_plies(self.game@)[weakest_line(values, values[i].0)],
            ) - 2 * self.slack(),
    {
        self.lemma_lines_of_a_castle_free_game(items, values);
        lemma_weakest_line(values, i);
        let k = weakest_line(values, values[i].0);
        assert(!values[i].0.is_castle());
        assert(!values[j].0.is_castle());
        assert(!values[k].0.is_castle());
        lemma_picked_is_best(values, i, j);
    }

    /// Where no castle is legal within the search depth, no first move is
    /// better than the one that is picked from the values of the lines by
    /// more than twice the jitter.
    proof fn lemma_no_move_much_better(
        self,
        items: Seq<(ChessMove, ChessMove, Game)>,
        values: Seq<(ChessMove, i32)>,
    )
        requires
            self.search_depth >= 2,
            castle_free(self.game@, self.search_depth as nat),
            lines_of(items) == two_plies(self.game@),
            values.len() == items.len(),
            forall|i: int|
                0 <= i < values.len() ==> self.line_result(line_of(items[i]), #[trigger] values[i]),
            picked(values) is Some,
        ensures
            no_move_much_better(
                self.player,
                self.search_depth as int,
                two_plies(self.game@),
                picked(values)->0,
                2 * self.slack(),
            ),
    {
        let limit = self.search_depth as int;
        let lines = two_plies(self.game@);
        let best = picked(values)->0;
        assert(lines_of(items).len() == items.len());
        assert forall|i: int| 0 <= i < lines.len() implies (#[trigger] lines[i]).first
            == values[i].0 by {
            assert(lines_of(items)[i] == line_of(items[i]));
            assert(self.line_result(lines[i], values[i]));
        }
        assert forall|i: int| 0 <= i < lines.len() implies #[trigger] has_measure(
            self.player,
            limit,
            lines,
            i,
            best,
            2 * self.slack(),
        ) by {
            lemma_weakest_line(values, i);
            let k = weakest_line(values, values[i].0);
            assert(lines[k].first == values[k].0);
            assert forall|j: int|
                0 <= j < lines.len() && (#[trigger] lines[j]).first == best implies line_minimax(
                self.player,
                limit,
                lines[j],
            ) >= line_minimax(self.player, limit, lines[k]) - 2 * self.slack() by {
                assert(values[j].0 == best);
                self.lemma_reply_is_not_much_worse(items, values, i, j);
            }
            assert(no_reply_much_worse(self.player, limit, lines, k, best, 2 * self.slack()));
        }
    }
}

} // verus!
