//! Reading what was written gives back what was there: the round trip
//! through Forsyth-Edwards notation.

use vstd::prelude::*;
use super::board::{at, cell, empty_grid, put, Grid};
use super::fen::{
    castling_text, digit_value, en_passant_fits, en_passant_text, fen_text, grant, grant_all,
    is_castle_letter, is_digit, is_number, no_rights, open_run, parse_castling, parse_en_passant,
    parse_fen, parse_placement, parse_rest, parse_turn, place_full_row, place_row, place_rows,
    placement_text, right_text, row_text, row_text_upto, rows_text, run_text, split, FenError,
    RowState,
};
use super::piece::{lemma_piece_char_round_trip, Piece, PieceColor};
use super::position::{lemma_square_name_round_trip, square, Position};
use super::chess_move::ChessMove;
use super::fen::initial_state;
use super::laws::{lemma_legal_move_keeps_settled, lemma_start_is_settled, settled};
use super::rules::{apply, legal_moves, GameState};
use super::CastleRights;

verus! {

/// The character `c` does not occur in `s`.
pub open spec fn free_of(s: Seq<char>, c: char) -> bool {
    forall|i: int| 0 <= i < s.len() ==> s[i] != c
}

/// A text without the separator is one piece.
pub proof fn lemma_split_whole(s: Seq<char>, separator: char)
    requires
        free_of(s, separator),
    ensures
        split(s, separator) == seq![s],
    decreases s.len(),
{
    if s.len() > 0 {
        lemma_split_whole(s.drop_last(), separator);
        let init = split(s.drop_last(), separator);
        assert(init.update(init.len() - 1, init.last().push(s.last())) =~= seq![s]) by {
            assert(s.drop_last().push(s.last()) =~= s);
        }
    } else {
        assert(s =~= Seq::<char>::empty());
    }
}

/// A text that ends in the separator and a piece without it splits into the
/// pieces of what stands before the separator, and that piece.
pub proof fn lemma_split_last(a: Seq<char>, b: Seq<char>, separator: char)
    requires
        free_of(b, separator),
    ensures
        split(a + seq![separator] + b, separator) == split(a, separator).push(b),
    decreases b.len(),
{
    let whole = a + seq![separator] + b;
    if b.len() == 0 {
        assert(whole.drop_last() =~= a);
        assert(whole.last() == separator);
        assert(b =~= Seq::<char>::empty());
    } else {
        lemma_split_last(a, b.drop_last(), separator);
        assert(whole.drop_last() =~= a + seq![separator] + b.drop_last());
        assert(whole.last() == b.last());
        let init = split(a, separator).push(b.drop_last());
        assert(b.drop_last().push(b.last()) =~= b);
        assert(init.update(init.len() - 1, init.last().push(b.last())) =~= split(
            a,
            separator,
        ).push(b));
    }
}

/// The letter of a piece is no digit, no `/` and no blank.
pub proof fn lemma_piece_letter(piece: Piece)
    ensures
        !is_digit(piece.spec_to_char()),
        piece.spec_to_char() != '/',
        piece.spec_to_char() != ' ',
        Piece::spec_get_piece(piece.spec_to_char()) == Some(piece),
{
    lemma_piece_char_round_trip(piece);
}

/// The digit that stands for a run of one to eight empty squares.
pub proof fn lemma_run_digit(run: int)
    requires
        1 <= run <= 8,
    ensures
        run_text(run).len() == 1,
        is_digit(run_text(run)[0]),
        digit_value(run_text(run)[0]) == run,
        run_text(run)[0] != '/',
        run_text(run)[0] != ' ',
{
}

/// The open run at the end of the first `n` columns is no longer than they.
pub proof fn lemma_open_run_bounds(grid: Grid, row: int, n: int)
    requires
        0 <= n,
    ensures
        0 <= open_run(grid, row, n) <= n,
    decreases n,
{
    if n > 0 {
        lemma_open_run_bounds(grid, row, n - 1);
    }
}

/// The grid `base` with the first `n` squares of row `row` taken from
/// `grid`.
pub open spec fn row_filled(base: Grid, grid: Grid, row: int, n: int) -> Grid {
    Seq::new(
        64,
        |i: int|
            if i / 8 == row && i % 8 < n {
                grid[i]
            } else {
                base[i]
            },
    )
}

/// The grid with the rows below `n` taken from `grid` and the others empty.
pub open spec fn rows_filled(grid: Grid, n: int) -> Grid {
    Seq::new(
        64,
        |i: int|
            if i / 8 < n {
                grid[i]
            } else {
                None
            },
    )
}

/// Reading the settled text of the first `n` columns of a row into an empty
/// row fills the squares up to the open run and stops in front of it. The
/// text holds no `/` and no blank.
pub proof fn lemma_read_row_prefix(base: Grid, grid: Grid, row: int, n: int)
    requires
        0 <= row < 8,
        0 <= n <= 8,
        base.len() == 64,
        grid.len() == 64,
        forall|c: int| 0 <= c < 8 ==> (#[trigger] at(base, row, c)).is_none(),
    ensures
        place_row(base, row, row_text_upto(grid, row, n)) == Ok::<RowState, FenError>(
            RowState {
                grid: row_filled(base, grid, row, n - open_run(grid, row, n)),
                column: n - open_run(grid, row, n),
            },
        ),
        row_filled(base, grid, row, n - open_run(grid, row, n)) == row_filled(base, grid, row, n),
        free_of(row_text_upto(grid, row, n), '/'),
        free_of(row_text_upto(grid, row, n), ' '),
    decreases n,
{
    lemma_open_run_bounds(grid, row, n);
    if n <= 0 {
        assert(row_filled(base, grid, row, 0) =~= base);
    } else {
        lemma_read_row_prefix(base, grid, row, n - 1);
        lemma_open_run_bounds(grid, row, n - 1);
        let before = row_text_upto(grid, row, n - 1);
        let run = open_run(grid, row, n - 1);
        let settled = row_filled(base, grid, row, n - 1);
        assert(grid[cell(row, n - 1)] == at(grid, row, n - 1));
        assert(base[cell(row, n - 1)] == at(base, row, n - 1));
        match at(grid, row, n - 1) {
            None => {
                assert(row_filled(base, grid, row, n) =~= settled);
                assert(row_filled(base, grid, row, n - open_run(grid, row, n)) =~= settled);
            },
            Some(piece) => {
                lemma_piece_letter(piece);
                let letter = piece.spec_to_char();
                let skipped = before + run_text(run);
                let text = skipped + seq![letter];
                assert(text == row_text_upto(grid, row, n));
                assert(text.drop_last() =~= skipped);
                assert(text.last() == letter);
                if run > 0 {
                    lemma_run_digit(run);
                    assert(skipped.drop_last() =~= before);
                    assert(skipped.last() == run_text(run)[0]);
                } else {
                    assert(skipped =~= before);
                }
                assert(place_row(base, row, skipped) == Ok::<RowState, FenError>(
                    RowState { grid: settled, column: n - 1 },
                ));
                assert(put(settled, square(row, n - 1), Some(piece)) =~= row_filled(
                    base,
                    grid,
                    row,
                    n,
                ));
            },
        }
    }
}

/// Reading the text of a row into an empty row gives the row. The text
/// holds no `/` and no blank.
pub proof fn lemma_read_row(base: Grid, grid: Grid, row: int)
    requires
        0 <= row < 8,
        base.len() == 64,
        grid.len() == 64,
        forall|c: int| 0 <= c < 8 ==> (#[trigger] at(base, row, c)).is_none(),
    ensures
        place_full_row(base, row, row_text(grid, row)) == Ok::<Grid, FenError>(
            row_filled(base, grid, row, 8),
        ),
        free_of(row_text(grid, row), '/'),
        free_of(row_text(grid, row), ' '),
{
    lemma_read_row_prefix(base, grid, row, 8);
    lemma_open_run_bounds(grid, row, 8);
    let settled = row_text_upto(grid, row, 8);
    let run = open_run(grid, row, 8);
    let text = row_text(grid, row);
    if run > 0 {
        lemma_run_digit(run);
        assert(text.drop_last() =~= settled);
        assert(text.last() == run_text(run)[0]);
    } else {
        assert(text =~= settled);
    }
}

/// Reading the texts of the rows of a board, the highest first, gives the
/// board row by row.
pub proof fn lemma_read_rows(grid: Grid, rows: Seq<Seq<char>>, n: int)
    requires
        grid.len() == 64,
        rows.len() == 8,
        forall|r: int| 0 <= r < 8 ==> rows[7 - r] == #[trigger] row_text(grid, r),
        0 <= n <= 8,
    ensures
        place_rows(rows, n) == Ok::<Grid, FenError>(rows_filled(grid, n)),
    decreases n,
{
    if n <= 0 {
        assert(rows_filled(grid, 0) =~= empty_grid());
    } else {
        lemma_read_rows(grid, rows, n - 1);
        let base = rows_filled(grid, n - 1);
        assert forall|c: int| 0 <= c < 8 implies (#[trigger] at(base, n - 1, c)).is_none() by {
            assert(base[cell(n - 1, c)] == at(base, n - 1, c));
        }
        lemma_read_row(base, grid, n - 1);
        assert(rows[8 - n] == row_text(grid, n - 1));
        assert(row_filled(base, grid, n - 1, 8) =~= rows_filled(grid, n));
    }
}

/// The texts of the rows from row 7 down to `row`.
pub open spec fn row_texts(grid: Grid, row: int) -> Seq<Seq<char>> {
    Seq::new((8 - row) as nat, |j: int| row_text(grid, 7 - j))
}

/// The placement of the rows from row 7 down to `row` splits at `/` into the
/// texts of those rows, and holds no blank.
pub proof fn lemma_split_rows(grid: Grid, row: int)
    requires
        grid.len() == 64,
        0 <= row <= 7,
    ensures
        split(rows_text(grid, row), '/') == row_texts(grid, row),
        free_of(rows_text(grid, row), ' '),
    decreases 7 - row,
{
    lemma_read_row(empty_grid(), grid, row);
    if row >= 7 {
        lemma_split_whole(row_text(grid, 7), '/');
        assert(seq![row_text(grid, 7)] =~= row_texts(grid, 7));
    } else {
        lemma_split_rows(grid, row + 1);
        lemma_split_last(rows_text(grid, row + 1), row_text(grid, row), '/');
        assert(row_texts(grid, row + 1).push(row_text(grid, row)) =~= row_texts(grid, row));
    }
}

/// Reading the placement of a board gives the board, and the placement holds
/// no blank.
pub proof fn lemma_read_placement(grid: Grid)
    requires
        grid.len() == 64,
    ensures
        parse_placement(placement_text(grid)) == Ok::<Grid, FenError>(grid),
        free_of(placement_text(grid), ' '),
{
    lemma_split_rows(grid, 0);
    let rows = row_texts(grid, 0);
    assert forall|r: int| 0 <= r < 8 implies rows[7 - r] == #[trigger] row_text(grid, r) by {}
    lemma_read_rows(grid, rows, 8);
    assert(rows_filled(grid, 8) =~= grid);
}

/// Reading one more castling letter grants one more right.
pub proof fn lemma_grant_one_more(text: Seq<char>, c: char)
    requires
        is_castle_letter(c),
    ensures
        grant_all(text.push(c)) == match grant_all(text) {
            Some(rights) => Some(grant(rights, c)),
            None => None,
        },
{
    assert(text.push(c).drop_last() =~= text);
}

/// Reading the castling field of a pair of rights gives the rights, and the
/// field holds no blank.
pub proof fn lemma_read_castling(rights: Seq<CastleRights>)
    requires
        rights.len() == 2,
    ensures
        parse_castling(castling_text(rights)) == Ok::<Seq<CastleRights>, FenError>(rights),
        free_of(castling_text(rights), ' '),
{
    let none = Seq::<char>::empty();
    let first = right_text(rights[1].kingside, 'K');
    let second = first + right_text(rights[1].queenside, 'Q');
    let third = second + right_text(rights[0].kingside, 'k');
    let fourth = third + right_text(rights[0].queenside, 'q');
    assert(grant_all(none) == Some(no_rights()));
    if rights[1].kingside {
        assert(first =~= none.push('K'));
        lemma_grant_one_more(none, 'K');
    }
    if rights[1].queenside {
        assert(second =~= first.push('Q'));
        lemma_grant_one_more(first, 'Q');
    } else {
        assert(second =~= first);
    }
    if rights[0].kingside {
        assert(third =~= second.push('k'));
        lemma_grant_one_more(second, 'k');
    } else {
        assert(third =~= second);
    }
    if rights[0].queenside {
        assert(fourth =~= third.push('q'));
        lemma_grant_one_more(third, 'q');
    } else {
        assert(fourth =~= third);
    }
    let granted = grant_all(fourth);
    assert(granted is Some);
    assert(granted->0 =~= rights);
    if fourth.len() > 0 {
        assert(fourth[0] != '-');
    }
}

/// Reading the en-passant field of a target that fits the board gives the
/// target, and the field holds no blank.
pub proof fn lemma_read_en_passant(target: Option<Position>, grid: Grid, turn: PieceColor)
    requires
        target matches Some(p) ==> p.valid() && en_passant_fits(grid, turn, p),
    ensures
        parse_en_passant(en_passant_text(target), grid, turn) == Ok::<Option<Position>, FenError>(
            target,
        ),
        free_of(en_passant_text(target), ' '),
{
    match target {
        Some(p) => {
            lemma_square_name_round_trip(p);
            assert(p.name().len() == 2);
        },
        None => {},
    }
}

/// A position that can be written and read again: a whole board, rights for
/// both sides, and an en-passant target, if there is one, that fits the
/// board.
pub open spec fn writable(s: GameState) -> bool {
    &&& s.grid.len() == 64
    &&& s.rights.len() == 2
    &&& s.en_passant matches Some(p) ==> p.valid() && en_passant_fits(s.grid, s.turn, p)
}

/// What was written is read back: the four fields that are written for a
/// position, followed by two clocks, are read as that position with no move
/// counted; and writing what was read gives the four fields again.
pub proof fn lemma_fen_round_trip(s: GameState, half_moves: Seq<char>, full_moves: Seq<char>)
    requires
        writable(s),
        is_number(half_moves),
        is_number(full_moves),
    ensures
        parse_fen(fen_text(s) + seq![' '] + half_moves + seq![' '] + full_moves) == Ok::<
            GameState,
            FenError,
        >(GameState { half_moves: 0, ..s }),
        fen_text(GameState { half_moves: 0, ..s }) == fen_text(s),
{
    let blank = seq![' '];
    let placement = placement_text(s.grid);
    let turn = seq![s.turn.spec_to_char()];
    let castling = castling_text(s.rights);
    let target = en_passant_text(s.en_passant);
    lemma_read_placement(s.grid);
    lemma_read_castling(s.rights);
    lemma_read_en_passant(s.en_passant, s.grid, s.turn);
    let one = placement;
    let two = one + blank + turn;
    let three = two + blank + castling;
    let four = three + blank + target;
    let five = four + blank + half_moves;
    let six = five + blank + full_moves;
    assert(four =~= fen_text(s));
    assert(six =~= fen_text(s) + blank + half_moves + blank + full_moves);
    lemma_split_whole(one, ' ');
    lemma_split_last(one, turn, ' ');
    lemma_split_last(two, castling, ' ');
    lemma_split_last(three, target, ' ');
    lemma_split_last(four, half_moves, ' ');
    lemma_split_last(five, full_moves, ' ');
    let fields = split(six, ' ');
    assert(fields =~= seq![placement, turn, castling, target, half_moves, full_moves]);
    assert(parse_turn(turn) == Ok::<PieceColor, FenError>(s.turn));
    assert(parse_rest(fields, s.grid) == Ok::<GameState, FenError>(
        GameState { half_moves: 0, ..s },
    ));
}

/// The position after the moves of `line` have been made from the start of a
/// game.
pub open spec fn played(line: Seq<ChessMove>) -> GameState
    decreases line.len(),
{
    if line.len() == 0 {
        initial_state()
    } else {
        apply(played(line.drop_last()), line.last())
    }
}

/// Every move of `line` is legal in the position in which it is made.
pub open spec fn legal_line(line: Seq<ChessMove>) -> bool
    decreases line.len(),
{
    line.len() == 0 || (legal_line(line.drop_last()) && legal_moves(
        played(line.drop_last()),
    ).contains(line.last()))
}

/// Every position that is reached from the start by legal moves is
/// settled.
pub proof fn lemma_reached_positions_are_settled(line: Seq<ChessMove>)
    requires
        legal_line(line),
    ensures
        settled(played(line)),
    decreases line.len(),
{
    if line.len() == 0 {
        lemma_start_is_settled();
    } else {
        lemma_reached_positions_are_settled(line.drop_last());
        lemma_legal_move_keeps_settled(played(line.drop_last()), line.last());
    }
}

/// Every position that is reached from the start by legal moves is read
/// back from what is written for it: placement, side to move, castling
/// rights and en-passant target come back as they were.
pub proof fn lemma_reached_positions_round_trip(
    line: Seq<ChessMove>,
    half_moves: Seq<char>,
    full_moves: Seq<char>,
)
    requires
        legal_line(line),
        is_number(half_moves),
        is_number(full_moves),
    ensures
        parse_fen(fen_text(played(line)) + seq![' '] + half_moves + seq![' '] + full_moves) == Ok::<
            GameState,
            FenError,
        >(GameState { half_moves: 0, ..played(line) }),
        fen_text(GameState { half_moves: 0, ..played(line) }) == fen_text(played(line)),
{
    lemma_reached_positions_are_settled(line);
    lemma_fen_round_trip(played(line), half_moves, full_moves);
}

/// A row that is read describes no more than eight squares.
pub proof fn lemma_row_stays_on_the_board(grid: Grid, row: int, text: Seq<char>)
    ensures
        place_row(grid, row, text) matches Ok(state) ==> 0 <= state.column <= 8,
    decreases text.len(),
{
    if text.len() > 0 {
        lemma_row_stays_on_the_board(grid, row, text.drop_last());
    }
}

/// A whole row that is read describes exactly eight squares.
pub proof fn lemma_row_describes_eight_squares(grid: Grid, row: int, text: Seq<char>)
    requires
        place_full_row(grid, row, text) is Ok,
    ensures
        place_row(grid, row, text) matches Ok(state) && state.column == 8,
{
    lemma_row_stays_on_the_board(grid, row, text);
}

} // verus!
