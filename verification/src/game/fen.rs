//! Forsyth-Edwards notation: reading a position from it and writing one in it.

use vstd::prelude::*;
use super::board::{at, empty_grid, put, Board, Grid};
use super::piece::{Piece, PieceColor, PieceType};
use super::position::{parse_square, square, Position};
use super::order::{lemma_start_is_orderly, orderly};
use super::rules::GameState;
use super::{CastleRights, Game};
use crate::text::{chars_of, string_of};

verus! {

/// Why a text is not a position in Forsyth-Edwards notation.
#[derive(Clone, Copy, PartialEq, Eq, Debug)]
pub enum FenError {
    /// The text does not have six fields separated by single spaces.
    FieldCount,
    /// The placement does not have eight rows separated by `/`.
    RowCount,
    /// A row of the placement describes more than eight squares: it goes on
    /// after its eight squares are filled, or a digit reaches beyond the
    /// eighth. The row is counted from White's home rank, which is row 0.
    RowTooLong(usize),
    /// A row of the placement ends before its eight squares are filled.
    RowTooShort(usize),
    /// A character of the placement is neither a digit nor a piece letter.
    InvalidSquare(char),
    /// The side to move is neither `w` nor `b`.
    InvalidTurn,
    /// The castling field is empty, longer than four characters, or holds a
    /// character other than `K`, `Q`, `k`, `q`.
    InvalidCastling,
    /// The en-passant field is neither `-` nor the name of a square.
    EnPassantSquare,
    /// The en-passant square is not on the rank behind a pawn that the side
    /// not to move could just have advanced two steps.
    EnPassantMismatch,
    /// The half-move clock is not a number.
    HalfMoveClock,
    /// The full-move counter is not a number.
    FullMoveCounter,
}

/// The pieces of `s` between the occurrences of `separator`, in order. A
/// text without the separator is one piece; two separators in a row enclose
/// an empty piece.
pub open spec fn split(s: Seq<char>, separator: char) -> Seq<Seq<char>>
    decreases s.len(),
{
    if s.len() == 0 {
        seq![Seq::<char>::empty()]
    } else {
        let init = split(s.drop_last(), separator);
        if s.last() == separator {
            init.push(Seq::<char>::empty())
        } else {
            init.update(init.len() - 1, init.last().push(s.last()))
        }
    }
}

/// A decimal digit.
pub open spec fn is_digit(c: char) -> bool {
    '0' <= c && c <= '9'
}

/// The value of a decimal digit.
pub open spec fn digit_value(c: char) -> int {
    c as u8 - 48
}

/// A text that is a number: one decimal digit or more, and nothing else.
pub open spec fn is_number(s: Seq<char>) -> bool {
    s.len() > 0 && forall|i: int| 0 <= i < s.len() ==> is_digit(#[trigger] s[i])
}

/// The state of reading one row of the placement: the grid filled so far and
/// the column that comes next.
pub struct RowState {
    pub grid: Grid,
    pub column: int,
}

/// Reads the characters of `text` into row `row` of `grid` from column 0 on. A
/// digit leaves that many squares as they are, a piece letter fills one. The
/// row is too long as soon as a character follows the eighth square or a
/// digit reaches beyond it.
pub open spec fn place_row(grid: Grid, row: int, text: Seq<char>) -> Result<RowState, FenError>
    decreases text.len(),
{
    if text.len() == 0 {
        Ok(RowState { grid, column: 0 })
    } else {
        match place_row(grid, row, text.drop_last()) {
            Err(e) => Err(e),
            Ok(state) => {
                let c = text.last();
                if state.column >= 8 {
                    Err(FenError::RowTooLong(row as usize))
                } else if is_digit(c) {
                    if state.column + digit_value(c) > 8 {
                        Err(FenError::RowTooLong(row as usize))
                    } else {
                        Ok(RowState { grid: state.grid, column: state.column + digit_value(c) })
                    }
                } else {
                    match Piece::spec_get_piece(c) {
                        Some(piece) => Ok(
                            RowState {
                                grid: put(state.grid, square(row, state.column), Some(piece)),
                                column: state.column + 1,
                            },
                        ),
                        None => Err(FenError::InvalidSquare(c)),
                    }
                }
            },
        }
    }
}

/// Reads one whole row: as `place_row`, and the row has to fill its eight
/// squares, neither more nor less.
pub open spec fn place_full_row(grid: Grid, row: int, text: Seq<char>) -> Result<Grid, FenError> {
    match place_row(grid, row, text) {
        Err(e) => Err(e),
        Ok(state) => if state.column < 8 {
            Err(FenError::RowTooShort(row as usize))
        } else {
            Ok(state.grid)
        },
    }
}

/// Reads the rows 0 to `n - 1` of the board from the eight rows of a
/// placement, which lists the highest row first.
pub open spec fn place_rows(rows: Seq<Seq<char>>, n: int) -> Result<Grid, FenError>
    decreases n,
{
    if n <= 0 {
        Ok(empty_grid())
    } else {
        match place_rows(rows, n - 1) {
            Err(e) => Err(e),
            Ok(grid) => place_full_row(grid, n - 1, rows[8 - n]),
        }
    }
}

/// Reads a placement field.
pub open spec fn parse_placement(field: Seq<char>) -> Result<Grid, FenError> {
    let rows = split(field, '/');
    if rows.len() != 8 {
        Err(FenError::RowCount)
    } else {
        place_rows(rows, 8)
    }
}

/// Reads a side-to-move field: `w` or `b`, and nothing else.
pub open spec fn parse_turn(field: Seq<char>) -> Result<PieceColor, FenError> {
    if field == seq!['b'] {
        Ok(PieceColor::Black)
    } else if field == seq!['w'] {
        Ok(PieceColor::White)
    } else {
        Err(FenError::InvalidTurn)
    }
}

/// No castling right for either side.
pub open spec fn no_rights() -> Seq<CastleRights> {
    seq![
        CastleRights { kingside: false, queenside: false },
        CastleRights { kingside: false, queenside: false },
    ]
}

/// The rights with the one that the letter `c` names added.
pub open spec fn grant(rights: Seq<CastleRights>, c: char) -> Seq<CastleRights> {
    if c == 'K' {
        rights.update(1, CastleRights { kingside: true, queenside: rights[1].queenside })
    } else if c == 'Q' {
        rights.update(1, CastleRights { kingside: rights[1].kingside, queenside: true })
    } else if c == 'k' {
        rights.update(0, CastleRights { kingside: true, queenside: rights[0].queenside })
    } else {
        rights.update(0, CastleRights { kingside: rights[0].kingside, queenside: true })
    }
}

/// A letter of the castling field.
pub open spec fn is_castle_letter(c: char) -> bool {
    c == 'K' || c == 'Q' || c == 'k' || c == 'q'
}

/// The rights that the letters of `text` name, if all of them are castling
/// letters.
pub open spec fn grant_all(text: Seq<char>) -> Option<Seq<CastleRights>>
    decreases text.len(),
{
    if text.len() == 0 {
        Some(no_rights())
    } else {
        match grant_all(text.drop_last()) {
            Some(rights) => if is_castle_letter(text.last()) {
                Some(grant(rights, text.last()))
            } else {
                None
            },
            None => None,
        }
    }
}

/// Reads a castling field: `-`, or one to four castling letters.
pub open spec fn parse_castling(field: Seq<char>) -> Result<Seq<CastleRights>, FenError> {
    if field == seq!['-'] {
        Ok(no_rights())
    } else if field.len() == 0 || field.len() > 4 {
        Err(FenError::InvalidCastling)
    } else {
        match grant_all(field) {
            Some(rights) => Ok(rights),
            None => Err(FenError::InvalidCastling),
        }
    }
}

/// The en-passant target `p` fits the board: it lies on the third rank as
/// the side not to move sees it, and that side's pawn stands right before it.
pub open spec fn en_passant_fits(grid: Grid, turn: PieceColor, p: Position) -> bool {
    match turn {
        PieceColor::Black => p.row == 2 && at(grid, 3, p.column as int) == Some(
            Piece { piece_type: PieceType::Pawn, color: PieceColor::White },
        ),
        PieceColor::White => p.row == 5 && at(grid, 4, p.column as int) == Some(
            Piece { piece_type: PieceType::Pawn, color: PieceColor::Black },
        ),
    }
}

/// Reads an en-passant field.
pub open spec fn parse_en_passant(field: Seq<char>, grid: Grid, turn: PieceColor) -> Result<
    Option<Position>,
    FenError,
> {
    if field == seq!['-'] {
        Ok(None)
    } else {
        match parse_square(field) {
            Err(_) => Err(FenError::EnPassantSquare),
            Ok(p) => if en_passant_fits(grid, turn, p) {
                Ok(Some(p))
            } else {
                Err(FenError::EnPassantMismatch)
            },
        }
    }
}

/// Reads the last five fields, the placement having given `grid`.
pub open spec fn parse_rest(fields: Seq<Seq<char>>, grid: Grid) -> Result<GameState, FenError> {
    match parse_turn(fields[1]) {
        Err(e) => Err(e),
        Ok(turn) => match parse_castling(fields[2]) {
            Err(e) => Err(e),
            Ok(rights) => match parse_en_passant(fields[3], grid, turn) {
                Err(e) => Err(e),
                Ok(en_passant) => if !is_number(fields[4]) {
                    Err(FenError::HalfMoveClock)
                } else if !is_number(fields[5]) {
                    Err(FenError::FullMoveCounter)
                } else {
                    Ok(GameState { grid, en_passant, turn, rights, half_moves: 0 })
                },
            },
        },
    }
}

/// The position that a text in Forsyth-Edwards notation describes: six
/// fields separated by single spaces, namely the placement, the side to
/// move, the castling rights, the en-passant target and the two clocks. The
/// clocks have to be numbers and are otherwise ignored: the position starts
/// with no moves counted.
pub open spec fn parse_fen(s: Seq<char>) -> Result<GameState, FenError> {
    let fields = split(s, ' ');
    if fields.len() != 6 {
        Err(FenError::FieldCount)
    } else {
        match parse_placement(fields[0]) {
            Err(e) => Err(e),
            Ok(grid) => parse_rest(fields, grid),
        }
    }
}

/// The kind of piece that starts on the back rank in the given column.
pub open spec fn back_rank(column: int) -> PieceType {
    if column == 0 || column == 7 {
        PieceType::Rook
    } else if column == 1 || column == 6 {
        PieceType::Knight
    } else if column == 2 || column == 5 {
        PieceType::Bishup
    } else if column == 3 {
        PieceType::Queen
    } else {
        PieceType::King
    }
}

/// What stands on (row, column) when the game starts.
pub open spec fn initial_piece(row: int, column: int) -> Option<Piece> {
    if row == 0 {
        Some(Piece { piece_type: back_rank(column), color: PieceColor::White })
    } else if row == 1 {
        Some(Piece { piece_type: PieceType::Pawn, color: PieceColor::White })
    } else if row == 6 {
        Some(Piece { piece_type: PieceType::Pawn, color: PieceColor::Black })
    } else if row == 7 {
        Some(Piece { piece_type: back_rank(column), color: PieceColor::Black })
    } else {
        None
    }
}

/// The board when the game starts.
pub open spec fn initial_grid() -> Grid {
    Seq::new(64, |i: int| initial_piece(i / 8, i % 8))
}

/// The position when the game starts: White to move, every castling right
/// held, no en-passant target, no move counted.
pub open spec fn initial_state() -> GameState {
    GameState {
        grid: initial_grid(),
        en_passant: None,
        turn: PieceColor::White,
        rights: seq![
            CastleRights { kingside: true, queenside: true },
            CastleRights { kingside: true, queenside: true },
        ],
        half_moves: 0,
    }
}

/// The text of a row of the board as far as it is settled after the first
/// `n` columns: the pieces, and the runs of empty squares between them as
/// digits. The run that is still open is not part of it.
pub open spec fn row_text_upto(grid: Grid, row: int, n: int) -> Seq<char>
    decreases n,
{
    if n <= 0 {
        Seq::empty()
    } else {
        match at(grid, row, n - 1) {
            Some(piece) => row_text_upto(grid, row, n - 1) + run_text(open_run(grid, row, n - 1))
                + seq![piece.spec_to_char()],
            None => row_text_upto(grid, row, n - 1),
        }
    }
}

/// The number of empty squares that end the first `n` columns of a row.
pub open spec fn open_run(grid: Grid, row: int, n: int) -> int
    decreases n,
{
    if n <= 0 {
        0
    } else {
        match at(grid, row, n - 1) {
            Some(piece) => 0,
            None => open_run(grid, row, n - 1) + 1,
        }
    }
}

/// A run of empty squares as text: its length as a digit, nothing for an
/// empty run.
pub open spec fn run_text(run: int) -> Seq<char> {
    if run > 0 {
        seq![(run + 48) as u8 as char]
    } else {
        Seq::empty()
    }
}

/// The text of a row of the board.
pub open spec fn row_text(grid: Grid, row: int) -> Seq<char> {
    row_text_upto(grid, row, 8) + run_text(open_run(grid, row, 8))
}

/// The text of the rows from row 7 down to `row`, separated by `/`.
pub open spec fn rows_text(grid: Grid, row: int) -> Seq<char>
    decreases 7 - row,
{
    if row >= 7 {
        row_text(grid, 7)
    } else {
        rows_text(grid, row + 1) + seq!['/'] + row_text(grid, row)
    }
}

/// The placement field of a board: the rows from the highest down.
pub open spec fn placement_text(grid: Grid) -> Seq<char> {
    rows_text(grid, 0)
}

/// The letter of a right that is held, nothing for one that is not.
pub open spec fn right_text(held: bool, letter: char) -> Seq<char> {
    if held {
        seq![letter]
    } else {
        Seq::empty()
    }
}

/// The castling field of the rights: White's letters, then Black's, or `-`
/// if no right is held.
pub open spec fn castling_text(rights: Seq<CastleRights>) -> Seq<char> {
    let letters = right_text(rights[1].kingside, 'K') + right_text(rights[1].queenside, 'Q')
        + right_text(rights[0].kingside, 'k') + right_text(rights[0].queenside, 'q');
    if letters.len() == 0 {
        seq!['-']
    } else {
        letters
    }
}

/// The en-passant field of a target.
pub open spec fn en_passant_text(target: Option<Position>) -> Seq<char> {
    match target {
        Some(p) => p.name(),
        None => seq!['-'],
    }
}

/// The first four fields of the position in Forsyth-Edwards notation:
/// placement, side to move, castling rights and en-passant target.
pub open spec fn fen_text(s: GameState) -> Seq<char> {
    placement_text(s.grid) + seq![' ', s.turn.spec_to_char(), ' '] + castling_text(s.rights)
        + seq![' '] + en_passant_text(s.en_passant)
}

/// The views of the texts of `v`.
pub open spec fn texts(v: Seq<Vec<char>>) -> Seq<Seq<char>> {
    Seq::new(v.len(), |i: int| v[i]@)
}

/// The pieces of `chars` between the occurrences of `separator`.
pub fn split_chars(chars: &Vec<char>, separator: char) -> (r: Vec<Vec<char>>)
    ensures
        texts(r@) == split(chars@, separator),
{
    let mut done: Vec<Vec<char>> = Vec::new();
    let mut current: Vec<char> = Vec::new();
    let mut i: usize = 0;
    while i < chars.len()
        invariant
            i <= chars.len(),
            texts(done@).push(current@) == split(chars@.subrange(0, i as int), separator),
        decreases chars.len() - i,
    {
        let ghost prefix = chars@.subrange(0, i as int);
        let ghost next = chars@.subrange(0, i + 1);
        assert(next.drop_last() =~= prefix);
        let ghost before = texts(done@).push(current@);
        let c = chars[i];
        if c == separator {
            done.push(current);
            current = Vec::new();
            assert(texts(done@).push(current@) =~= before.push(Seq::<char>::empty()));
        } else {
            current.push(c);
            assert(texts(done@).push(current@) =~= before.update(
                before.len() - 1,
                before.last().push(c),
            ));
        }
        i = i + 1;
    }
    assert(chars@.subrange(0, i as int) =~= chars@);
    let ghost before = texts(done@).push(current@);
    done.push(current);
    assert(texts(done@) =~= before);
    done
}

/// Whether `text` is a number.
pub fn check_number(text: &Vec<char>) -> (r: bool)
    ensures
        r == is_number(text@),
{
    if text.len() == 0 {
        return false;
    }
    let mut i: usize = 0;
    while i < text.len()
        invariant
            i <= text.len(),
            forall|j: int| 0 <= j < i ==> is_digit(#[trigger] text@[j]),
        decreases text.len() - i,
    {
        let c = text[i];
        if c < '0' || c > '9' {
            return false;
        }
        i = i + 1;
    }
    true
}

impl Game {
    /// The standard starting position, White to move.
    pub fn new() -> (g: Game)
        ensures
            g@ == initial_state(),
            g.valid(),
            orderly(g@),
    {
        proof {
            lemma_start_is_orderly();
        }
        let mut board = Board::default();
        let mut column: usize = 0;
        while column < 8
            invariant
                column <= 8,
                board@.len() == 64,
                forall|i: int|
                    0 <= i < 64 ==> #[trigger] board@[i] == (if i % 8 < column {
                        initial_piece(i / 8, i % 8)
                    } else {
                        None
                    }),
            decreases 8 - column,
        {
            let kind = if column == 0 || column == 7 {
                PieceType::Rook
            } else if column == 1 || column == 6 {
                PieceType::Knight
            } else if column == 2 || column == 5 {
                PieceType::Bishup
            } else if column == 3 {
                PieceType::Queen
            } else {
                PieceType::King
            };
            board.add_piece(
                Piece { piece_type: kind, color: PieceColor::White },
                &Position { row: 0, column },
            );
            board.add_piece(
                Piece { piece_type: PieceType::Pawn, color: PieceColor::White },
                &Position { row: 1, column },
            );
            board.add_piece(
                Piece { piece_type: PieceType::Pawn, color: PieceColor::Black },
                &Position { row: 6, column },
            );
            board.add_piece(
                Piece { piece_type: kind, color: PieceColor::Black },
                &Position { row: 7, column },
            );
            column = column + 1;
        }
        let all = CastleRights { kingside: true, queenside: true };
        let g = Game {
            board,
            en_passant: None,
            turn: PieceColor::White,
            castle_rights: [all, all],
            half_moves: 0,
        };
        proof {
            assert(board@ =~= initial_grid());
            assert(g.castle_rights@ =~= initial_state().rights);
        }
        g
    }

    /// Reads a position in Forsyth-Edwards notation.
    pub fn from_fen(fen_str: &str) -> (r: Result<Game, FenError>)
        ensures
            match parse_fen(fen_str@) {
                Ok(state) => r matches Ok(g) && g@ == state && g.valid(),
                Err(e) => r == Err::<Game, FenError>(e),
            },
    {
        let chars = chars_of(fen_str);
        let fields = split_chars(&chars, ' ');
        assert(texts(fields@).len() == fields@.len());
        if fields.len() != 6 {
            return Err(FenError::FieldCount);
        }
        assert(forall|i: int| 0 <= i < 6 ==> texts(fields@)[i] == #[trigger] fields@[i]@);
        let mut result = Game::default();
        match Self::read_placement(&fields[0]) {
            Err(e) => {
                return Err(e);
            },
            Ok(board) => {
                result.board = board;
            },
        }
        match Self::read_turn(&fields[1]) {
            Err(e) => {
                return Err(e);
            },
            Ok(turn) => {
                result.turn = turn;
            },
        }
        match Self::read_castling(&fields[2]) {
            Err(e) => {
                return Err(e);
            },
            Ok(rights) => {
                result.castle_rights = rights;
            },
        }
        match Self::read_en_passant(&fields[3], &result.board, result.turn) {
            Err(e) => {
                return Err(e);
            },
            Ok(en_passant) => {
                result.en_passant = en_passant;
            },
        }
        if !check_number(&fields[4]) {
            return Err(FenError::HalfMoveClock);
        }
        if !check_number(&fields[5]) {
            return Err(FenError::FullMoveCounter);
        }
        Ok(result)
    }

    /// Writes placement, side to move, castling rights and en-passant target
    /// in Forsyth-Edwards notation. The clocks are not written.
    pub fn to_fen(&self) -> (r: String)
        requires
            self.valid(),
        ensures
            r@ == fen_text(self@),
    {
        let mut out: Vec<char> = Vec::new();
        self.push_placement(&mut out);
        assert(out@ =~= placement_text(self.board@));
        out.push(' ');
        out.push(self.turn.to_char());
        out.push(' ');
        assert(out@ =~= placement_text(self.board@) + seq![' ', self.turn.spec_to_char(), ' ']);
        self.push_castling(&mut out);
        out.push(' ');
        let ghost head = out@;
        match self.en_passant {
            Some(p) => {
                p.push_name(&mut out);
            },
            None => {
                out.push('-');
            },
        }
        assert(out@ =~= head + en_passant_text(self.en_passant));
        string_of(&out)
    }

    /// Appends the placement field.
    fn push_placement(&self, out: &mut Vec<char>)
        ensures
            final(out)@ == old(out)@ + placement_text(self.board@),
    {
        self.push_row(7, out);
        let mut row: usize = 7;
        while row > 0
            invariant
                row <= 7,
                out@ == old(out)@ + rows_text(self.board@, row as int),
            decreases row,
        {
            let ghost before = out@;
            row = row - 1;
            out.push('/');
            self.push_row(row, out);
            assert(out@ =~= old(out)@ + rows_text(self.board@, row as int));
        }
    }

    /// Appends the castling field.
    fn push_castling(&self, out: &mut Vec<char>)
        ensures
            final(out)@ == old(out)@ + castling_text(self.castle_rights@),
    {
        let white = self.castle_rights[1];
        let black = self.castle_rights[0];
        if white.kingside {
            out.push('K');
        }
        if white.queenside {
            out.push('Q');
        }
        if black.kingside {
            out.push('k');
        }
        if black.queenside {
            out.push('q');
        }
        if !white.kingside && !white.queenside && !black.kingside && !black.queenside {
            out.push('-');
        }
        assert(out@ =~= old(out)@ + castling_text(self.castle_rights@));
    }

    /// Appends the text of one row of the board.
    fn push_row(&self, row: usize, out: &mut Vec<char>)
        requires
            row <= 7,
        ensures
            final(out)@ == old(out)@ + row_text(self.board@, row as int),
    {
        let mut run: u8 = 0;
        let mut column: usize = 0;
        while column < 8
            invariant
                column <= 8,
                row <= 7,
                run == open_run(self.board@, row as int, column as int),
                run <= column,
                out@ == old(out)@ + row_text_upto(self.board@, row as int, column as int),
            decreases 8 - column,
        {
            let ghost before = out@;
            match self.board.piece(row, column) {
                Some(piece) => {
                    if run > 0 {
                        out.push((run + 48) as char);
                        run = 0;
                    }
                    out.push(piece.to_char());
                },
                None => {
                    run = run + 1;
                },
            }
            column = column + 1;
            assert(out@ =~= old(out)@ + row_text_upto(self.board@, row as int, column as int));
        }
        if run > 0 {
            out.push((run + 48) as char);
        }
        assert(out@ =~= old(out)@ + row_text(self.board@, row as int));
    }

    /// Reads a placement field.
    fn read_placement(field: &Vec<char>) -> (r: Result<Board, FenError>)
        ensures
            match parse_placement(field@) {
                Ok(grid) => r matches Ok(board) && board@ == grid,
                Err(e) => r == Err::<Board, FenError>(e),
            },
    {
        let rows = split_chars(field, '/');
        assert(texts(rows@).len() == rows@.len());
        if rows.len() != 8 {
            return Err(FenError::RowCount);
        }
        assert(forall|i: int| 0 <= i < 8 ==> texts(rows@)[i] == #[trigger] rows@[i]@);
        let mut board = Board::default();
        let mut row: usize = 0;
        while row < 8
            invariant
                row <= 8,
                rows@.len() == 8,
                texts(rows@) == split(field@, '/'),
                forall|i: int| 0 <= i < 8 ==> texts(rows@)[i] == #[trigger] rows@[i]@,
                place_rows(texts(rows@), row as int) == Ok::<Grid, FenError>(board@),
            decreases 8 - row,
        {
            let text = &rows[7 - row];
            let ghost start = board@;
            let mut column: usize = 0;
            let mut i: usize = 0;
            while i < text.len()
                invariant
                    i <= text.len(),
                    row < 8,
                    column <= 8,
                    rows@.len() == 8,
                    texts(rows@) == split(field@, '/'),
                    texts(rows@)[7 - row] == text@,
                    place_rows(texts(rows@), row as int) == Ok::<Grid, FenError>(start),
                    place_row(start, row as int, text@.subrange(0, i as int)) == Ok::<
                        RowState,
                        FenError,
                    >(RowState { grid: board@, column: column as int }),
                decreases text.len() - i,
            {
                let ghost next = text@.subrange(0, i + 1);
                assert(next.drop_last() =~= text@.subrange(0, i as int));
                let c = text[i];
                if column >= 8 {
                    proof {
                        assert(place_row(start, row as int, next) == Err::<RowState, FenError>(
                            FenError::RowTooLong(row),
                        ));
                        lemma_place_row_error(start, row as int, text@, i + 1);
                        assert(place_rows(texts(rows@), row + 1) == Err::<Grid, FenError>(
                            FenError::RowTooLong(row),
                        ));
                        lemma_place_rows_error(texts(rows@), row + 1);
                    }
                    return Err(FenError::RowTooLong(row));
                }
                if '0' <= c && c <= '9' {
                    let run = (c as u8 - 48) as usize;
                    if column + run > 8 {
                        proof {
                            assert(place_row(start, row as int, next) == Err::<
                                RowState,
                                FenError,
                            >(FenError::RowTooLong(row)));
                            lemma_place_row_error(start, row as int, text@, i + 1);
                            assert(place_rows(texts(rows@), row + 1) == Err::<Grid, FenError>(
                                FenError::RowTooLong(row),
                            ));
                            lemma_place_rows_error(texts(rows@), row + 1);
                        }
                        return Err(FenError::RowTooLong(row));
                    }
                    column = column + run;
                } else {
                    match Piece::get_piece(c) {
                        Some(piece) => {
                            board.add_piece(piece, &Position { row, column });
                            column = column + 1;
                        },
                        None => {
                            proof {
                                assert(place_row(start, row as int, next) == Err::<
                                    RowState,
                                    FenError,
                                >(FenError::InvalidSquare(c)));
                                lemma_place_row_error(start, row as int, text@, i + 1);
                                assert(place_rows(texts(rows@), row + 1) == Err::<Grid, FenError>(
                                    FenError::InvalidSquare(c),
                                ));
                                lemma_place_rows_error(texts(rows@), row + 1);
                            }
                            return Err(FenError::InvalidSquare(c));
                        },
                    }
                }
                i = i + 1;
            }
            assert(text@.subrange(0, i as int) =~= text@);
            if column < 8 {
                proof {
                    lemma_place_rows_error(texts(rows@), row + 1);
                }
                return Err(FenError::RowTooShort(row));
            }
            row = row + 1;
        }
        Ok(board)
    }

    /// Reads a side-to-move field.
    fn read_turn(field: &Vec<char>) -> (r: Result<PieceColor, FenError>)
        ensures
            r == parse_turn(field@),
    {
        if field.len() == 1 && field[0] == 'b' {
            assert(field@ =~= seq!['b']);
            Ok(PieceColor::Black)
        } else if field.len() == 1 && field[0] == 'w' {
            assert(field@ =~= seq!['w']);
            Ok(PieceColor::White)
        } else {
            Err(FenError::InvalidTurn)
        }
    }

    /// Reads a castling field.
    fn read_castling(field: &Vec<char>) -> (r: Result<[CastleRights; 2], FenError>)
        ensures
            match parse_castling(field@) {
                Ok(rights) => r matches Ok(array) && array@ == rights,
                Err(e) => r == Err::<[CastleRights; 2], FenError>(e),
            },
    {
        let none = CastleRights { kingside: false, queenside: false };
        let mut rights = [none, none];
        assert(rights@ =~= no_rights());
        if field.len() == 1 && field[0] == '-' {
            assert(field@ =~= seq!['-']);
            return Ok(rights);
        }
        if field.len() == 0 || field.len() > 4 {
            return Err(FenError::InvalidCastling);
        }
        let mut i: usize = 0;
        while i < field.len()
            invariant
                i <= field.len(),
                0 < field.len() <= 4,
                field@ != seq!['-'],
                grant_all(field@.subrange(0, i as int)) == Some(rights@),
            decreases field.len() - i,
        {
            let ghost next = field@.subrange(0, i + 1);
            assert(next.drop_last() =~= field@.subrange(0, i as int));
            let c = field[i];
            if c == 'K' {
                rights[1] = CastleRights { kingside: true, queenside: rights[1].queenside };
            } else if c == 'Q' {
                rights[1] = CastleRights { kingside: rights[1].kingside, queenside: true };
            } else if c == 'k' {
                rights[0] = CastleRights { kingside: true, queenside: rights[0].queenside };
            } else if c == 'q' {
                rights[0] = CastleRights { kingside: rights[0].kingside, queenside: true };
            } else {
                proof {
                    assert(grant_all(next) is None);
                    lemma_grant_all_error(field@, i + 1);
                }
                return Err(FenError::InvalidCastling);
            }
            i = i + 1;
        }
        assert(field@.subrange(0, i as int) =~= field@);
        Ok(rights)
    }

    /// Reads an en-passant field against the board and the side to move.
    fn read_en_passant(field: &Vec<char>, board: &Board, turn: PieceColor) -> (r: Result<
        Option<Position>,
        FenError,
    >)
        ensures
            r == parse_en_passant(field@, board@, turn),
            r matches Ok(Some(p)) ==> p.valid(),
    {
        if field.len() == 1 && field[0] == '-' {
            assert(field@ =~= seq!['-']);
            return Ok(None);
        }
        if field.len() != 2 || field[0] < 'a' || field[0] > 'h' || field[1] < '1' || field[1]
            > '8' {
            return Err(FenError::EnPassantSquare);
        }
        let p = Position { row: (field[1] as u8 - 49) as usize, column: (field[0] as u8 - 97) as usize };
        let fits = match turn {
            PieceColor::Black => p.row == 2 && match board.piece(3, p.column) {
                Some(piece) => piece.piece_type == PieceType::Pawn && piece.color
                    == PieceColor::White,
                None => false,
            },
            PieceColor::White => p.row == 5 && match board.piece(4, p.column) {
                Some(piece) => piece.piece_type == PieceType::Pawn && piece.color
                    == PieceColor::Black,
                None => false,
            },
        };
        if fits {
            Ok(Some(p))
        } else {
            Err(FenError::EnPassantMismatch)
        }
    }
}

/// An error met while reading a prefix of a row is the error of the whole
/// row.
pub proof fn lemma_place_row_error(grid: Grid, row: int, text: Seq<char>, n: int)
    requires
        0 <= n <= text.len(),
        place_row(grid, row, text.subrange(0, n)) is Err,
    ensures
        place_row(grid, row, text) == place_row(grid, row, text.subrange(0, n)),
    decreases text.len() - n,
{
    if n < text.len() {
        let longer = text.subrange(0, n + 1);
        assert(longer.drop_last() =~= text.subrange(0, n));
        lemma_place_row_error(grid, row, text, n + 1);
    } else {
        assert(text.subrange(0, n) =~= text);
    }
}

/// An error met in one of the first `n` rows is the error of the placement.
pub proof fn lemma_place_rows_error(rows: Seq<Seq<char>>, n: int)
    requires
        0 <= n <= 8,
        place_rows(rows, n) is Err,
    ensures
        place_rows(rows, 8) == place_rows(rows, n),
    decreases 8 - n,
{
    if n < 8 {
        lemma_place_rows_error(rows, n + 1);
    }
}

/// A letter that is no castling letter spoils the whole field.
pub proof fn lemma_grant_all_error(text: Seq<char>, n: int)
    requires
        0 <= n <= text.len(),
        grant_all(text.subrange(0, n)) is None,
    ensures
        grant_all(text) is None,
    decreases text.len() - n,
{
    if n < text.len() {
        let longer = text.subrange(0, n + 1);
        assert(longer.drop_last() =~= text.subrange(0, n));
        lemma_grant_all_error(text, n + 1);
    } else {
        assert(text.subrange(0, n) =~= text);
    }
}

} // verus!
