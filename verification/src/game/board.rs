//! The board of 8 by 8 squares: which piece stands where, and which squares
//! are attacked.

use vstd::prelude::*;
use super::piece::{Piece, PieceColor, PieceType};
use super::position::{on_board, square, Position};

verus! {

/// The mathematical board: 64 squares in row-major order, row 0 first.
pub type Grid = Seq<Option<Piece>>;

/// The place of (row, column) in a grid.
pub open spec fn cell(row: int, column: int) -> int {
    row * 8 + column
}

/// What stands on (row, column).
pub open spec fn at(grid: Grid, row: int, column: int) -> Option<Piece> {
    grid[cell(row, column)]
}

/// What stands on the square `p`.
pub open spec fn piece_at(grid: Grid, p: Position) -> Option<Piece> {
    at(grid, p.row as int, p.column as int)
}

/// The grid with the content of square `p` replaced.
pub open spec fn put(grid: Grid, p: Position, content: Option<Piece>) -> Grid {
    grid.update(cell(p.row as int, p.column as int), content)
}

/// The grid after whatever stands on `from` has been carried to `to`. An empty
/// `from` leaves the grid as it is.
pub open spec fn moved(grid: Grid, from: Position, to: Position) -> Grid {
    match piece_at(grid, from) {
        Some(piece) => put(put(grid, from, None), to, Some(piece)),
        None => grid,
    }
}

/// What a move from `from` to `to` takes off the board.
pub open spec fn captured(grid: Grid, from: Position, to: Position) -> Option<Piece> {
    match piece_at(grid, from) {
        Some(_) => piece_at(put(grid, from, None), to),
        None => None,
    }
}

/// The empty board.
pub open spec fn empty_grid() -> Grid {
    Seq::new(64, |i: int| None::<Piece>)
}

/// The first occupant met when walking from (row, column) in steps of
/// (d_row, d_column), with the number of steps it took when (row, column) is
/// `distance` steps from the start. `None` when the walk leaves the board first.
pub open spec fn ray_from(
    grid: Grid,
    row: int,
    column: int,
    d_row: int,
    d_column: int,
    distance: int,
) -> Option<(Piece, int)>
    decreases 8 - distance,
{
    if distance > 7 || !on_board(row, column) {
        None
    } else {
        match at(grid, row, column) {
            Some(piece) => Some((piece, distance)),
            None => ray_from(grid, row + d_row, column + d_column, d_row, d_column, distance + 1),
        }
    }
}

/// The first occupant seen from `p` in direction (d_row, d_column), and its
/// distance in steps. The null direction sees nothing.
pub open spec fn ray_hit(grid: Grid, p: Position, d_row: int, d_column: int) -> Option<
    (Piece, int),
> {
    if d_row == 0 && d_column == 0 {
        None
    } else {
        ray_from(grid, p.row + d_row, p.column + d_column, d_row, d_column, 1)
    }
}

/// The square of the first occupant met when walking from (row, column) in
/// steps of (d_row, d_column): where `ray_from` finds the occupant.
pub open spec fn ray_target(
    grid: Grid,
    row: int,
    column: int,
    d_row: int,
    d_column: int,
    distance: int,
) -> Option<Position>
    decreases 8 - distance,
{
    if distance > 7 || !on_board(row, column) {
        None
    } else {
        match at(grid, row, column) {
            Some(piece) => Some(square(row, column)),
            None => ray_target(grid, row + d_row, column + d_column, d_row, d_column, distance + 1),
        }
    }
}

/// The square of the first occupant seen from `p` in direction
/// (d_row, d_column).
pub open spec fn ray_hit_square(grid: Grid, p: Position, d_row: int, d_column: int) -> Option<
    Position,
> {
    if d_row == 0 && d_column == 0 {
        None
    } else {
        ray_target(grid, p.row + d_row, p.column + d_column, d_row, d_column, 1)
    }
}

/// The direction in which `color`'s pawns advance: +1 for White, -1 for Black.
pub open spec fn forward_step(color: PieceColor) -> int {
    match color {
        PieceColor::White => 1,
        PieceColor::Black => -1,
    }
}

/// An enemy knight of `color` stands on (row, column).
pub open spec fn enemy_knight_at(grid: Grid, row: int, column: int, color: PieceColor) -> bool {
    on_board(row, column) && at(grid, row, column) == Some(
        Piece { piece_type: PieceType::Knight, color: color.opposite() },
    )
}

/// Some enemy knight is a knight's jump away from `p`.
pub open spec fn knight_threat(grid: Grid, p: Position, color: PieceColor) -> bool {
    let r = p.row as int;
    let c = p.column as int;
    ||| enemy_knight_at(grid, r - 1, c - 2, color)
    ||| enemy_knight_at(grid, r - 1, c + 2, color)
    ||| enemy_knight_at(grid, r + 1, c - 2, color)
    ||| enemy_knight_at(grid, r + 1, c + 2, color)
    ||| enemy_knight_at(grid, r - 2, c - 1, color)
    ||| enemy_knight_at(grid, r - 2, c + 1, color)
    ||| enemy_knight_at(grid, r + 2, c - 1, color)
    ||| enemy_knight_at(grid, r + 2, c + 1, color)
}

/// The first occupant along the diagonal (d_row, d_column) from `p` attacks
/// `p`: an enemy queen or bishop at any distance, an enemy king next to `p`,
/// or an enemy pawn one step diagonally ahead of `p` as `color` sees it.
pub open spec fn diagonal_threat(
    grid: Grid,
    p: Position,
    d_row: int,
    d_column: int,
    color: PieceColor,
) -> bool {
    match ray_hit(grid, p, d_row, d_column) {
        Some((piece, distance)) => piece.color != color && (piece.piece_type == PieceType::Queen
            || piece.piece_type == PieceType::Bishup || (piece.piece_type == PieceType::Pawn
            && distance == 1 && d_row == forward_step(color)) || (piece.piece_type
            == PieceType::King && distance == 1)),
        None => false,
    }
}

/// The first occupant along the rank or file direction (d_row, d_column) from
/// `p` attacks `p`: an enemy queen or rook at any distance, or an enemy king
/// next to `p`.
pub open spec fn straight_threat(
    grid: Grid,
    p: Position,
    d_row: int,
    d_column: int,
    color: PieceColor,
) -> bool {
    match ray_hit(grid, p, d_row, d_column) {
        Some((piece, distance)) => piece.color != color && (piece.piece_type == PieceType::Queen
            || piece.piece_type == PieceType::Rook || (piece.piece_type == PieceType::King
            && distance == 1)),
        None => false,
    }
}

/// The square `p` is attacked by the enemy of `color`.
pub open spec fn attacked(grid: Grid, p: Position, color: PieceColor) -> bool {
    ||| knight_threat(grid, p, color)
    ||| diagonal_threat(grid, p, -1, -1, color)
    ||| diagonal_threat(grid, p, -1, 1, color)
    ||| diagonal_threat(grid, p, 1, -1, color)
    ||| diagonal_threat(grid, p, 1, 1, color)
    ||| straight_threat(grid, p, -1, 0, color)
    ||| straight_threat(grid, p, 1, 0, color)
    ||| straight_threat(grid, p, 0, -1, color)
    ||| straight_threat(grid, p, 0, 1, color)
}

/// The squares a piece of `color` can slide to along one direction, nearest
/// first, when (row, column) is the next square of the walk: the empty squares
/// up to the first occupant (left out when only captures are wanted), and the
/// occupant's square if it is an enemy.
pub open spec fn slide_from(
    grid: Grid,
    row: int,
    column: int,
    d_row: int,
    d_column: int,
    color: PieceColor,
    captures_only: bool,
    distance: int,
) -> Seq<Position>
    decreases 8 - distance,
{
    if distance > 7 || !on_board(row, column) {
        Seq::empty()
    } else {
        match at(grid, row, column) {
            Some(piece) => if piece.color != color {
                seq![square(row, column)]
            } else {
                Seq::empty()
            },
            None => (if captures_only {
                Seq::empty()
            } else {
                seq![square(row, column)]
            }) + slide_from(
                grid,
                row + d_row,
                column + d_column,
                d_row,
                d_column,
                color,
                captures_only,
                distance + 1,
            ),
        }
    }
}

/// The squares a piece of `color` on `p` can slide to in direction
/// (d_row, d_column), nearest first.
pub open spec fn slide(
    grid: Grid,
    p: Position,
    d_row: int,
    d_column: int,
    color: PieceColor,
    captures_only: bool,
) -> Seq<Position> {
    slide_from(grid, p.row + d_row, p.column + d_column, d_row, d_column, color, captures_only, 1)
}

/// The squares a rook of `color` on `p` can go to: down, up, left, right.
pub open spec fn rook_positions(grid: Grid, p: Position, color: PieceColor, captures_only: bool) -> Seq<
    Position,
> {
    slide(grid, p, -1, 0, color, captures_only) + slide(grid, p, 1, 0, color, captures_only)
        + slide(grid, p, 0, -1, color, captures_only) + slide(grid, p, 0, 1, color, captures_only)
}

/// The squares a bishop of `color` on `p` can go to, one diagonal after the
/// other.
pub open spec fn bishup_positions(grid: Grid, p: Position, color: PieceColor, captures_only: bool) -> Seq<
    Position,
> {
    slide(grid, p, -1, -1, color, captures_only) + slide(grid, p, -1, 1, color, captures_only)
        + slide(grid, p, 1, -1, color, captures_only) + slide(grid, p, 1, 1, color, captures_only)
}

/// A piece of `color` may land on (row, column): the square is on the board
/// and holds an enemy, or is empty and empty squares are wanted.
pub open spec fn can_land(grid: Grid, row: int, column: int, color: PieceColor, captures_only: bool) -> bool {
    on_board(row, column) && match at(grid, row, column) {
        Some(piece) => piece.color != color,
        None => !captures_only,
    }
}

/// The square (row, column) alone if a piece of `color` may land there, else
/// nothing.
pub open spec fn landing(grid: Grid, row: int, column: int, color: PieceColor, captures_only: bool) -> Seq<
    Position,
> {
    if can_land(grid, row, column, color, captures_only) {
        seq![square(row, column)]
    } else {
        Seq::empty()
    }
}

/// The eight knight jumps, in the order in which moves are listed.
pub open spec fn knight_offset(i: int) -> (int, int) {
    if i == 0 {
        (-1, -2)
    } else if i == 1 {
        (-1, 2)
    } else if i == 2 {
        (1, -2)
    } else if i == 3 {
        (1, 2)
    } else if i == 4 {
        (-2, -1)
    } else if i == 5 {
        (-2, 1)
    } else if i == 6 {
        (2, -1)
    } else {
        (2, 1)
    }
}

/// The landing squares of the first `n` knight jumps from `p`.
pub open spec fn knight_positions_upto(
    grid: Grid,
    p: Position,
    color: PieceColor,
    captures_only: bool,
    n: int,
) -> Seq<Position>
    decreases n,
{
    if n <= 0 {
        Seq::empty()
    } else {
        knight_positions_upto(grid, p, color, captures_only, n - 1) + landing(
            grid,
            p.row + knight_offset(n - 1).0,
            p.column + knight_offset(n - 1).1,
            color,
            captures_only,
        )
    }
}

/// The squares a knight of `color` on `p` can jump to.
pub open spec fn knight_positions(grid: Grid, p: Position, color: PieceColor, captures_only: bool) -> Seq<
    Position,
> {
    knight_positions_upto(grid, p, color, captures_only, 8)
}

/// The pieces of `color` on the squares from place `i` on, in board order,
/// each with its square.
pub open spec fn pieces_from(grid: Grid, color: PieceColor, i: int) -> Seq<(Position, PieceType)>
    decreases 64 - i,
{
    if i < 0 || i >= 64 {
        Seq::empty()
    } else {
        (match grid[i] {
            Some(piece) => if piece.color == color {
                seq![(square(i / 8, i % 8), piece.piece_type)]
            } else {
                Seq::empty()
            },
            None => Seq::empty(),
        }) + pieces_from(grid, color, i + 1)
    }
}

/// All pieces of `color`, row 0 first and within a row column 0 first.
pub open spec fn pieces_of(grid: Grid, color: PieceColor) -> Seq<(Position, PieceType)> {
    pieces_from(grid, color, 0)
}

/// The king of `color` stands on place `i`.
pub open spec fn is_king_at(grid: Grid, color: PieceColor, i: int) -> bool {
    grid[i] == Some(Piece { piece_type: PieceType::King, color })
}

/// The first square from place `i` on, in board order, that holds a king of
/// `color`.
pub open spec fn king_from(grid: Grid, color: PieceColor, i: int) -> Option<Position>
    decreases 64 - i,
{
    if i < 0 || i >= 64 {
        None
    } else if is_king_at(grid, color, i) {
        Some(square(i / 8, i % 8))
    } else {
        king_from(grid, color, i + 1)
    }
}

/// The square of `color`'s king: the first in board order if there are
/// several, `None` if there is none.
pub open spec fn king_of(grid: Grid, color: PieceColor) -> Option<Position> {
    king_from(grid, color, 0)
}

/// Where `king_of` finds a king there is one, it is the first, and the square
/// is on the board; where it finds none there is none.
pub proof fn lemma_king_of(grid: Grid, color: PieceColor)
    ensures
        match king_of(grid, color) {
            Some(k) => k.valid() && piece_at(grid, k) == Some(
                Piece { piece_type: PieceType::King, color },
            ) && forall|i: int| 0 <= i < cell(k.row as int, k.column as int) ==> !is_king_at(grid, color, i),
            None => forall|i: int| 0 <= i < 64 ==> !is_king_at(grid, color, i),
        },
{
    lemma_king_from(grid, color, 0);
}

/// What `king_from` finds from place `start` on.
proof fn lemma_king_from(grid: Grid, color: PieceColor, start: int)
    requires
        0 <= start <= 64,
    ensures
        match king_from(grid, color, start) {
            Some(k) => k.valid() && start <= cell(k.row as int, k.column as int) && piece_at(grid, k) == Some(
                Piece { piece_type: PieceType::King, color },
            ) && forall|i: int| start <= i < cell(k.row as int, k.column as int) ==> !is_king_at(grid, color, i),
            None => forall|i: int| start <= i < 64 ==> !is_king_at(grid, color, i),
        },
    decreases 64 - start,
{
    if start < 64 && !is_king_at(grid, color, start) {
        lemma_king_from(grid, color, start + 1);
    }
}


/// The board: 64 squares in row-major order, row 0 first, each empty or
/// holding one piece.
#[derive(Clone, Copy, PartialEq, Eq, Hash, Debug)]
pub struct Board {
    pub squares: [Option<Piece>; 64],
}

impl View for Board {
    type V = Grid;

    open spec fn view(&self) -> Grid {
        self.squares@
    }
}

impl Board {
    /// The empty board.
    pub fn default() -> (b: Board)
        ensures
            b@ == empty_grid(),
    {
        let b = Board { squares: [None;64] };
        assert(b@ =~= empty_grid());
        b
    }

    /// The piece on `position`, if there is one.
    pub fn get(&self, position: &Position) -> (r: Option<&Piece>)
        requires
            position.valid(),
        ensures
            r.is_some() == piece_at(self@, *position).is_some(),
            r matches Some(piece) ==> piece_at(self@, *position) == Some(*piece),
    {
        self.squares[position.row * 8 + position.column].as_ref()
    }

    /// The piece on (row, column), by value.
    pub fn piece(&self, row: usize, column: usize) -> (r: Option<Piece>)
        requires
            row <= 7,
            column <= 7,
        ensures
            r == at(self@, row as int, column as int),
    {
        self.squares[row * 8 + column]
    }

    /// Puts `piece` on `position` and returns what stood there.
    pub fn add_piece(&mut self, piece: Piece, position: &Position) -> (r: Option<Piece>)
        requires
            position.valid(),
        ensures
            r == piece_at(old(self)@, *position),
            final(self)@ == put(old(self)@, *position, Some(piece)),
    {
        let i = position.row * 8 + position.column;
        let prior = self.squares[i];
        self.squares[i] = Some(piece);
        prior
    }

    /// Empties `position` and returns what stood there.
    pub fn remove_piece(&mut self, position: &Position) -> (r: Option<Piece>)
        requires
            position.valid(),
        ensures
            r == piece_at(old(self)@, *position),
            final(self)@ == put(old(self)@, *position, None),
    {
        let i = position.row * 8 + position.column;
        let prior = self.squares[i];
        self.squares[i] = None;
        prior
    }

    /// Carries the piece on `from` to `to` and returns what it captured there.
    /// Nothing is checked: not whose piece it is, nor how it moves.
    pub fn make_move(&mut self, from: &Position, to: &Position) -> (r: Option<Piece>)
        requires
            from.valid(),
            to.valid(),
        ensures
            final(self)@ == moved(old(self)@, *from, *to),
            r == captured(old(self)@, *from, *to),
    {
        match self.remove_piece(from) {
            Some(piece) => self.add_piece(piece, to),
            None => {
                assert(self@ =~= old(self)@);
                None
            },
        }
    }

    /// The first occupant seen from `position` in direction (d_row, d_column),
    /// with its distance in steps.
    pub fn cast_ray(&self, position: &Position, d_row: isize, d_column: isize) -> (r: Option<
        (Piece, usize),
    >)
        requires
            position.valid(),
        ensures
            match ray_hit(self@, *position, d_row as int, d_column as int) {
                Some((piece, distance)) => r == Some((piece, distance as usize)) && 1 <= distance
                    <= 7,
                None => r.is_none(),
            },
    {
        if d_row == 0 && d_column == 0 {
            return None;
        }
        if d_row < -7 || d_row > 7 || d_column < -7 || d_column > 7 {
            return None;
        }
        let mut row: isize = position.row as isize + d_row;
        let mut column: isize = position.column as isize + d_column;
        let mut distance: usize = 1;
        while distance <= 7 && 0 <= row && row <= 7 && 0 <= column && column <= 7
            invariant
                1 <= distance <= 8,
                -7 <= d_row <= 7,
                -7 <= d_column <= 7,
                -64 <= row <= 64,
                -64 <= column <= 64,
                ray_hit(self@, *position, d_row as int, d_column as int) == ray_from(
                    self@,
                    row as int,
                    column as int,
                    d_row as int,
                    d_column as int,
                    distance as int,
                ),
            decreases 8 - distance,
        {
            match self.squares[(row * 8 + column) as usize] {
                Some(piece) => {
                    return Some((piece, distance));
                },
                None => {},
            }
            row = row + d_row;
            column = column + d_column;
            distance = distance + 1;
        }
        None
    }

    /// Whether `position` is attacked by the enemy of `player_color`.
    pub fn has_check(&self, position: &Position, player_color: &PieceColor) -> (r: bool)
        requires
            position.valid(),
        ensures
            r == attacked(self@, *position, *player_color),
    {
        let row = position.row as isize;
        let column = position.column as isize;
        let color = *player_color;
        if self.enemy_knight(row - 1, column - 2, color) || self.enemy_knight(
            row - 1,
            column + 2,
            color,
        ) || self.enemy_knight(row + 1, column - 2, color) || self.enemy_knight(
            row + 1,
            column + 2,
            color,
        ) || self.enemy_knight(row - 2, column - 1, color) || self.enemy_knight(
            row - 2,
            column + 1,
            color,
        ) || self.enemy_knight(row + 2, column - 1, color) || self.enemy_knight(
            row + 2,
            column + 1,
            color,
        ) {
            return true;
        }
        if self.diagonal_attacker(position, -1, -1, color) || self.diagonal_attacker(
            position,
            -1,
            1,
            color,
        ) || self.diagonal_attacker(position, 1, -1, color) || self.diagonal_attacker(
            position,
            1,
            1,
            color,
        ) {
            return true;
        }
        self.straight_attacker(position, -1, 0, color) || self.straight_attacker(
            position,
            1,
            0,
            color,
        ) || self.straight_attacker(position, 0, -1, color) || self.straight_attacker(
            position,
            0,
            1,
            color,
        )
    }

    /// Whether an enemy knight of `color` stands on (row, column).
    fn enemy_knight(&self, row: isize, column: isize, color: PieceColor) -> (r: bool)
        ensures
            r == enemy_knight_at(self@, row as int, column as int, color),
    {
        if row < 0 || row > 7 || column < 0 || column > 7 {
            return false;
        }
        match self.squares[(row * 8 + column) as usize] {
            Some(piece) => piece.piece_type == PieceType::Knight && piece.color != color,
            None => false,
        }
    }

    /// Whether the first occupant along a diagonal from `position` attacks it.
    fn diagonal_attacker(&self, position: &Position, d_row: isize, d_column: isize, color: PieceColor) -> (r:
        bool)
        requires
            position.valid(),
        ensures
            r == diagonal_threat(self@, *position, d_row as int, d_column as int, color),
    {
        let forward: isize = match color {
            PieceColor::White => 1,
            PieceColor::Black => -1,
        };
        match self.cast_ray(position, d_row, d_column) {
            Some((piece, distance)) => piece.color != color && (piece.piece_type
                == PieceType::Queen || piece.piece_type == PieceType::Bishup || (piece.piece_type
                == PieceType::Pawn && distance == 1 && d_row == forward) || (piece.piece_type
                == PieceType::King && distance == 1)),
            None => false,
        }
    }

    /// Whether the first occupant along a rank or file from `position` attacks
    /// it.
    fn straight_attacker(&self, position: &Position, d_row: isize, d_column: isize, color: PieceColor) -> (r:
        bool)
        requires
            position.valid(),
        ensures
            r == straight_threat(self@, *position, d_row as int, d_column as int, color),
    {
        match self.cast_ray(position, d_row, d_column) {
            Some((piece, distance)) => piece.color != color && (piece.piece_type
                == PieceType::Queen || piece.piece_type == PieceType::Rook || (piece.piece_type
                == PieceType::King && distance == 1)),
            None => false,
        }
    }

    /// Whether `king_position` is safe for `player_color` once the piece on
    /// `from` has been carried to `to`. The board itself is left as it is.
    pub fn test_move(
        &self,
        from: &Position,
        to: &Position,
        king_position: &Position,
        player_color: &PieceColor,
    ) -> (r: bool)
        requires
            from.valid(),
            to.valid(),
            king_position.valid(),
        ensures
            r == !attacked(moved(self@, *from, *to), *king_position, *player_color),
    {
        let mut next_board = *self;
        next_board.make_move(from, to);
        !next_board.has_check(king_position, player_color)
    }

    /// All pieces of `player_color` with their squares, in board order.
    pub fn get_pieces(&self, player_color: &PieceColor) -> (r: Vec<(Position, PieceType)>)
        ensures
            r@ == pieces_of(self@, *player_color),
    {
        let mut piece_list: Vec<(Position, PieceType)> = Vec::new();
        let mut i: usize = 0;
        while i < 64
            invariant
                i <= 64,
                piece_list@ + pieces_from(self@, *player_color, i as int) == pieces_of(
                    self@,
                    *player_color,
                ),
            decreases 64 - i,
        {
            let ghost before = piece_list@;
            match self.squares[i] {
                Some(piece) => {
                    if piece.color == *player_color {
                        piece_list.push((Position { row: i / 8, column: i % 8 }, piece.piece_type));
                    }
                },
                None => {},
            }
            assert(piece_list@ + pieces_from(self@, *player_color, i + 1) =~= before + pieces_from(
                self@,
                *player_color,
                i as int,
            ));
            i = i + 1;
        }
        assert(piece_list@ + Seq::<(Position, PieceType)>::empty() =~= piece_list@);
        piece_list
    }

    /// The square of `player_color`'s king, if it has one.
    pub fn get_king(&self, player_color: &PieceColor) -> (r: Option<Position>)
        ensures
            r == king_of(self@, *player_color),
            r matches Some(k) ==> k.valid(),
    {
        let mut i: usize = 0;
        while i < 64
            invariant
                i <= 64,
                king_from(self@, *player_color, i as int) == king_of(self@, *player_color),
            decreases 64 - i,
        {
            match self.squares[i] {
                Some(piece) => {
                    if piece.color == *player_color && piece.piece_type == PieceType::King {
                        return Some(Position { row: i / 8, column: i % 8 });
                    }
                },
                None => {},
            }
            i = i + 1;
        }
        None
    }

    /// Appends to `moves` the squares that a piece of `player_color` on
    /// `position` can slide to in the direction `increments`.
    pub fn add_positions_in_direction(
        &self,
        position: &Position,
        increments: (isize, isize),
        player_color: &PieceColor,
        get_captures_only: bool,
        moves: &mut Vec<Position>,
    )
        requires
            position.valid(),
        ensures
            final(moves)@ == old(moves)@ + slide(
                self@,
                *position,
                increments.0 as int,
                increments.1 as int,
                *player_color,
                get_captures_only,
            ),
            forall|i: int| old(moves)@.len() <= i < final(moves)@.len() ==> final(moves)@[i].valid(),
    {
        if increments.0 < -7 || increments.0 > 7 || increments.1 < -7 || increments.1 > 7 {
            // The first step leaves the board.
            assert(moves@ =~= old(moves)@ + Seq::<Position>::empty());
            return ;
        }
        let mut row: isize = position.row as isize + increments.0;
        let mut column: isize = position.column as isize + increments.1;
        let mut distance: usize = 1;
        let ghost total = old(moves)@ + slide(
            self@,
            *position,
            increments.0 as int,
            increments.1 as int,
            *player_color,
            get_captures_only,
        );
        while distance <= 7 && 0 <= row && row <= 7 && 0 <= column && column <= 7
            invariant
                1 <= distance <= 8,
                -7 <= increments.0 <= 7,
                -7 <= increments.1 <= 7,
                -64 <= row <= 64,
                -64 <= column <= 64,
                old(moves)@.len() <= moves@.len(),
                forall|i: int| old(moves)@.len() <= i < moves@.len() ==> moves@[i].valid(),
                total == old(moves)@ + slide(
                    self@,
                    *position,
                    increments.0 as int,
                    increments.1 as int,
                    *player_color,
                    get_captures_only,
                ),
                moves@ + slide_from(
                    self@,
                    row as int,
                    column as int,
                    increments.0 as int,
                    increments.1 as int,
                    *player_color,
                    get_captures_only,
                    distance as int,
                ) == total,
            decreases 8 - distance,
        {
            let ghost before = moves@;
            let ghost rest = slide_from(
                self@,
                row as int,
                column as int,
                increments.0 as int,
                increments.1 as int,
                *player_color,
                get_captures_only,
                distance as int,
            );
            let here = Position { row: row as usize, column: column as usize };
            match self.squares[(row * 8 + column) as usize] {
                Some(piece) => {
                    if piece.color != *player_color {
                        moves.push(here);
                    }
                    assert(moves@ =~= before + rest);
                    return ;
                },
                None => {},
            }
            if !get_captures_only {
                moves.push(here);
            }
            row = row + increments.0;
            column = column + increments.1;
            distance = distance + 1;
            assert(moves@ + slide_from(
                self@,
                row as int,
                column as int,
                increments.0 as int,
                increments.1 as int,
                *player_color,
                get_captures_only,
                distance as int,
            ) =~= before + rest);
        }
        assert(moves@ + Seq::<Position>::empty() =~= moves@);
    }

    /// The squares a rook of `player_color` on `position` can go to.
    pub fn get_rook_move_positions(
        &self,
        position: &Position,
        player_color: &PieceColor,
        get_captures_only: bool,
    ) -> (r: Vec<Position>)
        requires
            position.valid(),
        ensures
            r@ == rook_positions(self@, *position, *player_color, get_captures_only),
            forall|i: int| 0 <= i < r@.len() ==> r@[i].valid(),
    {
        let mut rook_moves: Vec<Position> = Vec::new();
        self.add_positions_in_direction(position, (-1, 0), player_color, get_captures_only, &mut rook_moves);
        self.add_positions_in_direction(position, (1, 0), player_color, get_captures_only, &mut rook_moves);
        self.add_positions_in_direction(position, (0, -1), player_color, get_captures_only, &mut rook_moves);
        self.add_positions_in_direction(position, (0, 1), player_color, get_captures_only, &mut rook_moves);
        assert(rook_moves@ =~= rook_positions(self@, *position, *player_color, get_captures_only));
        rook_moves
    }

    /// The squares a bishop of `player_color` on `position` can go to.
    pub fn get_bishup_move_positions(
        &self,
        position: &Position,
        player_color: &PieceColor,
        get_captures_only: bool,
    ) -> (r: Vec<Position>)
        requires
            position.valid(),
        ensures
            r@ == bishup_positions(self@, *position, *player_color, get_captures_only),
            forall|i: int| 0 <= i < r@.len() ==> r@[i].valid(),
    {
        let mut bishup_moves: Vec<Position> = Vec::new();
        self.add_positions_in_direction(position, (-1, -1), player_color, get_captures_only, &mut bishup_moves);
        self.add_positions_in_direction(position, (-1, 1), player_color, get_captures_only, &mut bishup_moves);
        self.add_positions_in_direction(position, (1, -1), player_color, get_captures_only, &mut bishup_moves);
        self.add_positions_in_direction(position, (1, 1), player_color, get_captures_only, &mut bishup_moves);
        assert(bishup_moves@ =~= bishup_positions(self@, *position, *player_color, get_captures_only));
        bishup_moves
    }

    /// The knight jump number `i`, as (rows, columns).
    pub fn knight_jump(i: usize) -> (r: (isize, isize))
        requires
            i < 8,
        ensures
            r.0 == knight_offset(i as int).0,
            r.1 == knight_offset(i as int).1,
    {
        if i == 0 {
            (-1, -2)
        } else if i == 1 {
            (-1, 2)
        } else if i == 2 {
            (1, -2)
        } else if i == 3 {
            (1, 2)
        } else if i == 4 {
            (-2, -1)
        } else if i == 5 {
            (-2, 1)
        } else if i == 6 {
            (2, -1)
        } else {
            (2, 1)
        }
    }

    /// Whether a piece of `color` may land on (row, column).
    pub fn may_land(&self, row: isize, column: isize, color: PieceColor, captures_only: bool) -> (r: bool)
        ensures
            r == can_land(self@, row as int, column as int, color, captures_only),
    {
        if row < 0 || row > 7 || column < 0 || column > 7 {
            return false;
        }
        match self.squares[(row * 8 + column) as usize] {
            Some(piece) => piece.color != color,
            None => !captures_only,
        }
    }

    /// The squares a knight of `player_color` on `position` can jump to.
    pub fn get_knight_move_positions(
        &self,
        position: &Position,
        player_color: &PieceColor,
        get_captures_only: bool,
    ) -> (r: Vec<Position>)
        requires
            position.valid(),
        ensures
            r@ == knight_positions(self@, *position, *player_color, get_captures_only),
            forall|i: int| 0 <= i < r@.len() ==> r@[i].valid(),
    {
        let mut knight_positions: Vec<Position> = Vec::new();
        let mut i: usize = 0;
        while i < 8
            invariant
                i <= 8,
                position.valid(),
                knight_positions@ == knight_positions_upto(
                    self@,
                    *position,
                    *player_color,
                    get_captures_only,
                    i as int,
                ),
                forall|j: int| 0 <= j < knight_positions@.len() ==> knight_positions@[j].valid(),
            decreases 8 - i,
        {
            let jump = Self::knight_jump(i);
            let row = position.row as isize + jump.0;
            let column = position.column as isize + jump.1;
            let ghost before = knight_positions@;
            if self.may_land(row, column, *player_color, get_captures_only) {
                knight_positions.push(Position { row: row as usize, column: column as usize });
            }
            assert(knight_positions@ =~= before + landing(
                self@,
                row as int,
                column as int,
                *player_color,
                get_captures_only,
            ));
            i = i + 1;
        }
        knight_positions
    }
    /// The first occupant seen from `position` in direction
    /// (d_row, d_column), with its distance in steps and its square.
    pub fn cast_ray_to(&self, position: &Position, d_row: isize, d_column: isize) -> (r: Option<
        (Piece, usize, Position),
    >)
        requires
            position.valid(),
        ensures
            match ray_hit(self@, *position, d_row as int, d_column as int) {
                Some((piece, distance)) => r matches Some(found) && found.0 == piece && found.1
                    == distance && 1 <= distance <= 7 && Some(found.2) == ray_hit_square(
                    self@,
                    *position,
                    d_row as int,
                    d_column as int,
                ) && found.2.valid(),
                None => r.is_none(),
            },
    {
        if d_row == 0 && d_column == 0 {
            return None;
        }
        if d_row < -7 || d_row > 7 || d_column < -7 || d_column > 7 {
            return None;
        }
        let mut row: isize = position.row as isize + d_row;
        let mut column: isize = position.column as isize + d_column;
        let mut distance: usize = 1;
        while distance <= 7 && 0 <= row && row <= 7 && 0 <= column && column <= 7
            invariant
                1 <= distance <= 8,
                -7 <= d_row <= 7,
                -7 <= d_column <= 7,
                -64 <= row <= 64,
                -64 <= column <= 64,
                ray_hit(self@, *position, d_row as int, d_column as int) == ray_from(
                    self@,
                    row as int,
                    column as int,
                    d_row as int,
                    d_column as int,
                    distance as int,
                ),
                ray_hit_square(self@, *position, d_row as int, d_column as int) == ray_target(
                    self@,
                    row as int,
                    column as int,
                    d_row as int,
                    d_column as int,
                    distance as int,
                ),
            decreases 8 - distance,
        {
            match self.squares[(row * 8 + column) as usize] {
                Some(piece) => {
                    return Some(
                        (piece, distance, Position { row: row as usize, column: column as usize }),
                    );
                },
                None => {},
            }
            row = row + d_row;
            column = column + d_column;
            distance = distance + 1;
        }
        None
    }
}

} // verus!
