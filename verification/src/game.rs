//! The rules state machine: a board together with the side to move, castling
//! rights and the en-passant target.

pub mod board;
pub mod chess_move;
pub mod fen;
pub mod fen_laws;
pub mod laws;
pub mod movegen;
pub mod order;
pub mod piece;
pub mod position;
pub mod rules;
pub mod tracker;

use vstd::prelude::*;
use board::Board;
use chess_move::ChessMove;
use piece::{Piece, PieceColor, PieceType};
use position::Position;
use laws::{lemma_legal_move_keeps_king_safe, mover_stays_safe, settled};
use order::{
    king_stands_safe, lemma_legal_move_keeps_orderly, lemma_legal_move_leaves_the_king_safe,
    one_king, orderly,
};
use rules::{apply, en_passant_after, grid_after, legal_moves, GameState};

verus! {

/// The two castling rights of one side.
#[derive(Clone, Copy, PartialEq, Eq, Hash, Debug, Structural)]
pub struct CastleRights {
    pub kingside: bool,
    pub queenside: bool,
}

impl CastleRights {
    /// No right on either side.
    pub fn default() -> (r: CastleRights)
        ensures
            r == (CastleRights { kingside: false, queenside: false }),
    {
        CastleRights { kingside: false, queenside: false }
    }
}

/// A position of the game: the board, whose turn it is, what castling is
/// still allowed, and where a pawn can be captured en passant.
#[derive(Clone, Copy, PartialEq, Eq, Hash, Debug)]
pub struct Game {
    pub board: Board,
    pub en_passant: Option<Position>,
    pub turn: PieceColor,
    /// Black's rights first, then White's.
    pub castle_rights: [CastleRights; 2],
    pub half_moves: u16,
}

impl View for Game {
    type V = GameState;

    open spec fn view(&self) -> GameState {
        GameState {
            grid: self.board@,
            en_passant: self.en_passant,
            turn: self.turn,
            rights: self.castle_rights@,
            half_moves: self.half_moves as int,
        }
    }
}

impl Game {
    /// The en-passant target, if there is one, is a square of the board.
    pub open spec fn valid(self) -> bool {
        self.en_passant matches Some(p) ==> p.valid()
    }

    /// Whether the en-passant target, if there is one, is a square of the
    /// board.
    pub fn is_valid(&self) -> (r: bool)
        ensures
            r == self.valid(),
    {
        match self.en_passant {
            Some(p) => p.is_valid(),
            None => true,
        }
    }

    /// An empty board with White to move and no castling rights.
    pub fn default() -> (g: Game)
        ensures
            g.board@ == board::empty_grid(),
            g.en_passant.is_none(),
            g.turn == PieceColor::White,
            g.castle_rights@ == seq![(CastleRights { kingside: false, queenside: false }), (CastleRights { kingside: false, queenside: false })],
            g.half_moves == 0,
            g.valid(),
    {
        let none = CastleRights::default();
        let g = Game {
            board: Board::default(),
            en_passant: None,
            turn: PieceColor::White,
            castle_rights: [none, none],
            half_moves: 0,
        };
        assert(g.castle_rights@ =~= seq![
            (CastleRights { kingside: false, queenside: false }),
            (CastleRights { kingside: false, queenside: false }),
        ]);
        g
    }

    /// Clears rights of `color` on the sides named.
    fn clear_rights(&mut self, color: PieceColor, kingside: bool, queenside: bool)
        ensures
            final(self).castle_rights@ == rules::cleared(
                old(self).castle_rights@,
                color,
                kingside,
                queenside,
            ),
            final(self).board == old(self).board,
            final(self).en_passant == old(self).en_passant,
            final(self).turn == old(self).turn,
            final(self).half_moves == old(self).half_moves,
    {
        let i = color.index();
        let held = self.castle_rights[i];
        self.castle_rights[i] = CastleRights {
            kingside: held.kingside && !kingside,
            queenside: held.queenside && !queenside,
        };
    }

    /// The board as the move leaves it. The board of the game itself is not
    /// touched.
    pub fn board_after(&self, chess_move: &ChessMove) -> (b: Board)
        requires
            self.valid(),
            chess_move.valid(),
        ensures
            b@ == grid_after(self@, *chess_move),
    {
        let mut board = self.board;
        let row: usize = match self.turn {
            PieceColor::White => 0,
            PieceColor::Black => 7,
        };
        match chess_move {
            ChessMove::CastleKingside => {
                board.make_move(&Position { row, column: 4 }, &Position { row, column: 6 });
                board.make_move(&Position { row, column: 7 }, &Position { row, column: 5 });
            },
            ChessMove::CastleQueenside => {
                board.make_move(&Position { row, column: 4 }, &Position { row, column: 2 });
                board.make_move(&Position { row, column: 0 }, &Position { row, column: 3 });
            },
            ChessMove::Move(from, to) => {
                if self.en_passant == Some(*to) && self.holds(from, PieceType::Pawn) {
                    match to.backward(&self.turn) {
                        Some(behind) => {
                            board.remove_piece(&behind);
                        },
                        None => {},
                    }
                }
                board.make_move(from, to);
            },
            ChessMove::PawnPromote(from, to, piece_type) => {
                board.remove_piece(from);
                board.add_piece(Piece { piece_type: *piece_type, color: self.turn }, to);
            },
        }
        board
    }

    /// Whether a piece of the given kind stands on `position`.
    fn holds(&self, position: &Position, kind: PieceType) -> (r: bool)
        requires
            position.valid(),
        ensures
            r == rules::holds_kind(board::piece_at(self.board@, *position), kind),
    {
        match self.board.piece(position.row, position.column) {
            Some(piece) => piece.piece_type == kind,
            None => false,
        }
    }

    /// Gives up the rights that a capture on `to` costs the opponent.
    fn capture_rights(&mut self, to: &Position)
        requires
            to.valid(),
        ensures
            final(self).castle_rights@ == rules::rights_after_capture(
                old(self).castle_rights@,
                old(self)@,
                *to,
            ),
            final(self).board == old(self).board,
            final(self).en_passant == old(self).en_passant,
            final(self).turn == old(self).turn,
            final(self).half_moves == old(self).half_moves,
    {
        let enemy = self.turn.opponent();
        let enemy_row: usize = match enemy {
            PieceColor::White => 0,
            PieceColor::Black => 7,
        };
        if self.holds(to, PieceType::King) {
            self.clear_rights(enemy, true, true);
        } else if self.holds(to, PieceType::Rook) && to.row == enemy_row && to.column == 7 {
            self.clear_rights(enemy, true, false);
        } else if self.holds(to, PieceType::Rook) && to.row == enemy_row && to.column == 0 {
            self.clear_rights(enemy, false, true);
        }
    }

    /// Performs a move in place. The move is not checked against the rules:
    /// pass only moves that `get_moves` returned for this position.
    ///
    /// Whatever the move, the position afterwards is `apply`; in particular
    /// there is an en-passant target afterwards only after a pawn's double
    /// step. If the move is legal, the mover's king is not attacked where it
    /// then stands. If the position is settled besides and the mover has one
    /// king, as in every position of a game, the position stays settled and
    /// the mover's one king is on the board and not attacked. An orderly
    /// position stays orderly.
    pub fn make_move(&mut self, chess_move: &ChessMove)
        requires
            old(self).valid(),
            chess_move.valid(),
            old(self).half_moves < u16::MAX,
        ensures
            final(self)@ == apply(old(self)@, *chess_move),
            final(self).valid(),
            final(self).en_passant == en_passant_after(old(self)@, *chess_move),
            final(self).turn == old(self).turn.opposite(),
            final(self).half_moves == old(self).half_moves + 1,
            legal_moves(old(self)@).contains(*chess_move) ==> mover_stays_safe(
                old(self)@,
                *chess_move,
            ),
            settled(old(self)@) && one_king(old(self)@.grid, old(self).turn) && legal_moves(
                old(self)@,
            ).contains(*chess_move) ==> settled(final(self)@) && one_king(
                final(self)@.grid,
                old(self).turn,
            ) && king_stands_safe(final(self)@.grid, old(self).turn),
            orderly(old(self)@) && legal_moves(old(self)@).contains(*chess_move) ==> orderly(
                final(self)@,
            ),
    {
        self.perform(chess_move);
        proof {
            let s = old(self)@;
            if legal_moves(s).contains(*chess_move) {
                lemma_legal_move_keeps_king_safe(s, *chess_move);
                if settled(s) && one_king(s.grid, s.turn) {
                    lemma_legal_move_leaves_the_king_safe(s, *chess_move);
                }
                if orderly(s) {
                    lemma_legal_move_keeps_orderly(s, *chess_move);
                }
            }
        }
    }

    /// Moves the pieces, adjusts the rights, sets the en-passant target and
    /// hands the turn over.
    fn perform(&mut self, chess_move: &ChessMove)
        requires
            old(self).valid(),
            chess_move.valid(),
            old(self).half_moves < u16::MAX,
        ensures
            final(self)@ == apply(old(self)@, *chess_move),
            final(self).valid(),
            final(self).en_passant == en_passant_after(old(self)@, *chess_move),
            final(self).turn == old(self).turn.opposite(),
            final(self).half_moves == old(self).half_moves + 1,
    {
        let next_board = self.board_after(chess_move);
        let turn = self.turn;
        let home: usize = match turn {
            PieceColor::White => 0,
            PieceColor::Black => 7,
        };
        let mut skipped: Option<Position> = None;
        match chess_move {
            ChessMove::CastleKingside => {
                self.clear_rights(turn, true, true);
            },
            ChessMove::CastleQueenside => {
                self.clear_rights(turn, true, true);
            },
            ChessMove::Move(from, to) => {
                let (start, landing, between): (usize, usize, usize) = match turn {
                    PieceColor::White => (1, 3, 2),
                    PieceColor::Black => (6, 4, 5),
                };
                if self.holds(from, PieceType::Pawn) && from.row == start && to.row == landing {
                    skipped = Some(Position { row: between, column: to.column });
                }
                let ghost before = self@;
                if self.holds(from, PieceType::King) {
                    self.clear_rights(turn, true, true);
                } else if self.holds(from, PieceType::Rook) && from.row == home && from.column == 7 {
                    self.clear_rights(turn, true, false);
                } else if self.holds(from, PieceType::Rook) && from.row == home && from.column == 0 {
                    self.clear_rights(turn, false, true);
                }
                assert(self.castle_rights@ == rules::rights_after_leaving(before, *from));
                self.capture_rights(to);
            },
            ChessMove::PawnPromote(_from, to, _piece_type) => {
                self.capture_rights(to);
            },
        }
        self.board = next_board;
        self.en_passant = skipped;
        self.turn = turn.opponent();
        self.half_moves = self.half_moves + 1;
    }
}

} // verus!
