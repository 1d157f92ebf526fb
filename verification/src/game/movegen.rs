//! Legal move generation.

use vstd::prelude::*;
use super::board::{at, landing};
use super::chess_move::ChessMove;
use super::piece::{PieceColor, PieceType};
use super::position::Position;
use super::rules::{
    as_moves, can_castle_kingside, can_castle_queenside, candidates, candidates_upto, castles,
    free_and_unattacked, kind_candidates, king_offset, king_positions, king_positions_upto,
    legal_moves, pawn_candidates, pawn_capture, pawn_move, pawn_pushes, promotions, safe, safety,
    square_candidates,
};
use super::Game;

verus! {

/// Every move of the sequence has its squares on the board and promotes, if
/// it promotes, to a queen, rook, bishop or knight.
pub open spec fn all_valid(moves: Seq<ChessMove>) -> bool {
    forall|i: int| 0 <= i < moves.len() ==> (#[trigger] moves[i]).valid()
}

/// Every square of the sequence is on the board.
pub open spec fn all_on_board(squares: Seq<Position>) -> bool {
    forall|i: int| 0 <= i < squares.len() ==> (#[trigger] squares[i]).valid()
}

impl Game {
    /// The king step number `i`, as (rows, columns).
    fn king_step(i: usize) -> (r: (isize, isize))
        requires
            i < 8,
        ensures
            r.0 == king_offset(i as int).0,
            r.1 == king_offset(i as int).1,
    {
        if i == 0 {
            (-1, -1)
        } else if i == 1 {
            (-1, 0)
        } else if i == 2 {
            (-1, 1)
        } else if i == 3 {
            (0, -1)
        } else if i == 4 {
            (0, 1)
        } else if i == 5 {
            (1, -1)
        } else if i == 6 {
            (1, 0)
        } else {
            (1, 1)
        }
    }

    /// The squares next to `position` that hold no piece of the side to move.
    fn king_move_positions(&self, position: &Position) -> (r: Vec<Position>)
        requires
            position.valid(),
        ensures
            r@ == king_positions(self.board@, *position, self.turn),
            all_on_board(r@),
    {
        let mut positions: Vec<Position> = Vec::new();
        let mut i: usize = 0;
        while i < 8
            invariant
                i <= 8,
                position.valid(),
                positions@ == king_positions_upto(self.board@, *position, self.turn, i as int),
                all_on_board(positions@),
            decreases 8 - i,
        {
            let step = Self::king_step(i);
            let row = position.row as isize + step.0;
            let column = position.column as isize + step.1;
            let ghost before = positions@;
            if self.board.may_land(row, column, self.turn, false) {
                positions.push(Position { row: row as usize, column: column as usize });
            }
            assert(positions@ =~= before + landing(
                self.board@,
                row as int,
                column as int,
                self.turn,
                false,
            ));
            i = i + 1;
        }
        positions
    }

    /// Appends the plain moves from `from` to each of `targets`.
    fn push_moves(from: &Position, targets: &Vec<Position>, out: &mut Vec<ChessMove>)
        requires
            from.valid(),
            all_on_board(targets@),
            all_valid(old(out)@),
        ensures
            final(out)@ == old(out)@ + as_moves(*from, targets@),
            all_valid(final(out)@),
    {
        let mut i: usize = 0;
        while i < targets.len()
            invariant
                i <= targets.len(),
                from.valid(),
                all_on_board(targets@),
                all_valid(out@),
                out@ == old(out)@ + as_moves(*from, targets@.subrange(0, i as int)),
            decreases targets.len() - i,
        {
            out.push(ChessMove::Move(*from, targets[i]));
            assert(out@ =~= old(out)@ + as_moves(*from, targets@.subrange(0, i + 1)));
            i = i + 1;
        }
        assert(targets@.subrange(0, i as int) =~= targets@);
    }

    /// Appends a pawn's move from `from` to `to` as it is offered: as the
    /// four promotions where it reaches the farthest rank.
    fn push_pawn_move(&self, from: &Position, to: &Position, out: &mut Vec<ChessMove>)
        requires
            from.valid(),
            to.valid(),
            all_valid(old(out)@),
        ensures
            final(out)@ == old(out)@ + pawn_move(self.turn, *from, *to),
            all_valid(final(out)@),
    {
        let promotion_row: usize = match self.turn {
            PieceColor::White => 6,
            PieceColor::Black => 1,
        };
        if from.row == promotion_row {
            out.push(ChessMove::PawnPromote(*from, *to, PieceType::Queen));
            out.push(ChessMove::PawnPromote(*from, *to, PieceType::Rook));
            out.push(ChessMove::PawnPromote(*from, *to, PieceType::Bishup));
            out.push(ChessMove::PawnPromote(*from, *to, PieceType::Knight));
            assert(out@ =~= old(out)@ + promotions(*from, *to));
        } else {
            out.push(ChessMove::Move(*from, *to));
            assert(out@ =~= old(out)@ + seq![ChessMove::Move(*from, *to)]);
        }
    }

    /// Appends the capture of the pawn on `from` onto (row, column), if it
    /// may capture there.
    fn add_pawn_capture(&self, from: &Position, row: isize, column: isize, out: &mut Vec<ChessMove>)
        requires
            self.valid(),
            from.valid(),
            all_valid(old(out)@),
        ensures
            final(out)@ == old(out)@ + pawn_capture(self@, *from, row as int, column as int),
            all_valid(final(out)@),
    {
        if row < 0 || row > 7 || column < 0 || column > 7 {
            assert(out@ =~= old(out)@ + Seq::<ChessMove>::empty());
            return ;
        }
        let to = Position { row: row as usize, column: column as usize };
        let takes = self.en_passant == Some(to) || match self.board.piece(to.row, to.column) {
            Some(piece) => piece.color != self.turn,
            None => false,
        };
        if takes {
            self.push_pawn_move(from, &to, out);
        } else {
            assert(out@ =~= old(out)@ + Seq::<ChessMove>::empty());
        }
    }

    /// Appends the moves of the pawn on `from`.
    fn add_pawn_candidates(&self, from: &Position, out: &mut Vec<ChessMove>)
        requires
            self.valid(),
            from.valid(),
            all_valid(old(out)@),
        ensures
            final(out)@ == old(out)@ + pawn_candidates(self@, *from),
            all_valid(final(out)@),
    {
        let (forward, start): (isize, usize) = match self.turn {
            PieceColor::White => (1, 1),
            PieceColor::Black => (-1, 6),
        };
        let column = from.column as isize;
        let ahead = from.row as isize + forward;
        if 0 <= ahead && ahead <= 7 && self.board.piece(ahead as usize, from.column).is_none() {
            self.push_pawn_move(from, &Position { row: ahead as usize, column: from.column }, out);
            if from.row == start {
                let two = (ahead + forward) as usize;
                if self.board.piece(two, from.column).is_none() {
                    self.push_pawn_move(from, &Position { row: two, column: from.column }, out);
                }
            }
        }
        assert(out@ =~= old(out)@ + pawn_pushes(self@, *from));
        self.add_pawn_capture(from, ahead, column + 1, out);
        self.add_pawn_capture(from, ahead, column - 1, out);
        assert(out@ =~= old(out)@ + pawn_candidates(self@, *from));
    }

    /// Appends the moves of the piece of kind `kind` on `from`.
    fn add_candidates(&self, from: &Position, kind: PieceType, out: &mut Vec<ChessMove>)
        requires
            self.valid(),
            from.valid(),
            all_valid(old(out)@),
        ensures
            final(out)@ == old(out)@ + kind_candidates(self@, *from, kind),
            all_valid(final(out)@),
    {
        match kind {
            PieceType::King => {
                let targets = self.king_move_positions(from);
                Self::push_moves(from, &targets, out);
            },
            PieceType::Queen => {
                let diagonal = self.board.get_bishup_move_positions(from, &self.turn, false);
                Self::push_moves(from, &diagonal, out);
                let straight = self.board.get_rook_move_positions(from, &self.turn, false);
                Self::push_moves(from, &straight, out);
                assert(out@ =~= old(out)@ + kind_candidates(self@, *from, kind));
            },
            PieceType::Bishup => {
                let targets = self.board.get_bishup_move_positions(from, &self.turn, false);
                Self::push_moves(from, &targets, out);
            },
            PieceType::Rook => {
                let targets = self.board.get_rook_move_positions(from, &self.turn, false);
                Self::push_moves(from, &targets, out);
            },
            PieceType::Knight => {
                let targets = self.board.get_knight_move_positions(from, &self.turn, false);
                Self::push_moves(from, &targets, out);
            },
            PieceType::Pawn => {
                self.add_pawn_candidates(from, out);
            },
        }
    }

    /// Every move that the pieces of the side to move can make by the way
    /// they move. Whether a move exposes the king is not looked at.
    pub fn get_candidates(&self) -> (r: Vec<ChessMove>)
        requires
            self.valid(),
        ensures
            r@ == candidates(self@),
            all_valid(r@),
    {
        let mut out: Vec<ChessMove> = Vec::new();
        let mut i: usize = 0;
        while i < 64
            invariant
                i <= 64,
                self.valid(),
                all_valid(out@),
                out@ == candidates_upto(self@, i as int),
            decreases 64 - i,
        {
            let ghost before = out@;
            match self.board.piece(i / 8, i % 8) {
                Some(piece) => {
                    if piece.color == self.turn {
                        self.add_candidates(
                            &Position { row: i / 8, column: i % 8 },
                            piece.piece_type,
                            &mut out,
                        );
                    }
                },
                None => {},
            }
            assert(out@ =~= before + square_candidates(self@, i as int));
            i = i + 1;
        }
        out
    }

    /// Whether the move leaves the mover's king unattacked, where `king` is
    /// the king's square before the move.
    pub fn is_safe(&self, king: &Position, chess_move: &ChessMove) -> (r: bool)
        requires
            self.valid(),
            king.valid(),
            chess_move.valid(),
        ensures
            r == safe(self@, *king, *chess_move),
    {
        let row: usize = match self.turn {
            PieceColor::White => 0,
            PieceColor::Black => 7,
        };
        let target = match chess_move {
            ChessMove::CastleKingside => Position { row, column: 6 },
            ChessMove::CastleQueenside => Position { row, column: 2 },
            ChessMove::Move(from, to) => match self.board.piece(from.row, from.column) {
                Some(piece) => if piece.piece_type == PieceType::King {
                    *to
                } else {
                    *king
                },
                None => *king,
            },
            ChessMove::PawnPromote(_from, _to, _piece_type) => *king,
        };
        let next_board = self.board_after(chess_move);
        !next_board.has_check(&target, &self.turn)
    }

    /// Whether (row, column) is empty and not attacked by the enemy.
    fn is_free_and_unattacked(&self, row: usize, column: usize) -> (r: bool)
        requires
            row <= 7,
            column <= 7,
        ensures
            r == free_and_unattacked(self@, row as int, column as int),
    {
        self.board.piece(row, column).is_none() && !self.board.has_check(
            &Position { row, column },
            &self.turn,
        )
    }

    /// Whether `kind` of the side to move stands on (row, column).
    fn own_piece_on(&self, row: usize, column: usize, kind: PieceType) -> (r: bool)
        requires
            row <= 7,
            column <= 7,
        ensures
            r == (at(self.board@, row as int, column as int) == Some(
                super::piece::Piece { piece_type: kind, color: self.turn },
            )),
    {
        match self.board.piece(row, column) {
            Some(piece) => piece.piece_type == kind && piece.color == self.turn,
            None => false,
        }
    }

    /// Whether the side to move may castle kingside.
    fn castle_kingside_allowed(&self, king: &Position) -> (r: bool)
        requires
            self.valid(),
            king.valid(),
        ensures
            r == can_castle_kingside(self@, *king),
    {
        let row: usize = match self.turn {
            PieceColor::White => 0,
            PieceColor::Black => 7,
        };
        self.castle_rights[self.turn.index()].kingside && self.own_piece_on(
            row,
            4,
            PieceType::King,
        ) && self.own_piece_on(row, 7, PieceType::Rook) && !self.board.has_check(king, &self.turn)
            && self.is_free_and_unattacked(row, 5) && self.is_free_and_unattacked(row, 6)
            && self.is_safe(king, &ChessMove::CastleKingside)
    }

    /// Whether the side to move may castle queenside.
    fn castle_queenside_allowed(&self, king: &Position) -> (r: bool)
        requires
            self.valid(),
            king.valid(),
        ensures
            r == can_castle_queenside(self@, *king),
    {
        let row: usize = match self.turn {
            PieceColor::White => 0,
            PieceColor::Black => 7,
        };
        self.castle_rights[self.turn.index()].queenside && self.own_piece_on(
            row,
            4,
            PieceType::King,
        ) && self.own_piece_on(row, 0, PieceType::Rook) && self.board.piece(row, 1).is_none()
            && !self.board.has_check(king, &self.turn) && self.is_free_and_unattacked(row, 2)
            && self.is_free_and_unattacked(row, 3) && self.is_safe(king, &ChessMove::CastleQueenside)
    }

    /// All legal moves of the side to move.
    pub fn get_moves(&self) -> (r: Vec<ChessMove>)
        requires
            self.valid(),
        ensures
            r@ == legal_moves(self@),
            all_valid(r@),
    {
        let mut moves: Vec<ChessMove> = Vec::new();
        let king = match self.board.get_king(&self.turn) {
            Some(king) => king,
            None => {
                return moves;
            },
        };
        let found = self.get_candidates();
        let mut i: usize = 0;
        while i < found.len()
            invariant
                i <= found.len(),
                self.valid(),
                king.valid(),
                all_valid(found@),
                all_valid(moves@),
                moves@ == found@.subrange(0, i as int).filter(safety(self@, king)),
            decreases found.len() - i,
        {
            let ghost before = found@.subrange(0, i as int);
            let ghost after = found@.subrange(0, i + 1);
            proof {
                reveal(Seq::filter);
                assert(after.drop_last() =~= before);
                assert(after.last() == found@[i as int]);
            }
            if self.is_safe(&king, &found[i]) {
                moves.push(found[i]);
            }
            i = i + 1;
        }
        assert(found@.subrange(0, i as int) =~= found@);
        let ghost filtered = moves@;
        if self.castle_kingside_allowed(&king) {
            moves.push(ChessMove::CastleKingside);
        }
        if self.castle_queenside_allowed(&king) {
            moves.push(ChessMove::CastleQueenside);
        }
        assert(moves@ =~= filtered + castles(self@, king));
        moves
    }
}

} // verus!
