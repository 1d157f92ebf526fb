//! Piece lists: for each side, where its pieces stand.

use vstd::prelude::*;
use super::board::{pieces_of, Board};
use super::piece::{Piece, PieceColor, PieceType};
use super::position::Position;

verus! {

/// The entries of `list` that are not on `position`, in order.
pub open spec fn without(list: Seq<(Position, PieceType)>, position: Position) -> Seq<
    (Position, PieceType),
>
    decreases list.len(),
{
    if list.len() == 0 {
        list
    } else if list.last().0 == position {
        without(list.drop_last(), position)
    } else {
        without(list.drop_last(), position).push(list.last())
    }
}

/// The two lists are equally long and every entry of the first occurs in
/// the second.
pub open spec fn covered(a: Seq<(Position, PieceType)>, b: Seq<(Position, PieceType)>) -> bool {
    a.len() == b.len() && forall|i: int| 0 <= i < a.len() ==> b.contains(#[trigger] a[i])
}

/// The pieces of each side with their squares.
#[derive(Clone, Debug)]
pub struct VectorPieceTracker {
    pub black: Vec<(Position, PieceType)>,
    pub white: Vec<(Position, PieceType)>,
}

impl VectorPieceTracker {
    /// The list of `color`.
    pub open spec fn list(self, color: PieceColor) -> Seq<(Position, PieceType)> {
        match color {
            PieceColor::Black => self.black@,
            PieceColor::White => self.white@,
        }
    }

    /// A tracker of no pieces.
    pub fn default() -> (t: VectorPieceTracker)
        ensures
            t.black@.len() == 0,
            t.white@.len() == 0,
    {
        VectorPieceTracker { black: Vec::new(), white: Vec::new() }
    }

    /// The tracker of the pieces on `board`, each list in board order.
    pub fn from_board(board: &Board) -> (t: VectorPieceTracker)
        ensures
            t.black@ == pieces_of(board@, PieceColor::Black),
            t.white@ == pieces_of(board@, PieceColor::White),
    {
        VectorPieceTracker {
            black: board.get_pieces(&PieceColor::Black),
            white: board.get_pieces(&PieceColor::White),
        }
    }

    /// The entries of `list` that are not on `position`.
    fn drop_square(list: &Vec<(Position, PieceType)>, position: &Position) -> (r: Vec<
        (Position, PieceType),
    >)
        ensures
            r@ == without(list@, *position),
    {
        let mut kept: Vec<(Position, PieceType)> = Vec::new();
        let mut i: usize = 0;
        while i < list.len()
            invariant
                i <= list.len(),
                kept@ == without(list@.subrange(0, i as int), *position),
            decreases list.len() - i,
        {
            let ghost next = list@.subrange(0, i + 1);
            assert(next.drop_last() =~= list@.subrange(0, i as int));
            let entry = list[i];
            if !(entry.0 == *position) {
                kept.push(entry);
            }
            i = i + 1;
        }
        assert(list@.subrange(0, i as int) =~= list@);
        kept
    }

    /// Notes that `piece` now stands on `position`, in place of whatever was
    /// listed there.
    pub fn replace_piece(&mut self, position: &Position, piece: &Piece)
        ensures
            final(self).list(piece.color) == without(old(self).list(piece.color), *position).push(
                (*position, piece.piece_type),
            ),
            final(self).list(piece.color.opposite()) == without(
                old(self).list(piece.color.opposite()),
                *position,
            ),
    {
        let mut black = Self::drop_square(&self.black, position);
        let mut white = Self::drop_square(&self.white, position);
        match piece.color {
            PieceColor::Black => {
                black.push((*position, piece.piece_type));
            },
            PieceColor::White => {
                white.push((*position, piece.piece_type));
            },
        }
        self.black = black;
        self.white = white;
    }

    /// Notes that no piece of `player_color` stands on `position` any more.
    pub fn remove_piece(&mut self, position: &Position, player_color: &PieceColor)
        ensures
            final(self).list(*player_color) == without(old(self).list(*player_color), *position),
            final(self).list(player_color.opposite()) == old(self).list(player_color.opposite()),
    {
        match player_color {
            PieceColor::Black => {
                self.black = Self::drop_square(&self.black, position);
            },
            PieceColor::White => {
                self.white = Self::drop_square(&self.white, position);
            },
        }
    }

    /// The pieces of `player_color` with their squares.
    pub fn get_pieces(&self, player_color: &PieceColor) -> (r: Vec<(Position, PieceType)>)
        ensures
            r@ == self.list(*player_color),
    {
        let list = match player_color {
            PieceColor::Black => &self.black,
            PieceColor::White => &self.white,
        };
        let mut copy: Vec<(Position, PieceType)> = Vec::new();
        let mut i: usize = 0;
        while i < list.len()
            invariant
                i <= list.len(),
                copy@ == list@.subrange(0, i as int),
            decreases list.len() - i,
        {
            copy.push(list[i]);
            assert(copy@ =~= list@.subrange(0, i + 1));
            i = i + 1;
        }
        assert(list@.subrange(0, i as int) =~= list@);
        copy
    }

    /// Whether `b` is as long as `a` and holds every entry of `a`.
    fn covers(a: &Vec<(Position, PieceType)>, b: &Vec<(Position, PieceType)>) -> (r: bool)
        ensures
            r == covered(a@, b@),
    {
        if a.len() != b.len() {
            return false;
        }
        let mut i: usize = 0;
        while i < a.len()
            invariant
                i <= a.len(),
                a@.len() == b@.len(),
                forall|k: int| 0 <= k < i ==> b@.contains(#[trigger] a@[k]),
            decreases a.len() - i,
        {
            let entry = a[i];
            let mut found = false;
            let mut j: usize = 0;
            while j < b.len() && !found
                invariant
                    j <= b.len(),
                    entry == a@[i as int],
                    found ==> b@.contains(entry),
                    !found ==> forall|k: int| 0 <= k < j ==> b@[k] != entry,
                decreases b.len() - j + (if found { 0int } else { 1int }),
            {
                if b[j].0 == entry.0 && b[j].1 == entry.1 {
                    found = true;
                    assert(b@[j as int] == entry);
                } else {
                    j = j + 1;
                }
            }
            if !found {
                return false;
            }
            i = i + 1;
        }
        true
    }

    /// Whether the two trackers list the same pieces: for each side the
    /// lists are equally long and every entry of this tracker's list occurs
    /// in the other's.
    pub fn eq(&self, other: &VectorPieceTracker) -> (r: bool)
        ensures
            r == (covered(self.black@, other.black@) && covered(self.white@, other.white@)),
    {
        Self::covers(&self.black, &other.black) && Self::covers(&self.white, &other.white)
    }
}

} // verus!
