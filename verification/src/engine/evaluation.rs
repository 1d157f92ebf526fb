//! The static evaluation of a position.

use vstd::prelude::*;
use crate::game::piece::{Piece, PieceColor, PieceType};
use crate::game::rules::GameState;
use crate::game::Game;

verus! {

/// The value of a pawn by row and column, before the game's length is added.
pub const PAWN_BOARD: [[i32; 8]; 8] = [
    [100, 100, 100, 100, 100, 100, 100, 100],
    [100, 100, 100, 100, 100, 100, 100, 100],
    [100, 100, 115, 115, 115, 115, 100, 100],
    [105, 105, 120, 120, 120, 120, 105, 105],
    [120, 120, 120, 120, 120, 120, 120, 120],
    [120, 120, 120, 120, 120, 120, 120, 120],
    [120, 120, 120, 120, 120, 120, 120, 120],
    [100, 100, 100, 100, 100, 100, 100, 100],
];

/// The value of a knight by row and column, before its bonus is added.
pub const KNIGHT_BOARD: [[i32; 8]; 8] = [
    [300, 300, 300, 300, 300, 300, 300, 300],
    [300, 300, 300, 300, 300, 300, 300, 300],
    [300, 300, 350, 350, 350, 350, 300, 300],
    [300, 300, 350, 350, 350, 350, 300, 300],
    [300, 300, 350, 350, 350, 350, 300, 300],
    [300, 300, 350, 350, 350, 350, 300, 300],
    [300, 300, 300, 300, 300, 300, 300, 300],
    [300, 300, 300, 300, 300, 300, 300, 300],
];

/// The value of a king by row and column while the game is young: the
/// corners of the home ranks are worth most.
pub const KING_BOARD: [[i32; 8]; 8] = [
    [250, 200, 50, 50, 100, 50, 200, 250],
    [150, 150, 100, 50, 50, 50, 150, 150],
    [100, 100, 100, 100, 100, 100, 100, 100],
    [100, 100, 100, 100, 100, 100, 100, 100],
    [100, 100, 100, 100, 100, 100, 100, 100],
    [100, 100, 100, 100, 100, 100, 100, 100],
    [150, 150, 100, 50, 50, 50, 150, 150],
    [250, 200, 50, 50, 100, 50, 200, 250],
];

/// What a king costs by row and column once the game is old: the edges and
/// corners cost most, the centre nothing.
pub const ENDGAME_KING_BOARD: [[i32; 8]; 8] = [
    [150, 100, 75, 50, 50, 75, 100, 150],
    [100, 100, 50, 40, 40, 50, 100, 100],
    [75, 50, 50, 25, 25, 50, 50, 75],
    [50, 40, 25, 0, 0, 25, 40, 50],
    [50, 40, 25, 0, 0, 25, 40, 50],
    [75, 50, 50, 25, 25, 50, 50, 75],
    [100, 100, 50, 40, 40, 50, 100, 100],
    [150, 100, 75, 50, 50, 75, 100, 150],
];

/// The largest amount by which the random jitter moves an evaluation.
pub const JITTER: i32 = 10;

/// The number of moves after which the king is valued as in an endgame.
pub const ENDGAME_AFTER: u16 = 30;

/// The number of moves before which a queen away from home is valued less.
pub const OPENING_BEFORE: u16 = 10;

/// The running state of an evaluation: the score so far and, for each colour
/// (Black first), the two flags that decide the bonus of the next bishop
/// and of the next knight.
pub struct Tally {
    pub score: int,
    pub bishups: Seq<bool>,
    pub knights: Seq<bool>,
}

/// What the castling rights are worth to `player`: 50 for each right it
/// holds, less 25 for each right of its opponent.
pub open spec fn rights_score(s: GameState, player: PieceColor) -> int {
    let own = s.rights[player.spec_index()];
    let other = s.rights[player.opposite().spec_index()];
    (if own.kingside {
        50int
    } else {
        0int
    }) + (if own.queenside {
        50int
    } else {
        0int
    }) - (if other.kingside {
        25int
    } else {
        0int
    }) - (if other.queenside {
        25int
    } else {
        0int
    })
}

/// The value of `piece` on (row, column), whoever owns it.
///
/// A king counts by the table of the young game for the first 30 moves and
/// costs by the endgame table afterwards. A queen counts 1000, but 800 in the
/// first 10 moves when it is not on the d-file of a home rank. A rook counts
/// 500. A bishop counts 425, or 525 when the bishop flag of its colour is
/// set. A knight counts its table value and 100, or 200 when the knight flag
/// of its colour is set. A pawn counts its table value, read from `player`'s
/// side of the board, and two for each move made.
pub open spec fn piece_value(
    s: GameState,
    player: PieceColor,
    row: int,
    column: int,
    piece: Piece,
    tally: Tally,
) -> int {
    let slot = piece.color.spec_index();
    match piece.piece_type {
        PieceType::King => if s.half_moves < ENDGAME_AFTER {
            KING_BOARD[row][column] as int
        } else {
            -(ENDGAME_KING_BOARD[row][column] as int)
        },
        PieceType::Queen => if s.half_moves < OPENING_BEFORE && ((row != 7 && row != 0) || column
            != 3) {
            800
        } else {
            1000
        },
        PieceType::Rook => 500,
        PieceType::Bishup => if tally.bishups[slot] {
            525
        } else {
            425
        },
        PieceType::Knight => KNIGHT_BOARD[row][column] + (if tally.knights[slot] {
            200int
        } else {
            100int
        }),
        PieceType::Pawn => (match player {
            PieceColor::Black => PAWN_BOARD[7 - row][column],
            PieceColor::White => PAWN_BOARD[row][column],
        }) + s.half_moves * 2,
    }
}

/// The tally once `piece` on (row, column) has been counted: its value is
/// added if it is `player`'s and taken off if not. A bishop flips the bishop
/// flag of its colour; a knight sets the knight flag of its colour to the
/// opposite of the colour's bishop flag.
pub open spec fn count_piece(
    s: GameState,
    player: PieceColor,
    row: int,
    column: int,
    piece: Piece,
    tally: Tally,
) -> Tally {
    let slot = piece.color.spec_index();
    let value = piece_value(s, player, row, column, piece, tally);
    Tally {
        score: if piece.color == player {
            tally.score + value
        } else {
            tally.score - value
        },
        bishups: if piece.piece_type == PieceType::Bishup {
            tally.bishups.update(slot, !tally.bishups[slot])
        } else {
            tally.bishups
        },
        knights: if piece.piece_type == PieceType::Knight {
            tally.knights.update(slot, !tally.bishups[slot])
        } else {
            tally.knights
        },
    }
}

/// The tally after the first `n` squares in board order, starting from the
/// worth of the castling rights with no flag set.
pub open spec fn tally_upto(s: GameState, player: PieceColor, n: int) -> Tally
    decreases n,
{
    if n <= 0 {
        Tally {
            score: rights_score(s, player),
            bishups: seq![false, false],
            knights: seq![false, false],
        }
    } else {
        let before = tally_upto(s, player, n - 1);
        match s.grid[n - 1] {
            Some(piece) => count_piece(s, player, (n - 1) / 8, (n - 1) % 8, piece, before),
            None => before,
        }
    }
}

/// The evaluation of the position as `player` sees it, without jitter.
pub open spec fn static_eval(s: GameState, player: PieceColor) -> int {
    tally_upto(s, player, 64).score
}

/// No piece is worth more than this, in either direction.
pub open spec fn value_bound() -> int {
    131200
}

/// The value of a piece lies within the bound.
pub proof fn lemma_piece_value_bound(
    s: GameState,
    player: PieceColor,
    row: int,
    column: int,
    piece: Piece,
    tally: Tally,
)
    requires
        0 <= row < 8,
        0 <= column < 8,
        0 <= s.half_moves <= u16::MAX,
    ensures
        -value_bound() <= piece_value(s, player, row, column, piece, tally) <= value_bound(),
{
    assert(0 <= KING_BOARD[row][column] <= 250);
    assert(0 <= ENDGAME_KING_BOARD[row][column] <= 150);
    assert(300 <= KNIGHT_BOARD[row][column] <= 350);
    assert(100 <= PAWN_BOARD[row][column] <= 120);
    assert(100 <= PAWN_BOARD[7 - row][column] <= 120);
}

/// The tally after `n` squares lies within `n` times the bound of one piece,
/// and 100 for the rights.
pub proof fn lemma_tally_bound(s: GameState, player: PieceColor, n: int)
    requires
        0 <= n <= 64,
        0 <= s.half_moves <= u16::MAX,
    ensures
        -100 - n * value_bound() <= tally_upto(s, player, n).score <= 100 + n * value_bound(),
    decreases n,
{
    if n > 0 {
        lemma_tally_bound(s, player, n - 1);
        let before = tally_upto(s, player, n - 1);
        match s.grid[n - 1] {
            Some(piece) => {
                lemma_piece_value_bound(s, player, (n - 1) / 8, (n - 1) % 8, piece, before);
            },
            None => {},
        }
    }
}

/// The evaluation of a position fits easily in 32 bits.
pub proof fn lemma_static_eval_bound(s: GameState, player: PieceColor)
    requires
        0 <= s.half_moves <= u16::MAX,
    ensures
        -8500000 <= static_eval(s, player) <= 8500000,
{
    lemma_tally_bound(s, player, 64);
}

/// The evaluation of `game` as `player` sees it, moved by `jitter`.
pub fn score_with_jitter(game: &Game, player: PieceColor, jitter: i32) -> (r: i32)
    requires
        -JITTER <= jitter <= JITTER,
    ensures
        r == static_eval(game@, player) + jitter,
{
    let own = game.castle_rights[player.index()];
    let other = game.castle_rights[player.opponent().index()];
    let mut score: i32 = 0;
    if own.kingside {
        score = score + 50;
    }
    if own.queenside {
        score = score + 50;
    }
    if other.kingside {
        score = score - 25;
    }
    if other.queenside {
        score = score - 25;
    }
    let mut has_bishup = [false, false];
    let mut has_knight = [false, false];
    let mut i: usize = 0;
    assert(has_bishup@ =~= seq![false, false]);
    assert(has_knight@ =~= seq![false, false]);
    while i < 64
        invariant
            i <= 64,
            tally_upto(game@, player, i as int) == (Tally {
                score: score as int,
                bishups: has_bishup@,
                knights: has_knight@,
            }),
        decreases 64 - i,
    {
        proof {
            lemma_tally_bound(game@, player, i as int);
            lemma_tally_bound(game@, player, i + 1);
        }
        let row = i / 8;
        let column = i % 8;
        match game.board.piece(row, column) {
            Some(piece) => {
                let slot = piece.color.index();
                let value: i32 = match piece.piece_type {
                    PieceType::King => if game.half_moves < ENDGAME_AFTER {
                        KING_BOARD[row][column]
                    } else {
                        -ENDGAME_KING_BOARD[row][column]
                    },
                    PieceType::Queen => if game.half_moves < OPENING_BEFORE && ((row != 7 && row
                        != 0) || column != 3) {
                        800
                    } else {
                        1000
                    },
                    PieceType::Rook => 500,
                    PieceType::Bishup => if has_bishup[slot] {
                        525
                    } else {
                        425
                    },
                    PieceType::Knight => KNIGHT_BOARD[row][column] + (if has_knight[slot] {
                        200
                    } else {
                        100
                    }),
                    PieceType::Pawn => (match player {
                        PieceColor::Black => PAWN_BOARD[7 - row][column],
                        PieceColor::White => PAWN_BOARD[row][column],
                    }) + game.half_moves as i32 * 2,
                };
                proof {
                    let before = tally_upto(game@, player, i as int);
                    lemma_piece_value_bound(game@, player, row as int, column as int, piece, before);
                    assert(value == piece_value(
                        game@,
                        player,
                        row as int,
                        column as int,
                        piece,
                        before,
                    ));
                }
                if piece.piece_type == PieceType::Bishup {
                    has_bishup[slot] = !has_bishup[slot];
                } else if piece.piece_type == PieceType::Knight {
                    has_knight[slot] = !has_bishup[slot];
                }
                if piece.color == player {
                    score = score + value;
                } else {
                    score = score - value;
                }
            },
            None => {},
        }
        i = i + 1;
    }
    proof {
        lemma_tally_bound(game@, player, 64);
    }
    score + jitter
}

} // verus!
