use chess_engine::chess_game::board::{Board, Directions, Line};
use chess_engine::chess_game::chess_move::{ChessMove, MoveError};
use chess_engine::chess_game::piece::{Piece, PieceColor, PieceType};
use chess_engine::game::fen::FenError;

/// The starting position as a number in base 13 with its flags, in four
/// words.
const START_WORDS: [u64; 4] = [4292913246506295582, 13090383347036701868, 13705933430750994950, 9799845586084035957];

#[test]
fn typed_moves_are_read() {
    assert_eq!(ChessMove::new("O-O"), Ok(ChessMove::CastleKingside));
    assert_eq!(ChessMove::new("O-O-O"), Ok(ChessMove::CastleQueenside));
    assert_eq!(ChessMove::new("e2e4"), Ok(ChessMove::Move((6, 4), (4, 4))));
    assert_eq!(ChessMove::new("a8h1"), Ok(ChessMove::Move((0, 0), (7, 7))));
    assert_eq!(
        ChessMove::new("e7e8=Q"),
        Ok(ChessMove::PawnPromote((1, 4), (0, 4), PieceType::Queen))
    );
    assert_eq!(
        ChessMove::new("e7e8=n"),
        Ok(ChessMove::PawnPromote((1, 4), (0, 4), PieceType::Knight))
    );
    assert_eq!(
        ChessMove::new("e7e8=P"),
        Ok(ChessMove::PawnPromote((1, 4), (0, 4), PieceType::Pawn))
    );
}

#[test]
fn typed_moves_are_refused() {
    assert_eq!(ChessMove::new(""), Err(MoveError::Format));
    assert_eq!(ChessMove::new("e2"), Err(MoveError::Format));
    assert_eq!(ChessMove::new("e2e4e"), Err(MoveError::Format));
    assert_eq!(ChessMove::new("e2e4=Q=R"), Err(MoveError::Format));
    assert_eq!(ChessMove::new("e2=Q"), Err(MoveError::Format));
    assert_eq!(ChessMove::new("e2e9"), Err(MoveError::Location));
    assert_eq!(ChessMove::new("i2e4"), Err(MoveError::Location));
    assert_eq!(ChessMove::new("e7e8="), Err(MoveError::Promotion));
    assert_eq!(ChessMove::new("e7e8=QQ"), Err(MoveError::Promotion));
    assert_eq!(ChessMove::new("e7e8=x"), Err(MoveError::Piece));
    assert_eq!(ChessMove::new("e7e8=K"), Err(MoveError::King));
    assert_eq!(ChessMove::new("e7e8=k"), Err(MoveError::King));
}

#[test]
fn letters_of_the_pieces() {
    assert_eq!(PieceType::get('q'), Some(PieceType::Queen));
    assert_eq!(PieceType::get('B'), Some(PieceType::Bishup));
    assert_eq!(PieceType::get('x'), None);
    let white_king = Piece { piece_type: PieceType::King, piece_color: PieceColor::White };
    assert_eq!(Piece::get_piece('K'), Some(white_king));
    assert_eq!(Piece::get_piece('7'), None);
    for letter in ['k', 'q', 'b', 'n', 'r', 'p', 'K', 'Q', 'B', 'N', 'R', 'P'] {
        assert_eq!(Piece::get_piece(letter).unwrap().get_name(), letter);
    }
    assert_eq!(PieceColor::White.opponent(), PieceColor::Black);
    assert_eq!(PieceColor::Black.index(), 0);
    assert_eq!(PieceColor::White.index(), 1);
}

#[test]
fn squares_by_row_and_column() {
    assert_eq!(Board::get_loc("a8"), Ok((0, 0)));
    assert_eq!(Board::get_loc("h1"), Ok((7, 7)));
    assert_eq!(Board::get_loc("e2"), Ok((6, 4)));
    assert!(Board::get_loc("e9").is_err());
    assert!(Board::get_loc("").is_err());
    assert!(Board::get_loc("e22").is_err());
}

#[test]
fn lines_and_directions() {
    assert_eq!(Line::Horizontal.bit(), 8);
    assert_eq!(Line::Vertical.bit(), 4);
    assert_eq!(Line::UpDiagonal.bit(), 2);
    assert_eq!(Line::DownDiagonal.bit(), 1);
    assert_eq!(Directions::North.step(), (-1, 0));
    assert_eq!(Directions::NorthEast.step(), (-1, 1));
    assert_eq!(Directions::East.step(), (0, 1));
    assert_eq!(Directions::SouthEast.step(), (1, 1));
    assert_eq!(Directions::South.step(), (1, 0));
    assert_eq!(Directions::SouthWest.step(), (1, -1));
    assert_eq!(Directions::West.step(), (0, -1));
    assert_eq!(Directions::NorthWest.step(), (-1, -1));
    // Looking north from d3 one sees the pawn on d7.
    let board = Board::new();
    let black_pawn = Piece::get_piece('p').unwrap();
    assert_eq!(board.cast_ray((5, 3), Directions::North.step()), Some((black_pawn, 4)));
}

#[test]
fn boards_are_read_with_their_clocks() {
    let board = Board::from_fen("r3k2r/8/8/8/3pP3/8/8/R3K2R b Kq e3 12 34").unwrap();
    assert_eq!(board.half_moves, 12);
    assert_eq!(board.full_moves, 34);
    assert_eq!(board.previous_states.len(), 0);
    assert_eq!(board.game.to_fen(), "r3k2r/8/8/8/3pP3/8/8/R3K2R b Kq e3");
    assert_eq!(Board::from_fen("8/8/8/8/8/8/8/8 w - - 255 65535").unwrap().half_moves, 255);
    assert_eq!(Board::from_fen("8/8/8/8/8/8/8/8 w - - 255 65535").unwrap().full_moves, 65535);
    assert_eq!(Board::from_fen("8/8/8/8/8/8/8/8 w - - 007 0001").unwrap().half_moves, 7);
    let err = |text: &str| Board::from_fen(text).err();
    assert_eq!(err("8/8/8/8/8/8/8/8 w - - 256 1"), Some(FenError::HalfMoveClock));
    assert_eq!(err("8/8/8/8/8/8/8/8 w - - 99999999999999999999 1"), Some(FenError::HalfMoveClock));
    assert_eq!(err("8/8/8/8/8/8/8/8 w - - x 1"), Some(FenError::HalfMoveClock));
    assert_eq!(err("8/8/8/8/8/8/8/8 w - - 0 65536"), Some(FenError::FullMoveCounter));
    assert_eq!(err("8/8/8/8/8/8/8/8 w - - 0 +1"), Some(FenError::FullMoveCounter));
    assert_eq!(err("8/8/8/8/8/8/8/8 w - - 0"), Some(FenError::FieldCount));
    assert_eq!(err("8/8/8/8/8/8/8/9x w - - 0 1"), Some(FenError::RowTooLong(0)));
    assert_eq!(
        err("rnbqkbnr/pppppppp/9/8/8/8/PPPPPPPP/RNBQKBNR w KQkq - 0 1"),
        Some(FenError::RowTooLong(5))
    );
    assert_eq!(err("8/8/8/8/8/8/8/p8 w - - 0 1"), Some(FenError::RowTooLong(0)));
    assert_eq!(err("8/8/8/8/8/8/8/8 W - - 0 1"), Some(FenError::InvalidTurn));
    assert_eq!(err("8/8/8/8/8/8/8/8 B - - 0 1"), Some(FenError::InvalidTurn));

    let start = Board::new();
    assert_eq!((start.half_moves, start.full_moves), (0, 1));
    assert_eq!(start.game.to_fen(), "rnbqkbnr/pppppppp/8/8/8/8/PPPPPPPP/RNBQKBNR w KQkq -");
    let empty = Board::empty();
    assert_eq!((empty.half_moves, empty.full_moves), (0, 1));
    assert_eq!(empty.game.to_fen(), "8/8/8/8/8/8/8/8 w - -");
}

#[test]
fn only_legal_moves_are_made() {
    let mut board = Board::new();
    assert!(board.is_valid_move(ChessMove::Move((6, 4), (4, 4))));
    assert!(!board.is_valid_move(ChessMove::Move((6, 4), (3, 4))));
    assert!(!board.is_valid_move(ChessMove::Move((1, 4), (3, 4))));
    assert!(!board.is_valid_move(ChessMove::Move((8, 4), (3, 4))));
    assert!(!board.is_valid_move(ChessMove::Move((6, 4), (4, 9))));
    assert!(!board.is_valid_move(ChessMove::CastleKingside));
    assert!(!board.is_valid_move(ChessMove::PawnPromote((6, 4), (5, 4), PieceType::Queen)));
    assert_eq!(board.get_valid_moves().len(), 20);
    assert_eq!(board.get_valid_moves()[0], ChessMove::Move((7, 1), (5, 0)));

    assert!(!board.make_move("e2e5"));
    assert!(!board.make_move("e7e5"));
    assert!(!board.make_move("hello"));
    assert!(!board.make_move("O-O"));
    assert_eq!(board.game.to_fen(), "rnbqkbnr/pppppppp/8/8/8/8/PPPPPPPP/RNBQKBNR w KQkq -");
    assert_eq!(board.previous_states.len(), 0);

    assert!(board.make_move("e2e4"));
    assert_eq!(board.game.to_fen(), "rnbqkbnr/pppppppp/8/8/4P3/8/PPPP1PPP/RNBQKBNR b KQkq e3");
    assert_eq!((board.half_moves, board.full_moves), (0, 1));
    assert!(board.make_move("g8f6"));
    assert_eq!((board.half_moves, board.full_moves), (1, 2));
    assert!(board.make_move("b1c3"));
    assert_eq!((board.half_moves, board.full_moves), (2, 2));
    assert!(board.make_move("f6e4"));
    // A capture starts the count anew.
    assert_eq!((board.half_moves, board.full_moves), (0, 3));
    assert_eq!(board.previous_states.len(), 4);
    assert!(board.previous_states.iter().all(|(_, count)| *count == 1));
}

#[test]
fn promotions_and_castles_are_made_from_text() {
    let mut board = Board::from_fen("1n2k3/P7/8/8/8/8/8/R3K2R w KQ - 5 9").unwrap();
    assert!(!board.make_move("a7a8"));
    assert!(!board.make_move("a7a8=K"));
    assert!(!board.make_move("a7a8=P"));
    assert!(board.is_valid_move(ChessMove::PawnPromote((1, 0), (0, 0), PieceType::Rook)));
    assert!(!board.is_valid_move(ChessMove::PawnPromote((1, 0), (0, 0), PieceType::Pawn)));
    assert!(!board.is_valid_move(ChessMove::PawnPromote((1, 0), (0, 0), PieceType::King)));
    assert!(board.make_move("a7b8=N"));
    assert_eq!(board.game.to_fen(), "1N2k3/8/8/8/8/8/8/R3K2R b KQ -");
    assert_eq!((board.half_moves, board.full_moves), (0, 9));
    assert!(board.make_move("e8e7"));
    assert_eq!((board.half_moves, board.full_moves), (1, 10));
    assert!(board.make_move("O-O"));
    assert_eq!(board.game.to_fen(), "1N6/4k3/8/8/8/8/8/R4RK1 b - -");
    assert_eq!((board.half_moves, board.full_moves), (2, 10));
}

#[test]
fn history_counts_positions() {
    let mut board = Board::new();
    for text in ["g1f3", "g8f6", "f3g1", "f6g8", "g1f3", "g8f6", "f3g1", "f6g8"] {
        assert!(board.make_move(text));
    }
    // Four positions, each left twice.
    assert_eq!(board.previous_states.len(), 4);
    assert!(board.previous_states.iter().all(|(_, count)| *count == 2));
    assert_eq!(board.previous_states[0].0, Board::new().encode_squares());
    assert_eq!((board.half_moves, board.full_moves), (8, 5));
}

#[test]
fn packed_positions() {
    let start = Board::new().encode_squares();
    assert_eq!(start.flags, 16);
    assert_eq!(start.turn, PieceColor::White);
    assert_eq!(start, Board::new().encode_squares());
    let empty = Board::empty().encode_squares();
    assert_eq!(empty.grid, [0, 0, 0, 0]);
    assert_eq!(empty.flags, 0);
    // Two empty ranks pack to nothing; pawns are sixes and, for White, the
    // eighth bit besides.
    assert_eq!(start.grid[1], 0);
    assert_eq!(start.grid[2], 0);
    assert_eq!(Board::from_fen("8/8/8/8/8/8/8/7p w - - 0 1").unwrap().encode_squares().grid[3], 6);
    assert_eq!(Board::from_fen("8/8/8/8/8/8/8/7P w - - 0 1").unwrap().encode_squares().grid[3], 128 + 6);
    assert_eq!(Board::from_fen("8/8/8/8/8/8/8/6kp w - - 0 1").unwrap().encode_squares().grid[3], 16 + 6);
    assert_eq!(Board::from_fen("8/8/8/8/8/8/8/6qP w - - 0 1").unwrap().encode_squares().grid[3], 32 | 128 | 6);
    assert_eq!(Board::from_fen("7r/8/8/8/8/8/8/8 w - - 0 1").unwrap().encode_squares().grid[0], 5 << 32);
    let mut board = Board::new();
    assert!(board.make_move("e2e4"));
    let after = board.encode_squares();
    assert_eq!(after.flags, 16 + 8 + 4);
    assert_eq!(after.turn, PieceColor::Black);
    assert_ne!(after, start);
}

#[test]
fn kings_checks_and_pins() {
    let board = Board::new();
    assert_eq!(board.get_king_loc(PieceColor::White), Some((7, 4)));
    assert_eq!(board.get_king_loc(PieceColor::Black), Some((0, 4)));
    assert_eq!(Board::empty().get_king_loc(PieceColor::White), None);
    assert!(!board.has_check());
    assert!(!Board::empty().has_check());
    // With two kings the one on the file nearer to the a-file is found.
    let two = Board::from_fen("8/8/8/8/8/8/1K6/K7 w - - 0 1").unwrap();
    assert_eq!(two.get_king_loc(PieceColor::White), Some((7, 0)));
    let two = Board::from_fen("8/8/8/8/8/8/K7/1K6 w - - 0 1").unwrap();
    assert_eq!(two.get_king_loc(PieceColor::White), Some((6, 0)));

    let checked = Board::from_fen("4k3/8/8/8/8/8/4r3/4K3 w - - 0 1").unwrap();
    assert!(checked.has_check());
    assert_eq!(checked.get_threats((7, 4), PieceColor::White), vec![(6, 4)]);
    assert_eq!(checked.get_threats((9, 4), PieceColor::White), vec![]);
    // A knight and a bishop at once.
    let twice = Board::from_fen("4k3/8/8/8/7b/5n2/8/4K3 w - - 0 1").unwrap();
    assert_eq!(twice.get_threats((7, 4), PieceColor::White), vec![(5, 5), (4, 7)]);
    // A king next door, also diagonally.
    let kings = Board::from_fen("8/8/8/8/8/8/3k4/4K3 w - - 0 1").unwrap();
    assert_eq!(kings.get_threats((7, 4), PieceColor::White), vec![(6, 3)]);

    let file = Board::from_fen("4k3/8/8/8/8/4r3/4B3/4K3 w - - 0 1").unwrap();
    assert_eq!(file.get_pins((6, 4), PieceColor::White), 4);
    assert_eq!(file.get_pins((6, 4), PieceColor::Black), 0);
    assert_eq!(file.get_pins((6, 3), PieceColor::White), 0);
    let rank = Board::from_fen("4k3/8/8/8/8/8/K2B3r/8 w - - 0 1").unwrap();
    assert_eq!(rank.get_pins((6, 3), PieceColor::White), 8);
    let rising = Board::from_fen("7b/8/8/8/8/8/1N6/K6k w - - 0 1").unwrap();
    assert_eq!(rising.get_pins((6, 1), PieceColor::White), 2);
    let falling = Board::from_fen("b7/8/8/8/8/8/6N1/k6K w - - 0 1").unwrap();
    assert_eq!(falling.get_pins((6, 6), PieceColor::White), 1);
    // A rook does not pin along a diagonal, nor a bishop along a file.
    let not = Board::from_fen("7r/8/8/8/8/8/1N6/K6k w - - 0 1").unwrap();
    assert_eq!(not.get_pins((6, 1), PieceColor::White), 0);
    let not = Board::from_fen("4k3/8/8/8/8/4b3/4B3/4K3 w - - 0 1").unwrap();
    assert_eq!(not.get_pins((6, 4), PieceColor::White), 0);
}

#[test]
fn positions_as_numbers_in_base_thirteen() {
    // Nothing but the flag for White to move, in the highest bit.
    assert_eq!(Board::empty().encode_b13(), [0, 0, 0, 1 << 63]);
    let words = |text: &str| Board::from_fen(text).unwrap().encode_b13();
    assert_eq!(words("8/8/8/8/8/8/8/8 b - - 0 1"), [0, 0, 0, 0]);
    // The last square is the last digit.
    assert_eq!(words("8/8/8/8/8/8/8/7p b - - 0 1"), [6, 0, 0, 0]);
    assert_eq!(words("8/8/8/8/8/8/8/7P b - - 0 1"), [12, 0, 0, 0]);
    assert_eq!(words("8/8/8/8/8/8/8/6kp b - - 0 1"), [13 + 6, 0, 0, 0]);
    assert_eq!(words("8/8/8/8/8/8/8/5Q1r b - - 0 1"), [8 * 169 + 5, 0, 0, 0]);
    // Seventeen digits and more spill into the second word.
    let big = 13u128.pow(17);
    assert_eq!(
        words("8/8/8/8/8/6k1/8/8 b - - 0 1"),
        [big as u64, (big >> 64) as u64, 0, 0]
    );
    // The flags: 16 for a right, 8 and the file for the en-passant target.
    assert_eq!(words("8/8/8/8/8/8/8/4K2R b K - 0 1")[3], 16 << 55);
    assert_eq!(
        words("rnbqkbnr/pppppppp/8/8/4P3/8/PPPP1PPP/RNBQKBNR b KQkq e3 0 1")[3] >> 55,
        16 + 8 + 4
    );
    assert_eq!(
        Board::new().encode_b13(),
        [START_WORDS[0], START_WORDS[1], START_WORDS[2], START_WORDS[3]]
    );
}

#[test]
fn sliding_squares_by_direction() {
    let board = Board::from_fen("4k3/8/8/3p4/8/8/3R2P1/4K1N1 w - - 0 1").unwrap();
    assert_eq!(
        board.get_piece_moves((6, 3), vec![Directions::North.step()]),
        vec![(5, 3), (4, 3), (3, 3)]
    );
    assert_eq!(
        board.get_piece_moves((6, 3), vec![Directions::East.step(), Directions::South.step()]),
        vec![(6, 4), (6, 5), (7, 3)]
    );
    assert_eq!(board.get_piece_moves((6, 3), vec![]), vec![]);
    assert_eq!(board.get_piece_moves((6, 3), vec![(9, 0), (0, 9)]), vec![]);
    // The black pawn looks the other way.
    assert_eq!(
        board.get_piece_moves((3, 3), vec![Directions::South.step()]),
        vec![(4, 3), (5, 3), (6, 3)]
    );
}
