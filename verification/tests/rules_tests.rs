use chess_engine::game::board::Board;
use chess_engine::game::chess_move::ChessMove;
use chess_engine::game::fen::FenError;
use chess_engine::game::piece::{Piece, PieceColor, PieceType};
use chess_engine::game::position::{Position, PositionError};
use chess_engine::game::tracker::VectorPieceTracker;
use chess_engine::game::{CastleRights, Game};

fn sq(name: &str) -> Position {
    Position::from_str(name).unwrap()
}

fn mv(text: &str) -> ChessMove {
    ChessMove::from_str(text).unwrap()
}

fn texts(game: &Game) -> Vec<String> {
    game.get_moves().iter().map(|m| m.to_string()).collect()
}

fn has(game: &Game, text: &str) -> bool {
    texts(game).iter().any(|m| m == text)
}

#[test]
fn position_names_are_read_and_written() {
    assert_eq!(sq("a1"), Position::encode(0, 0));
    assert_eq!(sq("h8"), Position::encode(7, 7));
    assert_eq!(sq("e2"), Position::encode(1, 4));
    assert_eq!(Position::encode(3, 2).to_string(), "c4");
    assert_eq!(Position::encode(1, 4).decode(), (1, 4));
    assert_eq!(Position::encode(1, 4).decode_isize(), (1, 4));
    assert_eq!(Position::encode(6, 5).row(), 6);
    assert_eq!(Position::encode(6, 5).column(), 5);
    for row in 0..8 {
        for column in 0..8 {
            let p = Position::encode(row, column);
            assert!(p.is_valid());
            assert_eq!(Position::from_str(&p.to_string()), Ok(p));
        }
    }
}

#[test]
fn position_names_are_refused() {
    assert_eq!(Position::from_str(""), Err(PositionError::Length));
    assert_eq!(Position::from_str("a"), Err(PositionError::Length));
    assert_eq!(Position::from_str("a12"), Err(PositionError::Length));
    assert_eq!(Position::from_str("i1"), Err(PositionError::Column));
    assert_eq!(Position::from_str("A1"), Err(PositionError::Column));
    assert_eq!(Position::from_str("a0"), Err(PositionError::Row));
    assert_eq!(Position::from_str("a9"), Err(PositionError::Row));
}

#[test]
fn position_checked_encoding() {
    assert_eq!(Position::encode_checked(0, 7), Some(Position::encode(0, 7)));
    assert_eq!(Position::encode_checked(-1, 0), None);
    assert_eq!(Position::encode_checked(0, -1), None);
    assert_eq!(Position::encode_checked(8, 0), None);
    assert_eq!(Position::encode_checked(0, 8), None);
}

#[test]
fn position_steps_stop_at_the_edge() {
    assert_eq!(sq("e2").forward(&PieceColor::White), Some(sq("e3")));
    assert_eq!(sq("e2").forward(&PieceColor::Black), Some(sq("e1")));
    assert_eq!(sq("e2").backward(&PieceColor::White), Some(sq("e1")));
    assert_eq!(sq("e2").backward(&PieceColor::Black), Some(sq("e3")));
    assert_eq!(sq("e8").forward(&PieceColor::White), None);
    assert_eq!(sq("e1").forward(&PieceColor::Black), None);
    assert_eq!(sq("e1").backward(&PieceColor::White), None);
    assert_eq!(sq("e8").backward(&PieceColor::Black), None);
}

#[test]
fn piece_letters() {
    let white_knight = Piece { piece_type: PieceType::Knight, color: PieceColor::White };
    let black_queen = Piece { piece_type: PieceType::Queen, color: PieceColor::Black };
    assert_eq!(Piece::get_piece('N'), Some(white_knight));
    assert_eq!(Piece::get_piece('q'), Some(black_queen));
    assert_eq!(Piece::get_piece('x'), None);
    assert_eq!(Piece::get_piece('1'), None);
    assert_eq!(white_knight.to_char(), 'N');
    assert_eq!(black_queen.to_char(), 'q');
    for letter in ['k', 'q', 'b', 'n', 'r', 'p', 'K', 'Q', 'B', 'N', 'R', 'P'] {
        assert_eq!(Piece::get_piece(letter).unwrap().to_char(), letter);
    }
    assert_eq!(PieceType::from_char('B'), Some(PieceType::Bishup));
    assert_eq!(PieceType::from_char('z'), None);
    assert_eq!(PieceType::Rook.to_char(), 'r');
    assert_eq!(PieceColor::from_char('w'), Some(PieceColor::White));
    assert_eq!(PieceColor::from_char('b'), Some(PieceColor::Black));
    assert_eq!(PieceColor::from_char('W'), None);
    assert_eq!(PieceColor::White.to_char(), 'w');
    assert_eq!(PieceColor::Black.to_char(), 'b');
    assert_eq!(!PieceColor::White, PieceColor::Black);
    assert_eq!(!PieceColor::Black, PieceColor::White);
    assert_eq!(PieceColor::White.opponent(), PieceColor::Black);
    assert_eq!(PieceColor::Black.index(), 0);
    assert_eq!(PieceColor::White.index(), 1);
}

#[test]
fn move_text_is_read() {
    assert_eq!(ChessMove::from_str("O-O"), Some(ChessMove::CastleKingside));
    assert_eq!(ChessMove::from_str("O-O-O"), Some(ChessMove::CastleQueenside));
    assert_eq!(ChessMove::from_str("e2e4"), Some(ChessMove::Move(sq("e2"), sq("e4"))));
    assert_eq!(
        ChessMove::from_str("e7e8q"),
        Some(ChessMove::PawnPromote(sq("e7"), sq("e8"), PieceType::Queen))
    );
    assert_eq!(
        ChessMove::from_str("a2a1n"),
        Some(ChessMove::PawnPromote(sq("a2"), sq("a1"), PieceType::Knight))
    );
    assert_eq!(
        ChessMove::from_str("a2a1r"),
        Some(ChessMove::PawnPromote(sq("a2"), sq("a1"), PieceType::Rook))
    );
    assert_eq!(
        ChessMove::from_str("a2a1b"),
        Some(ChessMove::PawnPromote(sq("a2"), sq("a1"), PieceType::Bishup))
    );
}

#[test]
fn move_text_is_refused() {
    for text in ["", "e2", "e2e", "e2e9", "i2e4", "e2e4k", "e2e4p", "e2e4Q", "e2e4qq", "o-o", "O-O-", "xe2e4", "0-0"] {
        assert_eq!(ChessMove::from_str(text), None, "{}", text);
    }
}

#[test]
fn move_text_round_trip() {
    for text in ["O-O", "O-O-O", "a1h8", "h7h8q", "b2a1r", "g7h8b", "c2c1n"] {
        assert_eq!(mv(text).to_string(), text);
        assert!(mv(text).is_valid());
    }
    assert!(!ChessMove::Move(Position { row: 8, column: 0 }, sq("a1")).is_valid());
    assert!(!ChessMove::PawnPromote(sq("a7"), sq("a8"), PieceType::King).is_valid());
    assert!(!ChessMove::PawnPromote(sq("a7"), sq("a8"), PieceType::Pawn).is_valid());
}

#[test]
fn board_placement_primitives() {
    let mut board = Board::default();
    let rook = Piece { piece_type: PieceType::Rook, color: PieceColor::White };
    let pawn = Piece { piece_type: PieceType::Pawn, color: PieceColor::Black };
    assert_eq!(board.get(&sq("a1")), None);
    assert_eq!(board.add_piece(rook, &sq("a1")), None);
    assert_eq!(board.get(&sq("a1")), Some(&rook));
    assert_eq!(board.add_piece(pawn, &sq("a1")), Some(rook));
    assert_eq!(board.remove_piece(&sq("a1")), Some(pawn));
    assert_eq!(board.remove_piece(&sq("a1")), None);
    assert_eq!(board.get(&sq("a1")), None);

    board.add_piece(rook, &sq("a1"));
    board.add_piece(pawn, &sq("a7"));
    assert_eq!(board.make_move(&sq("a1"), &sq("a7")), Some(pawn));
    assert_eq!(board.get(&sq("a7")), Some(&rook));
    assert_eq!(board.get(&sq("a1")), None);
    // An empty square carries nothing anywhere.
    assert_eq!(board.make_move(&sq("b1"), &sq("a7")), None);
    assert_eq!(board.get(&sq("a7")), Some(&rook));
    assert_eq!(board.piece(6, 0), Some(rook));
}

#[test]
fn board_lists_pieces_in_board_order() {
    let game = Game::from_fen("4k3/8/8/8/8/2n5/P6P/R3K3 w Q - 0 1").unwrap();
    assert_eq!(
        game.board.get_pieces(&PieceColor::White),
        vec![
            (sq("a1"), PieceType::Rook),
            (sq("e1"), PieceType::King),
            (sq("a2"), PieceType::Pawn),
            (sq("h2"), PieceType::Pawn),
        ]
    );
    assert_eq!(
        game.board.get_pieces(&PieceColor::Black),
        vec![(sq("c3"), PieceType::Knight), (sq("e8"), PieceType::King)]
    );
    assert_eq!(game.board.get_king(&PieceColor::White), Some(sq("e1")));
    assert_eq!(game.board.get_king(&PieceColor::Black), Some(sq("e8")));
    assert_eq!(Board::default().get_king(&PieceColor::White), None);
}

#[test]
fn board_ray_casting() {
    let game = Game::new();
    let white_pawn = Piece { piece_type: PieceType::Pawn, color: PieceColor::White };
    let black_pawn = Piece { piece_type: PieceType::Pawn, color: PieceColor::Black };
    assert_eq!(game.board.cast_ray(&sq("d3"), -1, 0), Some((white_pawn, 1)));
    assert_eq!(game.board.cast_ray(&sq("d3"), 1, 0), Some((black_pawn, 4)));
    assert_eq!(game.board.cast_ray(&sq("d3"), 0, 1), None);
    assert_eq!(game.board.cast_ray(&sq("d3"), 1, -1), None);
    assert_eq!(game.board.cast_ray(&sq("d3"), 1, 1), Some((black_pawn, 4)));
    assert_eq!(game.board.cast_ray(&sq("d3"), 0, 0), None);
    assert_eq!(game.board.cast_ray(&sq("d3"), 100, 0), None);
    assert_eq!(
        game.board.cast_ray_to(&sq("d3"), 1, 1),
        Some((black_pawn, 4, sq("h7")))
    );
}

#[test]
fn board_sliding_and_jumping_squares() {
    let game = Game::from_fen("4k3/8/8/3p4/8/8/3R2P1/4K1N1 w - - 0 1").unwrap();
    let white = PieceColor::White;
    // Down, up, left, right; the blocker counts if it is an enemy.
    assert_eq!(
        game.board.get_rook_move_positions(&sq("d2"), &white, false),
        vec![sq("d1"), sq("d3"), sq("d4"), sq("d5"), sq("c2"), sq("b2"), sq("a2"), sq("e2"), sq("f2")]
    );
    assert_eq!(
        game.board.get_rook_move_positions(&sq("d2"), &white, true),
        vec![sq("d5")]
    );
    assert_eq!(
        game.board.get_bishup_move_positions(&sq("d2"), &white, false),
        vec![sq("c1"), sq("c3"), sq("b4"), sq("a5"), sq("e3"), sq("f4"), sq("g5"), sq("h6")]
    );
    assert_eq!(
        game.board.get_knight_move_positions(&sq("g1"), &white, false),
        vec![sq("e2"), sq("f3"), sq("h3")]
    );
    assert_eq!(
        game.board.get_knight_move_positions(&sq("g1"), &white, true),
        Vec::<Position>::new()
    );
    let mut moves = vec![sq("a1")];
    game.board.add_positions_in_direction(&sq("d2"), (1, 0), &white, false, &mut moves);
    assert_eq!(moves, vec![sq("a1"), sq("d3"), sq("d4"), sq("d5")]);
}

#[test]
fn board_attacks() {
    let white = PieceColor::White;
    let black = PieceColor::Black;
    // A knight.
    let game = Game::from_fen("4k3/8/8/8/8/5n2/8/4K3 w - - 0 1").unwrap();
    assert!(game.board.has_check(&sq("e1"), &white));
    assert!(!game.board.has_check(&sq("e2"), &white));
    // A pawn attacks one step diagonally forward only.
    let game = Game::from_fen("4k3/8/8/8/8/8/3p4/4K3 w - - 0 1").unwrap();
    assert!(game.board.has_check(&sq("e1"), &white));
    assert!(game.board.has_check(&sq("c1"), &white));
    assert!(!game.board.has_check(&sq("d1"), &white));
    assert!(!game.board.has_check(&sq("e3"), &white));
    let game = Game::from_fen("4k3/3P4/8/8/8/8/8/4K3 b - - 0 1").unwrap();
    assert!(game.board.has_check(&sq("e8"), &black));
    assert!(!game.board.has_check(&sq("e6"), &black));
    // A rook along an open file, and behind a blocker.
    let game = Game::from_fen("4k3/8/8/8/4r3/8/8/4K3 w - - 0 1").unwrap();
    assert!(game.board.has_check(&sq("e1"), &white));
    let game = Game::from_fen("4k3/8/8/8/4r3/8/4P3/4K3 w - - 0 1").unwrap();
    assert!(!game.board.has_check(&sq("e1"), &white));
    // A bishop and a queen along a diagonal; a rook does not attack along one.
    let game = Game::from_fen("4k3/8/8/8/7b/8/8/4K3 w - - 0 1").unwrap();
    assert!(game.board.has_check(&sq("e1"), &white));
    let game = Game::from_fen("4k3/8/8/8/7r/8/8/4K3 w - - 0 1").unwrap();
    assert!(!game.board.has_check(&sq("e1"), &white));
    let game = Game::from_fen("4k3/8/8/q7/8/8/8/4K3 w - - 0 1").unwrap();
    assert!(game.board.has_check(&sq("e1"), &white));
    // A king next to the square, straight and diagonal, but not two away.
    let game = Game::from_fen("8/8/8/8/8/4k3/8/4K3 w - - 0 1").unwrap();
    assert!(game.board.has_check(&sq("e2"), &white));
    assert!(game.board.has_check(&sq("d2"), &white));
    assert!(!game.board.has_check(&sq("e1"), &white));
    // Own pieces attack nothing of their own.
    let game = Game::new();
    assert!(!game.board.has_check(&sq("e1"), &white));
    assert!(!game.board.has_check(&sq("e3"), &white));
    assert!(game.board.has_check(&sq("e3"), &black));
}

#[test]
fn board_test_move_looks_at_the_king_afterwards() {
    // The bishop is pinned along the file.
    let game = Game::from_fen("4k3/8/8/8/8/4r3/4B3/4K3 w - - 0 1").unwrap();
    let white = PieceColor::White;
    assert!(!game.board.test_move(&sq("e2"), &sq("d3"), &sq("e1"), &white));
    assert!(game.board.test_move(&sq("e1"), &sq("d1"), &sq("d1"), &white));
    // The board itself is left alone.
    assert!(game.board.get(&sq("e2")).is_some());
}

#[test]
fn tracker_follows_pieces() {
    let game = Game::from_fen("4k3/8/8/8/8/2n5/P6P/R3K3 w Q - 0 1").unwrap();
    let mut tracker = VectorPieceTracker::from_board(&game.board);
    assert_eq!(tracker.get_pieces(&PieceColor::White), game.board.get_pieces(&PieceColor::White));
    assert_eq!(tracker.get_pieces(&PieceColor::Black), game.board.get_pieces(&PieceColor::Black));
    assert!(tracker.eq(&VectorPieceTracker::from_board(&game.board)));
    assert_eq!(VectorPieceTracker::default().get_pieces(&PieceColor::White).len(), 0);

    // The rook takes the knight.
    let rook = Piece { piece_type: PieceType::Rook, color: PieceColor::White };
    tracker.remove_piece(&sq("a1"), &PieceColor::White);
    tracker.replace_piece(&sq("c3"), &rook);
    assert_eq!(tracker.get_pieces(&PieceColor::Black), vec![(sq("e8"), PieceType::King)]);
    assert_eq!(
        tracker.get_pieces(&PieceColor::White),
        vec![
            (sq("e1"), PieceType::King),
            (sq("a2"), PieceType::Pawn),
            (sq("h2"), PieceType::Pawn),
            (sq("c3"), PieceType::Rook),
        ]
    );
    assert!(!tracker.eq(&VectorPieceTracker::from_board(&game.board)));
    let mut after = game.clone();
    after.make_move(&mv("a1c3"));
    assert!(tracker.eq(&VectorPieceTracker::from_board(&after.board)));
    assert!(VectorPieceTracker::from_board(&after.board).eq(&tracker));
}

#[test]
fn fen_is_read() {
    let game = Game::from_fen("r3k2r/8/8/8/3pP3/8/8/R3K2R b Kq e3 12 34").unwrap();
    assert_eq!(game.turn, PieceColor::Black);
    assert_eq!(game.en_passant, Some(sq("e3")));
    assert_eq!(game.half_moves, 0);
    assert_eq!(game.castle_rights[1], CastleRights { kingside: true, queenside: false });
    assert_eq!(game.castle_rights[0], CastleRights { kingside: false, queenside: true });
    assert_eq!(
        game.board.get(&sq("e4")),
        Some(&Piece { piece_type: PieceType::Pawn, color: PieceColor::White })
    );
    assert_eq!(
        game.board.get(&sq("a8")),
        Some(&Piece { piece_type: PieceType::Rook, color: PieceColor::Black })
    );
    assert_eq!(game.board.get(&sq("b1")), None);
    assert!(game.is_valid());
    assert_eq!(Game::from_fen("8/8/8/8/8/8/8/8 b - - 0 1").unwrap().turn, PieceColor::Black);
    assert_eq!(Game::from_fen("8/8/8/8/8/8/8/8 w - - 0 1").unwrap().turn, PieceColor::White);
    // Runs of empty squares may be split, as long as the row adds up to eight.
    let split = Game::from_fen("44/p34/1p6/8/8/8/8/8 w - - 0 1").unwrap();
    assert_eq!(split.to_fen(), "8/p7/1p6/8/8/8/8/8 w - -");
    assert_eq!(CastleRights::default(), CastleRights { kingside: false, queenside: false });
    let empty = Game::default();
    assert!(empty == Game::from_fen("8/8/8/8/8/8/8/8 w - - 0 1").unwrap());
}

#[test]
fn fen_is_refused() {
    let err = |text: &str| Game::from_fen(text).err();
    assert_eq!(err(""), Some(FenError::FieldCount));
    assert_eq!(err("8/8/8/8/8/8/8/8 w - -"), Some(FenError::FieldCount));
    assert_eq!(err("8/8/8/8/8/8/8/8 w - - 0 1 2"), Some(FenError::FieldCount));
    assert_eq!(err("8/8/8/8/8/8/8/8  w - - 0"), Some(FenError::InvalidTurn));
    assert_eq!(err("8/8/8/8/8/8/8 w - - 0 1"), Some(FenError::RowCount));
    assert_eq!(err("8/8/8/8/8/8/8/8/8 w - - 0 1"), Some(FenError::RowCount));
    assert_eq!(err("8/8/8/8/8/8/8/8p w - - 0 1"), Some(FenError::RowTooLong(0)));
    assert_eq!(err("ppppppppp/8/8/8/8/8/8/8 w - - 0 1"), Some(FenError::RowTooLong(7)));
    assert_eq!(err("7/8/8/8/8/8/8/8 w - - 0 1"), Some(FenError::RowTooShort(7)));
    assert_eq!(err("8/8/8/8/8/8/8/ w - - 0 1"), Some(FenError::RowTooShort(0)));
    assert_eq!(err("x7/8/8/8/8/8/8/8 w - - 0 1"), Some(FenError::InvalidSquare('x')));
    // The lowest rank is read first.
    assert_eq!(err("x7/8/8/8/8/8/8/7 w - - 0 1"), Some(FenError::RowTooShort(0)));
    assert_eq!(err("8/8/8/8/8/8/8/8 x - - 0 1"), Some(FenError::InvalidTurn));
    assert_eq!(err("8/8/8/8/8/8/8/8 W - - 0 1"), Some(FenError::InvalidTurn));
    assert_eq!(err("8/8/8/8/8/8/8/8 B - - 0 1"), Some(FenError::InvalidTurn));
    assert_eq!(err("8/8/8/8/8/8/8/8 wb - - 0 1"), Some(FenError::InvalidTurn));
    // A row that describes more than eight squares.
    assert_eq!(
        err("rnbqkbnr/pppppppp/9/8/8/8/PPPPPPPP/RNBQKBNR w KQkq - 0 1"),
        Some(FenError::RowTooLong(5))
    );
    assert_eq!(err("8/8/8/8/8/8/8/9 w - - 0 1"), Some(FenError::RowTooLong(0)));
    assert_eq!(err("8/8/8/8/8/8/8/45 w - - 0 1"), Some(FenError::RowTooLong(0)));
    assert_eq!(err("8/8/8/8/8/8/8/p8 w - - 0 1"), Some(FenError::RowTooLong(0)));
    assert_eq!(err("8/8/8/8/8/8/p8/8 w - - 0 1"), Some(FenError::RowTooLong(1)));
    assert_eq!(err("8/8/8/8/8/8/8/71p w - - 0 1"), Some(FenError::RowTooLong(0)));
    assert_eq!(err("8/8/8/8/8/8/8/80 w - - 0 1"), Some(FenError::RowTooLong(0)));
    assert_eq!(err("8/8/8/8/8/8/8/ppppppp2 w - - 0 1"), Some(FenError::RowTooLong(0)));
    assert_eq!(err("8/8/8/8/8/8/8/07 w - - 0 1"), Some(FenError::RowTooShort(0)));
    assert_eq!(err("8/8/8/8/8/8/8/8 w KQkqK - 0 1"), Some(FenError::InvalidCastling));
    assert_eq!(err("8/8/8/8/8/8/8/8 w Kx - 0 1"), Some(FenError::InvalidCastling));
    assert_eq!(err("8/8/8/8/8/8/8/8 w  - 0 1"), Some(FenError::InvalidCastling));
    assert_eq!(err("8/8/8/8/8/8/8/8 w - z9 0 1"), Some(FenError::EnPassantSquare));
    assert_eq!(err("8/8/8/8/8/8/8/8 w - e 0 1"), Some(FenError::EnPassantSquare));
    assert_eq!(
        err("rnbqkbnr/pppppppp/8/8/8/8/PPPPPPPP/RNBQKBNR b KQkq e3 0 1"),
        Some(FenError::EnPassantMismatch)
    );
    // The right square for the wrong side.
    assert_eq!(
        err("rnbqkbnr/pppppppp/8/8/4P3/8/PPPP1PPP/RNBQKBNR w KQkq e3 0 1"),
        Some(FenError::EnPassantMismatch)
    );
    assert_eq!(err("8/8/8/8/8/8/8/8 w - - x 1"), Some(FenError::HalfMoveClock));
    assert_eq!(err("8/8/8/8/8/8/8/8 w - - -1 1"), Some(FenError::HalfMoveClock));
    assert_eq!(err("8/8/8/8/8/8/8/8 w - - 0 y"), Some(FenError::FullMoveCounter));
    assert_eq!(err("8/8/8/8/8/8/8/8 w - - 0 1x"), Some(FenError::FullMoveCounter));
}

#[test]
fn fen_round_trip() {
    for text in [
        "rnbqkbnr/pppppppp/8/8/8/8/PPPPPPPP/RNBQKBNR w KQkq -",
        "rnbqkbnr/pppppppp/8/8/4P3/8/PPPP1PPP/RNBQKBNR b KQkq e3",
        "rnbqkbnr/ppp1pppp/8/3p4/4P3/8/PPPP1PPP/RNBQKBNR w KQkq d6",
        "r3k2r/8/8/8/8/8/8/R3K2R w Kq -",
        "8/8/8/8/8/8/8/8 b - -",
        "rnbq1k1r/pp1Pbppp/2p5/8/2B5/8/PPP1NnPP/RNBQK2R w KQ -",
        "1p1p1p1p/p1p1p1p1/8/8/8/8/P1P1P1P1/1P1P1P1P w q -",
    ] {
        let game = Game::from_fen(&format!("{} 0 1", text)).unwrap();
        assert_eq!(game.to_fen(), text);
        let again = Game::from_fen(&format!("{} 7 9", game.to_fen())).unwrap();
        assert!(again == game);
    }
}

#[test]
fn fen_round_trip_along_a_game() {
    let mut game = Game::new();
    for text in ["e2e4", "c7c5", "g1f3", "d7d6", "f1b5", "c8d7", "O-O", "g8f6", "d2d4", "c5d4"] {
        assert!(has(&game, text), "{}", text);
        game.make_move(&mv(text));
        let read = Game::from_fen(&format!("{} 0 1", game.to_fen())).unwrap();
        assert!(read.board == game.board);
        assert_eq!(read.turn, game.turn);
        assert_eq!(read.castle_rights, game.castle_rights);
        assert_eq!(read.en_passant, game.en_passant);
        assert_eq!(read.to_fen(), game.to_fen());
    }
    assert_eq!(game.half_moves, 10);
    assert_eq!(game.to_fen(), "rn1qkb1r/pp1bpppp/3p1n2/1B6/3pP3/5N2/PPP2PPP/RNBQ1RK1 w kq -");
}

#[test]
fn moves_do_not_leave_the_mover_in_check() {
    for text in [
        "rnbqkbnr/pppppppp/8/8/8/8/PPPPPPPP/RNBQKBNR w KQkq - 0 1",
        "rnbq1k1r/pp1Pbppp/2p5/8/2B5/8/PPP1NnPP/RNBQK2R w KQ - 1 8",
        "r3k2r/p1ppqpb1/bn2pnp1/3PN3/1p2P3/2N2Q1p/PPPBBPPP/R3K2R w KQkq - 0 1",
        "8/2p5/3p4/KP5r/1R3p1k/8/4P1P1/8 w - - 0 1",
        "4k3/8/8/8/8/4r3/4B3/4K3 w - - 0 1",
        "rnbqkbnr/ppp1pppp/8/8/3pP3/8/PPPP1PPP/RNBQKBNR b KQkq e3 0 2",
    ] {
        let game = Game::from_fen(text).unwrap();
        let mover = game.turn;
        for chess_move in game.get_moves() {
            let mut next = game.clone();
            next.make_move(&chess_move);
            let king = next.board.get_king(&mover).unwrap();
            assert!(!next.board.has_check(&king, &mover), "{} in {}", chess_move.to_string(), text);
            let before = game.board.get_king(&mover).unwrap();
            assert!(game.is_safe(&before, &chess_move));
        }
        // Every candidate that is left out would have left the king in check.
        let king = game.board.get_king(&mover).unwrap();
        let moves = game.get_moves();
        for candidate in game.get_candidates() {
            let kept = moves.iter().any(|m| m == &candidate);
            assert_eq!(kept, game.is_safe(&king, &candidate));
        }
    }
}

#[test]
fn pinned_piece_does_not_move() {
    let game = Game::from_fen("4k3/8/8/8/8/4r3/4B3/4K3 w - - 0 1").unwrap();
    assert_eq!(texts(&game), vec!["e1d1", "e1f1", "e1d2", "e1f2"]);
    // A rook pinned along a file still moves along it.
    let game = Game::from_fen("4k3/8/8/8/8/4r3/4R3/4K3 w - - 0 1").unwrap();
    assert!(has(&game, "e2e3"));
    assert!(!has(&game, "e2d2"));
}

#[test]
fn double_check_leaves_only_king_moves() {
    // The knight on f3 and the rook on e8 both give check.
    let game = Game::from_fen("4r1k1/8/8/8/8/5n2/3P4/R3K3 w Q - 0 1").unwrap();
    let moves = texts(&game);
    assert!(!moves.is_empty());
    for text in moves {
        assert!(text.starts_with("e1"), "{}", text);
    }
}

#[test]
fn side_without_king_has_no_moves() {
    let game = Game::from_fen("8/8/8/8/8/8/PPPPPPPP/RNBQ1BNR w - - 0 1").unwrap();
    assert!(game.get_moves().is_empty());
    assert!(Game::default().get_moves().is_empty());
    assert!(!game.get_candidates().is_empty());
}

#[test]
fn castling_is_offered_under_its_conditions() {
    let open = "r3k2r/8/8/8/8/8/8/R3K2R w KQkq - 0 1";
    let game = Game::from_fen(open).unwrap();
    assert!(has(&game, "O-O"));
    assert!(has(&game, "O-O-O"));
    let moves = texts(&game);
    // The castles come last, kingside first.
    assert_eq!(moves[moves.len() - 2], "O-O");
    assert_eq!(moves[moves.len() - 1], "O-O-O");

    let refused = |text: &str, castle: &str| !has(&Game::from_fen(text).unwrap(), castle);
    // No right.
    assert!(refused("r3k2r/8/8/8/8/8/8/R3K2R w Qkq - 0 1", "O-O"));
    assert!(refused("r3k2r/8/8/8/8/8/8/R3K2R w Kkq - 0 1", "O-O-O"));
    assert!(!refused("r3k2r/8/8/8/8/8/8/R3K2R w Kkq - 0 1", "O-O"));
    // A square between king and rook is occupied.
    assert!(refused("r3k2r/8/8/8/8/8/8/R3KB1R w KQkq - 0 1", "O-O"));
    assert!(refused("r3k2r/8/8/8/8/8/8/R3K1NR w KQkq - 0 1", "O-O"));
    assert!(refused("r3k2r/8/8/8/8/8/8/RN2K2R w KQkq - 0 1", "O-O-O"));
    assert!(refused("r3k2r/8/8/8/8/8/8/R1B1K2R w KQkq - 0 1", "O-O-O"));
    assert!(refused("r3k2r/8/8/8/8/8/8/R2QK2R w KQkq - 0 1", "O-O-O"));
    // The king is in check.
    assert!(refused("r3k2r/8/8/8/8/8/4r3/R3K2R w KQkq - 0 1", "O-O"));
    assert!(refused("r3k2r/8/8/8/8/8/4r3/R3K2R w KQkq - 0 1", "O-O-O"));
    // The king would cross an attacked square.
    assert!(refused("r3k2r/8/8/8/8/5r2/8/R3K2R w KQkq - 0 1", "O-O"));
    assert!(!refused("r3k2r/8/8/8/8/5r2/8/R3K2R w KQkq - 0 1", "O-O-O"));
    assert!(refused("r3k2r/8/8/8/8/3r4/8/R3K2R w KQkq - 0 1", "O-O-O"));
    // The king would arrive on an attacked square.
    assert!(refused("r3k2r/8/8/8/8/6r1/8/R3K2R w KQkq - 0 1", "O-O"));
    assert!(refused("r3k2r/8/8/8/8/2r5/8/R3K2R w KQkq - 0 1", "O-O-O"));
    // An attack on the rook or on the square next to it does not matter.
    assert!(!refused("r3k2r/8/8/8/8/7r/8/R3K2R w KQkq - 0 1", "O-O"));
    assert!(!refused("r3k2r/8/8/8/8/1r6/8/R3K2R w KQkq - 0 1", "O-O-O"));
    // The rook is not at home.
    assert!(refused("r3k2r/8/8/8/8/8/8/R3K3 w KQkq - 0 1", "O-O"));
    // Black castles too.
    let game = Game::from_fen("r3k2r/8/8/8/8/8/8/R3K2R b KQkq - 0 1").unwrap();
    assert!(has(&game, "O-O"));
    assert!(has(&game, "O-O-O"));
}

#[test]
fn castling_moves_king_and_rook_and_clears_rights() {
    let king = |color| Piece { piece_type: PieceType::King, color };
    let rook = |color| Piece { piece_type: PieceType::Rook, color };
    let none = CastleRights { kingside: false, queenside: false };
    let all = CastleRights { kingside: true, queenside: true };

    let mut game = Game::from_fen("r3k2r/8/8/8/8/8/8/R3K2R w KQkq - 0 1").unwrap();
    game.make_move(&ChessMove::CastleKingside);
    assert_eq!(game.to_fen(), "r3k2r/8/8/8/8/8/8/R4RK1 b kq -");
    assert_eq!(game.board.get(&sq("g1")), Some(&king(PieceColor::White)));
    assert_eq!(game.board.get(&sq("f1")), Some(&rook(PieceColor::White)));
    assert_eq!(game.board.get(&sq("e1")), None);
    assert_eq!(game.board.get(&sq("h1")), None);
    assert_eq!(game.castle_rights[1], none);
    assert_eq!(game.castle_rights[0], all);
    game.make_move(&ChessMove::CastleQueenside);
    assert_eq!(game.to_fen(), "2kr3r/8/8/8/8/8/8/R4RK1 w - -");
    assert_eq!(game.castle_rights[0], none);
    assert_eq!(game.half_moves, 2);

    let mut game = Game::from_fen("r3k2r/8/8/8/8/8/8/R3K2R w KQkq - 0 1").unwrap();
    game.make_move(&ChessMove::CastleQueenside);
    assert_eq!(game.to_fen(), "r3k2r/8/8/8/8/8/8/2KR3R b kq -");
    game.make_move(&ChessMove::CastleKingside);
    assert_eq!(game.to_fen(), "r4rk1/8/8/8/8/8/8/2KR3R w - -");
}

#[test]
fn rights_are_lost_for_good() {
    let fen = |text: &str, moves: &[&str]| {
        let mut game = Game::from_fen(text).unwrap();
        for m in moves {
            game.make_move(&mv(m));
        }
        game.to_fen()
    };
    let open = "r3k2r/8/8/8/8/8/8/R3K2R w KQkq - 0 1";
    // The king moves and comes back.
    assert_eq!(fen(open, &["e1e2", "e8e7", "e2e1", "e7e8"]), "r3k2r/8/8/8/8/8/8/R3K2R w - -");
    // A rook leaves its corner and comes back.
    assert_eq!(fen(open, &["h1h2", "a8a7", "h2h1", "a7a8"]), "r3k2r/8/8/8/8/8/8/R3K2R w Qk -");
    assert_eq!(fen(open, &["a1a2", "h8h7", "a2a1", "h7h8"]), "r3k2r/8/8/8/8/8/8/R3K2R w Kq -");
    // A rook is captured in its corner.
    assert_eq!(fen(open, &["h1h8"]), "r3k2R/8/8/8/8/8/8/R3K3 b Qq -");
    assert_eq!(fen(open, &["a1a8"]), "R3k2r/8/8/8/8/8/8/4K2R b Kk -");
    // A rook that is not in a corner changes nothing when it moves or falls.
    assert_eq!(
        fen("r3k2r/8/8/3r4/3R4/8/8/R3K2R w KQkq - 0 1", &["d4d5"]),
        "r3k2r/8/8/3R4/8/8/8/R3K2R b KQkq -"
    );
    // A promotion that takes a rook in its corner.
    assert_eq!(
        fen("r3k2r/1P6/8/8/8/8/8/4K3 w kq - 0 1", &["b7a8q"]),
        "Q3k2r/8/8/8/8/8/8/4K3 b k -"
    );
    // The castle is then no longer offered.
    let mut game = Game::from_fen(open).unwrap();
    for m in ["e1e2", "e8e7", "e2e1", "e7e8"] {
        game.make_move(&mv(m));
    }
    assert!(!has(&game, "O-O"));
    assert!(!has(&game, "O-O-O"));
}

#[test]
fn en_passant_comes_and_goes() {
    let mut game = Game::new();
    game.make_move(&mv("e2e4"));
    assert_eq!(game.en_passant, Some(sq("e3")));
    game.make_move(&mv("g8f6"));
    assert_eq!(game.en_passant, None);
    game.make_move(&mv("e4e5"));
    assert_eq!(game.en_passant, None);
    game.make_move(&mv("d7d5"));
    assert_eq!(game.en_passant, Some(sq("d6")));
    assert!(has(&game, "e5d6"));
    // A single step and a piece's move from the second rank set no target.
    let mut game = Game::new();
    game.make_move(&mv("e2e3"));
    assert_eq!(game.en_passant, None);
    let mut game = Game::from_fen("4k3/8/8/8/8/8/4R3/4K3 w - - 0 1").unwrap();
    game.make_move(&mv("e2e4"));
    assert_eq!(game.en_passant, None);
}

#[test]
fn en_passant_takes_the_pawn_that_passed() {
    let text = "rnbqkbnr/ppp1pppp/8/8/3pP3/8/PPPP1PPP/RNBQKBNR b KQkq e3 0 2";
    let mut game = Game::from_fen(text).unwrap();
    assert!(has(&game, "d4e3"));
    game.make_move(&mv("d4e3"));
    assert_eq!(game.to_fen(), "rnbqkbnr/ppp1pppp/8/8/8/4p3/PPPP1PPP/RNBQKBNR w KQkq -");
    assert_eq!(game.board.get(&sq("e4")), None);
    // One move later the capture is gone.
    let late = "rnbqkbnr/ppp1pppp/8/8/3pP3/8/PPPP1PPP/RNBQKBNR b KQkq - 0 2";
    assert!(!has(&Game::from_fen(late).unwrap(), "d4e3"));
    // White takes on the sixth rank.
    let mut game =
        Game::from_fen("rnbqkbnr/ppp1pppp/8/3pP3/8/8/PPPP1PPP/RNBQKBNR w KQkq d6 0 3").unwrap();
    assert!(has(&game, "e5d6"));
    game.make_move(&mv("e5d6"));
    assert_eq!(game.to_fen(), "rnbqkbnr/ppp1pppp/3P4/8/8/8/PPPP1PPP/RNBQKBNR b KQkq -");
}

#[test]
fn en_passant_is_refused_when_it_opens_the_rank() {
    // Both pawns leave the fifth rank at once and the rook sees the king.
    let game = Game::from_fen("8/8/8/K2Pp2r/8/8/8/7k w - e6 0 1").unwrap();
    assert!(!has(&game, "d5e6"));
    assert!(has(&game, "d5d6"));
}

#[test]
fn promotion_comes_in_four_and_never_plain() {
    let game = Game::from_fen("1n6/P7/8/8/8/8/8/k6K w - - 0 1").unwrap();
    let moves = texts(&game);
    for text in ["a7a8q", "a7a8r", "a7a8b", "a7a8n", "a7b8q", "a7b8r", "a7b8b", "a7b8n"] {
        assert!(moves.iter().any(|m| m == text), "{}", text);
    }
    assert!(!moves.iter().any(|m| m == "a7a8" || m == "a7b8"));
    let first = moves.iter().position(|m| m == "a7a8q").unwrap();
    assert_eq!(&moves[first..first + 4], ["a7a8q", "a7a8r", "a7a8b", "a7a8n"]);
    let mut next = game.clone();
    next.make_move(&mv("a7b8n"));
    assert_eq!(next.to_fen(), "1N6/8/8/8/8/8/8/k6K b - -");
    // Black promotes on the first rank.
    let game = Game::from_fen("K6k/8/8/8/8/8/p7/8 b - - 0 1").unwrap();
    let moves = texts(&game);
    assert!(moves.iter().any(|m| m == "a2a1q"));
    assert!(!moves.iter().any(|m| m == "a2a1"));
    let mut next = game.clone();
    next.make_move(&mv("a2a1q"));
    assert_eq!(next.to_fen(), "K6k/8/8/8/8/8/8/q7 w - -");
    // A pawn short of the last rank is not promoted.
    let game = Game::from_fen("8/8/P7/8/8/8/8/k6K w - - 0 1").unwrap();
    assert_eq!(texts(&game).iter().filter(|m| m.starts_with("a6")).count(), 1);
}

#[test]
fn pawn_moves() {
    let game = Game::new();
    assert!(has(&game, "e2e3"));
    assert!(has(&game, "e2e4"));
    // A blocked pawn does not move, and does not jump.
    let game = Game::from_fen("4k3/8/8/8/8/4n3/4P3/4K3 w - - 0 1").unwrap();
    assert!(!has(&game, "e2e3"));
    assert!(!has(&game, "e2e4"));
    let game = Game::from_fen("4k3/8/8/8/4n3/8/4P3/4K3 w - - 0 1").unwrap();
    assert!(has(&game, "e2e3"));
    assert!(!has(&game, "e2e4"));
    // A pawn takes diagonally, towards the h-file first.
    let game = Game::from_fen("4k3/8/8/8/8/3p1p2/4P3/K7 w - - 0 1").unwrap();
    let pawn: Vec<String> = texts(&game).into_iter().filter(|m| m.starts_with("e2")).collect();
    assert_eq!(pawn, vec!["e2e3", "e2e4", "e2f3", "e2d3"]);
}

#[test]
fn make_move_counts_and_flips() {
    let mut game = Game::new();
    assert_eq!(game.turn, PieceColor::White);
    assert_eq!(game.half_moves, 0);
    game.make_move(&mv("g1f3"));
    assert_eq!(game.turn, PieceColor::Black);
    assert_eq!(game.half_moves, 1);
    game.make_move(&mv("g8f6"));
    assert_eq!(game.turn, PieceColor::White);
    assert_eq!(game.half_moves, 2);
    // The board that a move leaves can be had without making the move.
    let after = game.board_after(&mv("f3e5"));
    assert!(game.board.get(&sq("f3")).is_some());
    assert!(after.get(&sq("f3")).is_none());
    assert!(after.get(&sq("e5")).is_some());
}

#[test]
fn no_promotion_is_listed_twice() {
    let game = Game::from_fen("1n2k3/P1P5/8/8/8/8/8/4K3 w - - 0 1").unwrap();
    let moves = game.get_moves();
    let promotions: Vec<&ChessMove> =
        moves.iter().filter(|m| matches!(m, ChessMove::PawnPromote(..))).collect();
    // Each of the two pawns steps ahead or takes the knight, as four pieces.
    assert_eq!(promotions.len(), 16);
    for promotion in promotions.iter() {
        assert_eq!(moves.iter().filter(|m| m == promotion).count(), 1);
    }
    let black = Game::from_fen("4k3/8/8/8/8/8/5p2/6NK b - - 0 1").unwrap();
    let moves = black.get_moves();
    let promotions: Vec<&ChessMove> =
        moves.iter().filter(|m| matches!(m, ChessMove::PawnPromote(..))).collect();
    assert_eq!(promotions.len(), 8);
    for promotion in promotions.iter() {
        assert_eq!(moves.iter().filter(|m| m == promotion).count(), 1);
    }
}

#[test]
fn only_the_first_king_is_looked_after() {
    // With two kings of one side the moves are held against the first of
    // them alone: the other may be left attacked.
    let mut game = Game::from_fen("4k3/8/8/8/7b/8/8/K3K3 w - - 0 1").unwrap();
    let first = game.board.get_king(&PieceColor::White).unwrap();
    assert_eq!(first, Position::encode(0, 0));
    let step = ChessMove::from_str("a1a2").unwrap();
    assert!(game.get_moves().contains(&step));
    game.make_move(&step);
    let found = game.board.get_king(&PieceColor::White).unwrap();
    assert_eq!(found, Position::encode(0, 4));
    assert!(game.board.has_check(&found, &PieceColor::White));
    // With one king the mover is never left attacked.
    let game = Game::from_fen("4k3/8/8/8/7b/8/8/4K3 w - - 0 1").unwrap();
    let moves = game.get_moves();
    assert!(!moves.is_empty());
    for chess_move in moves.iter() {
        let mut next = game.clone();
        next.make_move(chess_move);
        let king = next.board.get_king(&PieceColor::White).unwrap();
        assert!(!next.board.has_check(&king, &PieceColor::White));
    }
}
