use chess_engine::client::{click_plan, detect_move, difference, pieces_on, read_piece_mark, read_square_mark};
use chess_engine::game::chess_move::ChessMove;
use chess_engine::game::piece::{Piece, PieceColor, PieceType};
use chess_engine::game::position::Position;
use chess_engine::game::Game;

fn told(text: &str, chess_move: &str, color: PieceColor) -> Option<ChessMove> {
    let game = Game::from_fen(text).unwrap();
    let before = pieces_on(&game.board);
    let mut next = game.clone();
    next.make_move(&ChessMove::from_str(chess_move).unwrap());
    detect_move(&before, &pieces_on(&next.board), &color)
}

#[test]
fn marks_are_read() {
    assert_eq!(read_square_mark("square-52"), Some(Position::encode(1, 4)));
    assert_eq!(read_square_mark("square-11"), Some(Position::encode(0, 0)));
    assert_eq!(read_square_mark("square-88"), Some(Position::encode(7, 7)));
    assert_eq!(read_square_mark("square-18"), Some(Position::encode(7, 0)));
    for name in ["", "square-", "square-5", "square-09", "square-90", "square-123", "Square-52", "squares-5", "piece", "wp"] {
        assert_eq!(read_square_mark(name), None, "{}", name);
    }
    assert_eq!(
        read_piece_mark("wp"),
        Some(Piece { piece_type: PieceType::Pawn, color: PieceColor::White })
    );
    assert_eq!(
        read_piece_mark("bk"),
        Some(Piece { piece_type: PieceType::King, color: PieceColor::Black })
    );
    for (letter, kind) in [
        ('p', PieceType::Pawn),
        ('n', PieceType::Knight),
        ('r', PieceType::Rook),
        ('b', PieceType::Bishup),
        ('q', PieceType::Queen),
        ('k', PieceType::King),
    ] {
        assert_eq!(
            read_piece_mark(&format!("b{}", letter)),
            Some(Piece { piece_type: kind, color: PieceColor::Black })
        );
    }
    for name in ["", "w", "wx", "xp", "wP", "Wp", "wpp", "piece", "square-52"] {
        assert_eq!(read_piece_mark(name), None, "{}", name);
    }
}

#[test]
fn a_look_lists_the_pieces() {
    let game = Game::from_fen("4k3/8/8/8/8/8/P7/4K3 w - - 0 1").unwrap();
    let king = |color| Piece { piece_type: PieceType::King, color };
    assert_eq!(
        pieces_on(&game.board),
        vec![
            (king(PieceColor::White), Position::encode(0, 4)),
            (Piece { piece_type: PieceType::Pawn, color: PieceColor::White }, Position::encode(1, 0)),
            (king(PieceColor::Black), Position::encode(7, 4)),
        ]
    );
    assert_eq!(pieces_on(&Game::new().board).len(), 32);
    let a = pieces_on(&game.board);
    let b = vec![a[2], a[0]];
    assert_eq!(difference(&a, &b), vec![a[1]]);
    assert_eq!(difference(&b, &a), vec![]);
    assert_eq!(difference(&a, &vec![]), a);
}

#[test]
fn moves_are_told_from_two_looks() {
    let start = "rnbqkbnr/pppppppp/8/8/8/8/PPPPPPPP/RNBQKBNR w KQkq - 0 1";
    assert_eq!(told(start, "e2e4", PieceColor::White), ChessMove::from_str("e2e4"));
    assert_eq!(told(start, "g1f3", PieceColor::White), ChessMove::from_str("g1f3"));
    // The move of the other side is not told.
    assert_eq!(told(start, "e2e4", PieceColor::Black), None);
    // Nothing moved.
    let look = pieces_on(&Game::new().board);
    assert_eq!(detect_move(&look, &look, &PieceColor::White), None);
    // A capture, and a capture en passant.
    let open = "r3k2r/8/8/8/8/8/8/R3K2R w KQkq - 0 1";
    assert_eq!(told(open, "a1a8", PieceColor::White), ChessMove::from_str("a1a8"));
    assert_eq!(
        told("rnbqkbnr/ppp1pppp/8/8/3pP3/8/PPPP1PPP/RNBQKBNR b KQkq e3 0 2", "d4e3", PieceColor::Black),
        ChessMove::from_str("d4e3")
    );
    // Castles, told by the rook that left.
    assert_eq!(told(open, "O-O", PieceColor::White), Some(ChessMove::CastleKingside));
    assert_eq!(told(open, "O-O-O", PieceColor::White), Some(ChessMove::CastleQueenside));
    let black = "r3k2r/8/8/8/8/8/8/R3K2R b KQkq - 0 1";
    assert_eq!(told(black, "O-O", PieceColor::Black), Some(ChessMove::CastleKingside));
    assert_eq!(told(black, "O-O-O", PieceColor::Black), Some(ChessMove::CastleQueenside));
    // Promotions, with and without a capture.
    let last = "1n6/P7/8/8/8/8/8/k6K w - - 0 1";
    assert_eq!(told(last, "a7a8q", PieceColor::White), ChessMove::from_str("a7a8q"));
    assert_eq!(told(last, "a7b8n", PieceColor::White), ChessMove::from_str("a7b8n"));
}

#[test]
fn two_pieces_gone_and_two_come_without_a_rook_is_no_move() {
    let king = Piece { piece_type: PieceType::King, color: PieceColor::White };
    let pawn = Piece { piece_type: PieceType::Pawn, color: PieceColor::White };
    let before = vec![(king, Position::encode(0, 4)), (pawn, Position::encode(1, 0))];
    let after = vec![(king, Position::encode(0, 5)), (pawn, Position::encode(2, 0))];
    assert_eq!(detect_move(&before, &after, &PieceColor::White), None);
    // A rook that left from the middle of the rank is no castle either.
    let rook = Piece { piece_type: PieceType::Rook, color: PieceColor::White };
    let before = vec![(king, Position::encode(0, 4)), (rook, Position::encode(0, 3))];
    let after = vec![(king, Position::encode(0, 6)), (rook, Position::encode(0, 5))];
    assert_eq!(detect_move(&before, &after, &PieceColor::White), None);
}

#[test]
fn clicks_follow_the_move() {
    let white = PieceColor::White;
    let black = PieceColor::Black;
    let e = |row| Position::encode(row, 4);
    assert_eq!(
        click_plan(&ChessMove::CastleKingside, &white),
        (e(0), Position::encode(0, 6), None)
    );
    assert_eq!(
        click_plan(&ChessMove::CastleQueenside, &white),
        (e(0), Position::encode(0, 2), None)
    );
    assert_eq!(
        click_plan(&ChessMove::CastleKingside, &black),
        (e(7), Position::encode(7, 6), None)
    );
    assert_eq!(
        click_plan(&ChessMove::CastleQueenside, &black),
        (e(7), Position::encode(7, 2), None)
    );
    assert_eq!(
        click_plan(&ChessMove::from_str("e2e4").unwrap(), &white),
        (e(1), e(3), None)
    );
    assert_eq!(
        click_plan(&ChessMove::from_str("e7e8r").unwrap(), &white),
        (e(6), e(7), Some(PieceType::Rook))
    );
}
