use chess_engine::chess_game::board::Board;
use chess_engine::chess_game::piece::{Piece, PieceColor};

#[test]
fn test_valid_loc() {
    for a in 'a'..='h' {
        for b in 1..=8 {
            let loc = format!("{}{}", a, b);
            assert!(Board::is_valid_loc(&loc));
        }
    }
}

#[test]
fn test_bad_loc() {
    assert!(!Board::is_valid_loc("a123"));
    assert!(!Board::is_valid_loc(""));
    assert!(!Board::is_valid_loc("ab"));
    assert!(!Board::is_valid_loc("a9"));
    assert!(!Board::is_valid_loc("z1"));
    assert!(!Board::is_valid_loc("a"));
}

#[test]
fn test_piece_equals() {
    let pawn = Piece::get_piece('P').unwrap();
    let same = Piece::get_piece('P').unwrap();
    let black = Piece::get_piece('p').unwrap();
    let rook = Piece::get_piece('R').unwrap();

    assert_eq!(pawn, pawn);
    assert_eq!(pawn, same);
    assert_ne!(pawn, black);
    assert_ne!(pawn, rook);
}

#[test]
fn test_cast_ray() {
    let board = Board::new();

    for y in [-1, 0, 1] {
        for x in [-1, 0, 1] {
            let value = board.cast_ray((5, 3), (y, x));

            println!("{:?}, ({}, {})", value, y, x);
        }
    }

    println!("{}", board.get_threats((5, 3), PieceColor::Black).len());

    let white_pawn = Piece::get_piece('P').unwrap();
    let black_pawn = Piece::get_piece('p').unwrap();
    assert_eq!(board.cast_ray((5, 3), (1, -1)), Some((white_pawn, 1)));
    assert_eq!(board.cast_ray((5, 3), (1, 0)), Some((white_pawn, 1)));
    assert_eq!(board.cast_ray((5, 3), (1, 1)), Some((white_pawn, 1)));
    assert_eq!(board.cast_ray((5, 3), (-1, 0)), Some((black_pawn, 4)));
    assert_eq!(board.cast_ray((5, 3), (-1, 1)), Some((black_pawn, 4)));
    assert_eq!(board.cast_ray((5, 3), (-1, -1)), None);
    assert_eq!(board.cast_ray((5, 3), (0, 1)), None);
    assert_eq!(board.cast_ray((5, 3), (0, -1)), None);
    assert_eq!(board.cast_ray((5, 3), (0, 0)), None);
    assert_eq!(board.get_threats((5, 3), PieceColor::Black), vec![(6, 4), (6, 2)]);
    assert_eq!(board.get_threats((5, 3), PieceColor::White).len(), 0);
}
