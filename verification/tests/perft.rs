use chess_engine::game::chess_move::ChessMove;
use chess_engine::game::Game;

fn perft_helper(game: &Game, depth: usize) -> usize {
    if depth == 0 {
        return 1;
    }

    let moves = game.get_moves();
    let mut result = 0;

    for chess_move in moves.iter() {
        let mut next_game = game.clone();
        next_game.make_move(chess_move);
        result += perft_helper(&next_game, depth - 1);
    }

    result
}

fn perft(game: &Game, depth: usize) -> Vec<(ChessMove, usize)> {
    let moves = game.get_moves();

    let mut result: Vec<(ChessMove, usize)> = vec![];

    for chess_move in moves.iter() {
        let mut next_game = game.clone();
        next_game.make_move(chess_move);

        result.push((*chess_move, perft_helper(&next_game, depth - 1)));
    }

    result
}

#[test]
fn test_perft_start() {
    let curr_game = Game::new();

    let values = perft(&curr_game, 5);

    let expected_set: Vec<(&str, usize)> = vec![
        ("a2a3", 181046),
        ("b2b3", 215255),
        ("c2c3", 222861),
        ("d2d3", 328511),
        ("e2e3", 402988),
        ("f2f3", 178889),
        ("g2g3", 217210),
        ("h2h3", 181044),
        ("a2a4", 217832),
        ("b2b4", 216145),
        ("c2c4", 240082),
        ("d2d4", 361790),
        ("e2e4", 405385),
        ("f2f4", 198473),
        ("g2g4", 214048),
        ("h2h4", 218829),
        ("b1a3", 198572),
        ("b1c3", 234656),
        ("g1f3", 233491),
        ("g1h3", 198502),
    ];

    let expected_total = 4865609;

    let mut total = 0;
    for (chess_move, amount) in values {
        assert!(expected_set
            .iter()
            .any(|pair| pair == &(chess_move.to_string().as_str(), amount)));
        total += amount;
    }

    assert!(total == expected_total);
}

#[test]
fn test_perft_pos5() {
    let curr_game =
        Game::from_fen("rnbq1k1r/pp1Pbppp/2p5/8/2B5/8/PPP1NnPP/RNBQK2R w KQ - 1 8").expect("");
    let values = perft(&curr_game, 4);

    let expected_set: Vec<(&str, usize)> = vec![
        ("a2a3", 46833),
        ("b2b3", 46497),
        ("c2c3", 49406),
        ("g2g3", 44509),
        ("h2h3", 46762),
        ("a2a4", 48882),
        ("b2b4", 46696),
        ("g2g4", 45506),
        ("h2h4", 47811),
        ("d7c8q", 44226),
        ("d7c8r", 38077),
        ("d7c8b", 65053),
        ("d7c8n", 62009),
        ("b1d2", 40560),
        ("b1a3", 44378),
        ("b1c3", 50303),
        ("e2g1", 48844),
        ("e2c3", 54792),
        ("e2g3", 51892),
        ("e2d4", 52109),
        ("e2f4", 51127),
        ("c1d2", 46881),
        ("c1e3", 53637),
        ("c1f4", 52350),
        ("c1g5", 45601),
        ("c1h6", 40913),
        ("c4b3", 43453),
        ("c4d3", 43565),
        ("c4b5", 45559),
        ("c4d5", 48002),
        ("c4a6", 41884),
        ("c4e6", 49872),
        ("c4f7", 43289),
        ("h1f1", 46101),
        ("h1g1", 44668),
        ("d1d2", 48843),
        ("d1d3", 57153),
        ("d1d4", 57744),
        ("d1d5", 56899),
        ("d1d6", 43766),
        ("e1f1", 49775),
        ("e1d2", 33423),
        ("e1f2", 36783),
        ("O-O", 47054),
    ];

    let expected_total = 2103487;

    let mut total = 0;
    for (chess_move, amount) in values {
        assert!(expected_set
            .iter()
            .any(|pair| pair == &(chess_move.to_string().as_str(), amount)));
        total += amount;
    }

    assert!(total == expected_total);
}

#[test]
fn perft_start_shallow() {
    let game = Game::new();
    assert_eq!(perft_helper(&game, 1), 20);
    assert_eq!(perft_helper(&game, 2), 400);
    assert_eq!(perft_helper(&game, 3), 8902);
    assert_eq!(perft_helper(&game, 4), 197281);
}

#[test]
fn start_position_matches_its_fen() {
    let parsed = Game::from_fen("rnbqkbnr/pppppppp/8/8/8/8/PPPPPPPP/RNBQKBNR w KQkq - 0 1").unwrap();
    assert!(parsed == Game::new());
    assert_eq!(parsed.to_fen(), "rnbqkbnr/pppppppp/8/8/8/8/PPPPPPPP/RNBQKBNR w KQkq -");
}
