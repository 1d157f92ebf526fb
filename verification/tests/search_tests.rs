use chess_engine::engine::evaluation::score_with_jitter;
use chess_engine::engine::parallel::{castle_bonus, pick_line};
use chess_engine::engine::tree::Node;
use chess_engine::engine::{saturating_sum, Engine};
use chess_engine::game::chess_move::ChessMove;
use chess_engine::game::piece::PieceColor;
use chess_engine::game::position::Position;
use chess_engine::game::Game;

const MATE_IN_ONE: &str = "6k1/5ppp/8/8/8/8/8/R3K3 w - - 0 1";
const MATED: &str = "R5k1/5ppp/8/8/8/8/8/4K3 b - - 0 1";
const STALEMATE: &str = "7k/5Q2/6K1/8/8/8/8/8 b - - 0 1";

fn quiet(text: &str, player: PieceColor, depth: u16) -> Engine {
    let mut engine = Engine::new(Game::from_fen(text).unwrap(), player, depth);
    engine.jitter = false;
    engine
}

fn value(text: &str, player: PieceColor) -> i32 {
    score_with_jitter(&Game::from_fen(text).unwrap(), player, 0)
}

/// Minimax without any pruning, written out once more.
fn plain_minimax(engine: &Engine, game: &Game, depth: u16) -> i32 {
    if depth == 0 {
        return engine.evaluate_state(game);
    }
    let moves = game.get_moves();
    if moves.is_empty() {
        return if !Engine::king_attacked(game) {
            0
        } else if engine.player == game.turn {
            i32::MIN + (engine.search_depth - depth) as i32
        } else {
            i32::MAX - (engine.search_depth - depth) as i32
        };
    }
    let values = moves.iter().map(|chess_move| {
        let mut next = game.clone();
        next.make_move(chess_move);
        let bonus = castle_bonus(chess_move);
        let found = plain_minimax(engine, &next, depth - 1);
        if game.turn == engine.player {
            found.saturating_add(bonus)
        } else {
            found.saturating_sub(bonus)
        }
    });
    if game.turn == engine.player {
        values.max().unwrap()
    } else {
        values.min().unwrap()
    }
}

#[test]
fn evaluation_of_the_start() {
    let game = Game::new();
    // Rights 100 - 50; back ranks 3950 each; pawns 800 against 960.
    assert_eq!(score_with_jitter(&game, PieceColor::White, 0), -110);
    assert_eq!(score_with_jitter(&game, PieceColor::Black, 0), -110);
    assert_eq!(score_with_jitter(&game, PieceColor::White, 7), -103);
    assert_eq!(score_with_jitter(&game, PieceColor::White, -10), -120);
    let engine = quiet("rnbqkbnr/pppppppp/8/8/8/8/PPPPPPPP/RNBQKBNR w KQkq - 0 1", PieceColor::White, 3);
    assert_eq!(engine.evaluate_state(&game), -110);
}

#[test]
fn evaluation_of_kings() {
    let white = PieceColor::White;
    assert_eq!(value("4k3/8/8/8/8/8/8/4K3 w - - 0 1", white), 0);
    assert_eq!(value("4k3/8/8/8/8/8/8/K7 w - - 0 1", white), 150);
    assert_eq!(value("4k3/8/8/8/8/8/8/K7 w - - 0 1", PieceColor::Black), -150);
    assert_eq!(value("4k3/8/8/8/3K4/8/8/8 w - - 0 1", white), 0);
    assert_eq!(value("4k3/8/8/8/8/8/3K4/8 w - - 0 1", white), -50);
    // After thirty moves the king is better off in the middle.
    let mut game = Game::from_fen("4k3/8/8/8/8/8/8/K7 w - - 0 1").unwrap();
    game.half_moves = 29;
    assert_eq!(score_with_jitter(&game, white, 0), 150);
    game.half_moves = 30;
    assert_eq!(score_with_jitter(&game, white, 0), -150 + 50);
    let mut game = Game::from_fen("4k3/8/8/8/3K4/8/8/8 w - - 0 1").unwrap();
    game.half_moves = 30;
    assert_eq!(score_with_jitter(&game, white, 0), 50);
}

#[test]
fn evaluation_of_pieces() {
    let white = PieceColor::White;
    // A queen away from home counts less in the first ten moves.
    assert_eq!(value("4k3/8/8/8/3Q4/8/8/4K3 w - - 0 1", white), 800);
    assert_eq!(value("4k3/8/8/8/8/8/8/3QK3 w - - 0 1", white), 1000);
    assert_eq!(value("4k3/8/8/8/8/8/8/2Q1K3 w - - 0 1", white), 800);
    assert_eq!(value("3qk3/8/8/8/8/8/8/4K3 w - - 0 1", white), -1000);
    let mut game = Game::from_fen("4k3/8/8/8/3Q4/8/8/4K3 w - - 0 1").unwrap();
    game.half_moves = 9;
    assert_eq!(score_with_jitter(&game, white, 0), 800);
    game.half_moves = 10;
    assert_eq!(score_with_jitter(&game, white, 0), 1000);
    // Rooks.
    assert_eq!(value("4k3/8/8/8/8/8/8/R3K3 w - - 0 1", white), 500);
    assert_eq!(value("r3k3/8/8/8/8/8/8/R3K3 w - - 0 1", white), 0);
    // Bishops take turns at 425 and 525.
    assert_eq!(value("4k3/8/8/8/8/8/8/B3K3 w - - 0 1", white), 425);
    assert_eq!(value("4k3/8/8/8/8/8/8/BB2K3 w - - 0 1", white), 950);
    assert_eq!(value("4k3/8/8/8/8/8/8/BBB1K3 w - - 0 1", white), 1375);
    assert_eq!(value("b3k3/8/8/8/8/8/8/BB2K3 w - - 0 1", white), 525);
    // Knights by square: 300 at the rim and 350 in the middle, and 100.
    assert_eq!(value("4k3/8/8/8/8/8/8/N3K3 w - - 0 1", white), 400);
    assert_eq!(value("4k3/8/8/8/3N4/8/8/4K3 w - - 0 1", white), 450);
    // The second knight counts 200 where no bishop stands before the first.
    assert_eq!(value("4k3/8/8/8/8/8/8/NN2K3 w - - 0 1", white), 900);
    assert_eq!(value("4k3/8/8/8/8/8/8/BNN1K3 w - - 0 1", white), 425 + 400 + 400);
    assert_eq!(value("4k3/8/8/8/8/8/8/NBN1K3 w - - 0 1", white), 400 + 425 + 500);
}

#[test]
fn evaluation_of_pawns_and_rights() {
    let white = PieceColor::White;
    let black = PieceColor::Black;
    assert_eq!(value("4k3/8/8/8/8/8/P7/4K3 w - - 0 1", white), 100);
    assert_eq!(value("4k3/8/8/8/8/2P5/8/4K3 w - - 0 1", white), 115);
    assert_eq!(value("4k3/8/8/8/2P5/8/8/4K3 w - - 0 1", white), 120);
    assert_eq!(value("4k3/8/8/8/P7/8/8/4K3 w - - 0 1", white), 105);
    assert_eq!(value("4k3/P7/8/8/8/8/8/4K3 w - - 0 1", white), 120);
    // The table is read from the engine's side of the board.
    assert_eq!(value("4k3/8/8/8/8/8/P7/4K3 w - - 0 1", black), -120);
    assert_eq!(value("4k3/p7/8/8/8/8/8/4K3 w - - 0 1", black), 100);
    assert_eq!(value("4k3/p7/8/8/8/8/8/4K3 w - - 0 1", white), -120);
    // Two more for each move made.
    let mut game = Game::from_fen("4k3/8/8/8/8/8/P7/4K3 w - - 0 1").unwrap();
    game.half_moves = 5;
    assert_eq!(score_with_jitter(&game, white, 0), 110);
    assert_eq!(score_with_jitter(&game, black, 0), -130);
    // Fifty for each right of one's own, twenty-five off for each of the other side's.
    assert_eq!(value("r3k2r/8/8/8/8/8/8/R3K2R w KQkq - 0 1", white), 50);
    assert_eq!(value("r3k2r/8/8/8/8/8/8/R3K2R w KQ - 0 1", white), 100);
    assert_eq!(value("r3k2r/8/8/8/8/8/8/R3K2R w K - 0 1", white), 50);
    assert_eq!(value("r3k2r/8/8/8/8/8/8/R3K2R w kq - 0 1", white), -50);
    assert_eq!(value("r3k2r/8/8/8/8/8/8/R3K2R w kq - 0 1", black), 100);
    assert_eq!(value("r3k2r/8/8/8/8/8/8/R3K2R w q - 0 1", white), -25);
}

#[test]
fn jitter_stays_within_ten() {
    let game = Game::new();
    let engine = Engine::new(game.clone(), PieceColor::White, 3);
    assert!(engine.jitter);
    let mut seen = Vec::new();
    for _ in 0..200 {
        let found = engine.evaluate_state(&game);
        assert!((-120..=-100).contains(&found), "{}", found);
        if !seen.contains(&found) {
            seen.push(found);
        }
    }
    assert!(seen.len() > 1);
    let found = engine.search_tree(&game, 0, i32::MIN, i32::MAX);
    assert!((-120..=-100).contains(&found));
}

#[test]
fn saturating_sum_holds_at_the_ends() {
    assert_eq!(saturating_sum(1, 2), 3);
    assert_eq!(saturating_sum(-5, 2), -3);
    assert_eq!(saturating_sum(i32::MAX - 3, 200), i32::MAX);
    assert_eq!(saturating_sum(i32::MIN + 3, -200), i32::MIN);
    assert_eq!(saturating_sum(i32::MAX, i32::MIN), -1);
    assert_eq!(castle_bonus(&ChessMove::CastleKingside), 200);
    assert_eq!(castle_bonus(&ChessMove::CastleQueenside), 200);
    assert_eq!(castle_bonus(&ChessMove::from_str("e2e4").unwrap()), 0);
}

#[test]
fn search_without_depth_is_the_evaluation() {
    let engine = quiet(MATE_IN_ONE, PieceColor::White, 4);
    let game = engine.game.clone();
    assert_eq!(engine.search_tree(&game, 0, i32::MIN, i32::MAX), engine.evaluate_state(&game));
    // Rook 500; kings 100 against 200; pawns 3 x 120.
    assert_eq!(engine.evaluate_state(&game), 500 + 100 - 200 - 360);
}

#[test]
fn mate_and_stalemate_are_told_apart() {
    let mated = Game::from_fen(MATED).unwrap();
    assert!(mated.get_moves().is_empty());
    assert!(Engine::king_attacked(&mated));
    let stalemate = Game::from_fen(STALEMATE).unwrap();
    assert!(stalemate.get_moves().is_empty());
    assert!(!Engine::king_attacked(&stalemate));
    assert!(!Engine::king_attacked(&Game::default()));

    let white = quiet(MATED, PieceColor::White, 5);
    assert_eq!(white.search_tree(&mated, 5, i32::MIN, i32::MAX), i32::MAX);
    assert_eq!(white.search_tree(&mated, 4, i32::MIN, i32::MAX), i32::MAX - 1);
    assert_eq!(white.search_tree(&mated, 1, i32::MIN, i32::MAX), i32::MAX - 4);
    assert_eq!(white.search_tree(&stalemate, 3, i32::MIN, i32::MAX), 0);
    let black = quiet(MATED, PieceColor::Black, 5);
    assert_eq!(black.search_tree(&mated, 5, i32::MIN, i32::MAX), i32::MIN);
    assert_eq!(black.search_tree(&mated, 3, i32::MIN, i32::MAX), i32::MIN + 2);
    assert_eq!(black.search_tree(&stalemate, 3, i32::MIN, i32::MAX), 0);
    // With jitter too.
    let noisy = Engine::new(mated.clone(), PieceColor::White, 5);
    assert_eq!(noisy.search_tree(&mated, 4, i32::MIN, i32::MAX), i32::MAX - 1);
    assert_eq!(noisy.search_tree(&stalemate, 4, i32::MIN, i32::MAX), 0);

    assert_eq!(white.get_best_move(), None);
    assert_eq!(quiet(STALEMATE, PieceColor::White, 3).get_best_move(), None);
    assert_eq!(quiet(STALEMATE, PieceColor::Black, 3).get_best_move_parallel(), None);
}

#[test]
fn mate_in_one_is_found() {
    let mate = ChessMove::from_str("a1a8").unwrap();
    for depth in 2..=4 {
        let engine = quiet(MATE_IN_ONE, PieceColor::White, depth);
        assert_eq!(engine.get_best_move(), Some(mate));
        let noisy = Engine::new(Game::from_fen(MATE_IN_ONE).unwrap(), PieceColor::White, depth);
        assert_eq!(noisy.get_best_move(), Some(mate));
    }
    // Black mates as well.
    let engine = quiet("r3k3/8/8/8/8/8/5PPP/6K1 b - - 0 1", PieceColor::Black, 3);
    assert_eq!(engine.get_best_move(), Some(ChessMove::from_str("a8a1").unwrap()));
    // The queen mates on the back rank or on g7; the first that is generated is taken.
    let engine = quiet("6k1/5ppp/8/8/8/8/8/Q3K3 w - - 0 1", PieceColor::White, 2);
    let chosen = engine.get_best_move().unwrap();
    let mut after = engine.game.clone();
    after.make_move(&chosen);
    assert!(after.get_moves().is_empty());
    assert!(Engine::king_attacked(&after));
}

#[test]
fn pruning_loses_nothing() {
    for (text, player) in [
        ("4k3/8/8/3p4/4P3/8/8/4K3 w - - 0 1", PieceColor::White),
        ("4k3/8/8/3p4/4P3/8/8/4K3 w - - 0 1", PieceColor::Black),
        ("6k1/5ppp/8/8/8/8/8/R3K3 w - - 0 1", PieceColor::White),
        ("r1b1k3/8/8/8/8/8/8/2Q1K1N1 b - - 0 1", PieceColor::White),
        ("8/2p5/3p4/KP5r/1R3p1k/8/4P1P1/8 w - - 0 1", PieceColor::White),
    ] {
        for depth in 0..=3 {
            let engine = quiet(text, player, depth);
            let game = engine.game.clone();
            assert_eq!(
                engine.search_tree(&game, depth, i32::MIN, i32::MAX),
                plain_minimax(&engine, &game, depth),
                "{} at {}",
                text,
                depth
            );
        }
    }
}

#[test]
fn best_move_is_the_first_of_the_best() {
    let engine = quiet("4k3/8/8/3p4/4P3/8/8/4K3 w - - 0 1", PieceColor::White, 3);
    let chosen = engine.get_best_move().unwrap();
    let moves = engine.game.get_moves();
    let values: Vec<i32> = moves
        .iter()
        .map(|m| {
            let mut next = engine.game.clone();
            next.make_move(m);
            engine.search_tree(&next, 2, i32::MIN, i32::MAX)
        })
        .collect();
    let best = *values.iter().max().unwrap();
    let first = values.iter().position(|v| *v == best).unwrap();
    assert_eq!(chosen, moves[first]);
    assert_eq!(chosen, ChessMove::from_str("e4d5").unwrap());
}

#[test]
fn lines_are_picked_by_their_worst_case() {
    let a = ChessMove::from_str("a2a3").unwrap();
    let b = ChessMove::from_str("b2b3").unwrap();
    let c = ChessMove::from_str("c2c3").unwrap();
    assert_eq!(pick_line(&vec![]), None);
    assert_eq!(pick_line(&vec![(a, 5)]), Some(a));
    assert_eq!(pick_line(&vec![(a, 5), (a, 3), (b, 4), (b, 10)]), Some(b));
    assert_eq!(pick_line(&vec![(a, 5), (b, 4), (a, 3), (b, 10), (c, 4)]), Some(b));
    assert_eq!(pick_line(&vec![(a, 4), (b, 4), (c, 4)]), Some(a));
    assert_eq!(pick_line(&vec![(a, 3), (b, 4), (c, 4)]), Some(b));
    assert_eq!(pick_line(&vec![(a, i32::MIN), (b, i32::MIN)]), Some(a));
    // A castle counts its bonus in the value of its lines and again when
    // the moves are compared.
    let castle = ChessMove::CastleKingside;
    assert_eq!(pick_line(&vec![(castle, 0), (a, 399)]), Some(castle));
    assert_eq!(pick_line(&vec![(castle, 0), (a, 400)]), Some(castle));
    assert_eq!(pick_line(&vec![(castle, 0), (a, 401)]), Some(a));
    assert_eq!(pick_line(&vec![(a, 400), (castle, 0)]), Some(a));
    assert_eq!(pick_line(&vec![(castle, i32::MAX), (a, i32::MAX)]), Some(castle));
}

#[test]
fn two_plies_are_laid_out() {
    let engine = quiet("rnbqkbnr/pppppppp/8/8/8/8/PPPPPPPP/RNBQKBNR w KQkq - 0 1", PieceColor::White, 2);
    let lines = engine.expand_two_plies();
    assert_eq!(lines.len(), 400);
    // The pieces move in board order: the knight on b1 comes first.
    let first = ChessMove::from_str("b1a3").unwrap();
    assert_eq!(lines[0].0, first);
    assert_eq!(lines[0].1, ChessMove::from_str("a7a6").unwrap());
    assert_eq!(lines[19].0, first);
    assert_eq!(lines[20].0, ChessMove::from_str("b1c3").unwrap());
    assert_eq!(lines[0].2.to_fen(), "rnbqkbnr/pppppppp/8/8/8/N7/PPPPPPPP/R1BQKBNR b KQkq -");
    // A move that leaves no reply starts no line.
    let engine = quiet(MATE_IN_ONE, PieceColor::White, 2);
    let mate = ChessMove::from_str("a1a8").unwrap();
    assert!(engine.expand_two_plies().iter().all(|line| line.0 != mate));
}

#[test]
fn parallel_search_picks_from_the_values_of_the_lines() {
    for (text, player, depth) in [
        ("4k3/8/8/3p4/4P3/8/8/4K3 w - - 0 1", PieceColor::White, 3),
        ("r3k2r/8/8/8/8/8/8/R3K2R w KQkq - 0 1", PieceColor::White, 2),
        ("8/2p5/3p4/KP5r/1R3p1k/8/4P1P1/8 w - - 0 1", PieceColor::White, 3),
        ("rnbqkbnr/pppppppp/8/8/8/8/PPPPPPPP/RNBQKBNR w KQkq - 0 1", PieceColor::White, 2),
    ] {
        let engine = quiet(text, player, depth);
        let lines = engine.expand_two_plies();
        let values: Vec<(ChessMove, i32)> =
            lines.iter().map(|line| engine.evaluate_line(line)).collect();
        for (line, found) in lines.iter().zip(values.iter()) {
            assert_eq!(line.0, found.0);
            let mut next = line.2.clone();
            next.make_move(&line.1);
            let wanted = engine
                .search_tree(&next, depth - 2, i32::MIN, i32::MAX)
                .saturating_sub(castle_bonus(&line.1));
            assert_eq!(found.1, wanted);
        }
        let chosen = engine.get_best_move_parallel();
        assert_eq!(chosen, pick_line(&values));
        let chosen = chosen.unwrap();
        assert!(engine.game.get_moves().iter().any(|m| *m == chosen));
    }
}

#[test]
fn iterative_search_finds_the_mate_and_keeps_its_tree() {
    let mut engine = quiet(MATE_IN_ONE, PieceColor::White, 3);
    assert!(engine.tree.is_none());
    let mate = ChessMove::from_str("a1a8").unwrap();
    assert_eq!(engine.get_best_move_iterative(), Some(mate));
    {
        let root = engine.tree.as_ref().unwrap();
        // The deepening stops at the depth that shows the mate.
        assert_eq!(root.depth, 2);
        assert_eq!(root.value, i32::MAX);
        let kids = root.children.as_ref().unwrap();
        assert_eq!(kids.len(), engine.game.get_moves().len());
        // The child that mates is final: it has been expanded and has no children.
        let (_, child) = kids.iter().find(|(m, _)| *m == mate).unwrap();
        assert_eq!(child.value, i32::MAX);
        assert_eq!(child.children.as_ref().unwrap().len(), 0);
        // The children come in the order of their values before this sweep.
    }
    // A second search finds the same from the tree it kept.
    assert_eq!(engine.get_best_move_iterative(), Some(mate));
    engine.advance_move(mate);
    assert!(engine.tree.is_none());
    assert_eq!(engine.game.to_fen(), "R5k1/5ppp/8/8/8/8/8/4K3 b - -");
    assert_eq!(engine.get_best_move_iterative(), None);
    assert_eq!(engine.tree.as_ref().unwrap().children.as_ref().unwrap().len(), 0);
    assert_eq!(engine.tree.as_ref().unwrap().value, i32::MAX);
}

#[test]
fn iterative_search_returns_a_legal_move() {
    for (text, player) in [
        ("rnbqkbnr/pppppppp/8/8/8/8/PPPPPPPP/RNBQKBNR w KQkq - 0 1", PieceColor::White),
        ("rnbqkbnr/pppppppp/8/8/4P3/8/PPPP1PPP/RNBQKBNR b KQkq e3 0 1", PieceColor::Black),
        ("4k3/8/8/3p4/4P3/8/8/4K3 w - - 0 1", PieceColor::White),
    ] {
        let mut engine = quiet(text, player, 3);
        let chosen = engine.get_best_move_iterative().unwrap();
        assert!(engine.game.get_moves().iter().any(|m| *m == chosen));
        let root = engine.tree.as_ref().unwrap();
        assert_eq!(root.depth, 3);
        let kids = root.children.as_ref().unwrap();
        let best = kids.iter().map(|(_, child)| child.value).max().unwrap();
        assert_eq!(root.value, best);
        assert_eq!(kids.iter().find(|(_, child)| child.value == best).unwrap().0, chosen);
        let mut noisy = Engine::new(Game::from_fen(text).unwrap(), player, 2);
        let chosen = noisy.get_best_move_iterative().unwrap();
        assert!(noisy.game.get_moves().iter().any(|m| *m == chosen));
    }
    // With no depth at all nothing is searched and nothing is chosen.
    let mut engine = quiet(MATE_IN_ONE, PieceColor::White, 0);
    assert_eq!(engine.get_best_move_iterative(), None);
    assert!(engine.tree.is_none());
}

#[test]
fn deepening_reuses_what_was_searched() {
    let engine = quiet("4k3/8/8/3p4/4P3/8/8/4K3 w - - 0 1", PieceColor::White, 3);
    let game = engine.game.clone();
    let fresh = Node { children: None, value: 0, depth: 0 };
    // With no ply asked for, every node is deep enough as it is.
    let leaf = engine.deepen(&game, fresh, 0, i32::MIN, i32::MAX);
    assert_eq!((leaf.value, leaf.depth), (0, 0));
    assert!(leaf.children.is_none());
    let marked = Node { children: None, value: 555, depth: 0 };
    let marked = engine.deepen(&game, marked, 0, i32::MIN, i32::MAX);
    assert_eq!((marked.value, marked.depth), (555, 0));
    assert!(marked.children.is_none());
    let mut root = Node { children: None, value: 555, depth: 2 };
    engine.iterative_search(&game, &mut root, 2, i32::MIN, i32::MAX);
    assert_eq!((root.value, root.depth), (555, 2));
    assert!(root.children.is_none());
    engine.iterative_search(&game, &mut root, 1, 3, 4);
    assert_eq!((root.value, root.depth), (555, 2));
    assert!(root.children.is_none());
    let two = engine.deepen(&game, leaf, 2, i32::MIN, i32::MAX);
    assert_eq!(two.depth, 2);
    assert_eq!(two.children.as_ref().unwrap().len(), game.get_moves().len());
    let value = two.value;
    // A shallower search of a deeper tree changes nothing.
    let mut again = engine.deepen(&game, two, 1, i32::MIN, i32::MAX);
    assert_eq!(again.depth, 2);
    assert_eq!(again.value, value);
    // A node marked as searched deeper is taken at its word.
    again.value = 12345;
    again.depth = 9;
    let kept = engine.deepen(&game, again, 3, i32::MIN, i32::MAX);
    assert_eq!((kept.value, kept.depth), (12345, 9));
    // A final node is not expanded again.
    let end = Node { children: Some(vec![]), value: 77, depth: 1 };
    let mut root = engine.deepen(&game, end, 4, i32::MIN, i32::MAX);
    assert_eq!((root.value, root.depth), (77, 4));
    assert_eq!(root.children.as_ref().unwrap().len(), 0);
    engine.iterative_search(&game, &mut root, 5, i32::MIN, i32::MAX);
    assert_eq!((root.value, root.depth), (77, 5));
}

#[test]
fn deepening_searches_the_best_child_first() {
    let engine = quiet("4k3/8/8/3p4/4P3/8/8/4K3 w - - 0 1", PieceColor::White, 3);
    let game = engine.game.clone();
    let moves = game.get_moves();
    // The children are made with their evaluations and put in the order of
    // those: the largest first, equal ones as they were generated.
    let mut wanted: Vec<(ChessMove, i32)> = moves
        .iter()
        .map(|m| {
            let mut next = game.clone();
            next.make_move(m);
            (*m, engine.evaluate_state(&next))
        })
        .collect();
    wanted.sort_by_key(|(_, value)| std::cmp::Reverse(*value));
    let fresh = Node { children: None, value: 0, depth: 0 };
    let one = engine.deepen(&game, fresh, 1, i32::MIN, i32::MAX);
    let kids = one.children.as_ref().unwrap();
    assert_eq!(
        kids.iter().map(|(m, child)| (*m, child.value)).collect::<Vec<_>>(),
        wanted
    );
    assert_eq!(one.value, wanted[0].1);
    assert_eq!(kids[0].0, ChessMove::from_str("e4d5").unwrap());
    // The next sweep goes by the values that the last one left.
    let before: Vec<(ChessMove, i32)> = kids.iter().map(|(m, child)| (*m, child.value)).collect();
    let two = engine.deepen(&game, one, 2, i32::MIN, i32::MAX);
    let mut wanted = before;
    wanted.sort_by_key(|(_, value)| std::cmp::Reverse(*value));
    let kids = two.children.as_ref().unwrap();
    assert_eq!(
        kids.iter().map(|(m, _)| *m).collect::<Vec<_>>(),
        wanted.iter().map(|(m, _)| *m).collect::<Vec<_>>()
    );
    // For the side that takes the smallest value the smallest comes first.
    let black = Game::from_fen("4k3/8/8/3p4/4P3/8/8/4K3 b - - 0 1").unwrap();
    let fresh = Node { children: None, value: 0, depth: 0 };
    let one = engine.deepen(&black, fresh, 1, i32::MIN, i32::MAX);
    let values: Vec<i32> =
        one.children.as_ref().unwrap().iter().map(|(_, child)| child.value).collect();
    assert!(values.windows(2).all(|pair| pair[0] <= pair[1]));
    assert_eq!(one.value, values[0]);
}

#[test]
fn engine_keeps_what_it_was_given() {
    let mut engine = Engine::new(Game::new(), PieceColor::Black, 4);
    assert_eq!(engine.search_depth, 4);
    assert_eq!(engine.player, PieceColor::Black);
    assert!(engine.jitter);
    assert!(engine.tree.is_none());
    assert!(engine.game == Game::new());
    engine.advance_move(ChessMove::from_str("e2e4").unwrap());
    assert_eq!(engine.game.to_fen(), "rnbqkbnr/pppppppp/8/8/4P3/8/PPPP1PPP/RNBQKBNR b KQkq e3");
    assert_eq!(engine.game.half_moves, 1);
    assert_eq!(engine.search_depth, 4);
}

#[test]
fn jitter_costs_no_more_than_twenty() {
    for text in [
        "4k3/8/8/3p4/4P3/8/8/4K3 w - - 0 1",
        "8/2p5/3p4/KP5r/1R3p1k/8/4P1P1/8 w - - 0 1",
        "r1b1k3/8/8/8/8/8/8/2Q1K1N1 w - - 0 1",
    ] {
        let exact = quiet(text, PieceColor::White, 3);
        let game = exact.game.clone();
        let moves = game.get_moves();
        let values: Vec<i32> = moves.iter().map(|m| exact.root_search(m)).collect();
        let best = *values.iter().max().unwrap();
        for _ in 0..10 {
            let noisy = Engine::new(game.clone(), PieceColor::White, 3);
            let chosen = noisy.get_best_move().unwrap();
            let at = moves.iter().position(|m| *m == chosen).unwrap();
            assert!(values[at] >= best - 20, "{} in {}", chosen.to_string(), text);
            let found = noisy.root_search(&chosen);
            assert!((found - values[at]).abs() <= 10);
        }
    }
}

#[test]
fn trees_are_checked_for_moves_off_the_board() {
    let fresh = Node { children: None, value: 0, depth: 0 };
    assert!(fresh.is_tidy());
    let engine = quiet("4k3/8/8/3p4/4P3/8/8/4K3 w - - 0 1", PieceColor::White, 2);
    let game = engine.game.clone();
    let grown = engine.deepen(&game, fresh, 2, i32::MIN, i32::MAX);
    assert!(grown.is_tidy());
    let off = ChessMove::Move(Position { row: 9, column: 0 }, Position { row: 0, column: 0 });
    let leaf = Node { children: None, value: 0, depth: 0 };
    let bad = Node { children: Some(vec![(off, leaf)]), value: 0, depth: 1 };
    assert!(!bad.is_tidy());
    let deep = Node { children: Some(vec![(ChessMove::CastleKingside, bad)]), value: 0, depth: 2 };
    assert!(!deep.is_tidy());
}

#[test]
fn new_children_carry_their_evaluation() {
    let engine = quiet("4k3/8/8/3p4/4P3/8/8/4K3 w - - 0 1", PieceColor::White, 3);
    let game = engine.game.clone();
    let fresh = Node { children: None, value: 0, depth: 0 };
    let one = engine.deepen(&game, fresh, 1, i32::MIN, i32::MAX);
    assert_eq!(one.depth, 1);
    let kids = one.children.as_ref().unwrap();
    let moves = game.get_moves();
    assert_eq!(kids.len(), moves.len());
    assert!(moves.iter().all(|m| kids.iter().filter(|(k, _)| k == m).count() == 1));
    let mut best = i32::MIN;
    for (chess_move, child) in kids.iter() {
        let mut next = game.clone();
        next.make_move(chess_move);
        assert_eq!(child.value, engine.evaluate_state(&next));
        assert_eq!(child.depth, 0);
        assert!(child.children.is_none());
        best = best.max(child.value);
    }
    assert_eq!(one.value, best);
    // With jitter each child is within ten of its evaluation, and the node
    // has the largest of the values of its children.
    let noisy = Engine::new(game.clone(), PieceColor::White, 3);
    let fresh = Node { children: None, value: 0, depth: 0 };
    let one = noisy.deepen(&game, fresh, 1, i32::MIN, i32::MAX);
    let kids = one.children.as_ref().unwrap();
    for (chess_move, child) in kids.iter() {
        let mut next = game.clone();
        next.make_move(chess_move);
        assert!((child.value - engine.evaluate_state(&next)).abs() <= 10);
    }
    assert_eq!(one.value, kids.iter().map(|(_, child)| child.value).max().unwrap());
    // Black to move takes the smallest.
    let black = Game::from_fen("4k3/8/8/3p4/4P3/8/8/4K3 b - - 0 1").unwrap();
    let fresh = Node { children: None, value: 0, depth: 0 };
    let two = noisy.deepen(&black, fresh, 2, i32::MIN, i32::MAX);
    let kids = two.children.as_ref().unwrap();
    assert_eq!(two.value, kids.iter().map(|(_, child)| child.value).min().unwrap());
    assert!(kids.iter().all(|(_, child)| child.depth >= 1));
}

#[test]
fn a_sweep_stops_when_the_value_leaves_the_window() {
    let engine = quiet("4k3/8/8/3p4/4P3/8/8/4K3 w - - 0 1", PieceColor::White, 3);
    let game = engine.game.clone();
    let fresh = Node { children: None, value: 0, depth: 0 };
    // Every evaluation is above the window: the first child ends the sweep.
    let cut = engine.deepen(&game, fresh, 2, -100_000, -90_000);
    let kids = cut.children.as_ref().unwrap();
    assert_eq!(kids.len(), game.get_moves().len());
    assert_eq!(cut.value, kids[0].1.value);
    assert!(cut.value > -90_000);
    assert!(kids[0].1.depth >= 1);
    assert!(kids[1..].iter().all(|(_, child)| child.depth == 0));
}

/// Whether every searched node of the tree is expanded and carries the
/// closing value of its position, if it has no children, or else the largest
/// or the smallest of the values of a first part of its children.
fn stands_for_its_children(node: &Node, game: &Game, player: PieceColor) -> bool {
    let kids = match &node.children {
        Some(kids) => kids,
        None => return node.depth == 0,
    };
    if kids.is_empty() {
        let closing = if !Engine::king_attacked(game) {
            0
        } else if game.turn == player {
            i32::MIN
        } else {
            i32::MAX
        };
        if node.value != closing {
            return false;
        }
    }
    if node.depth > 0 && !kids.is_empty() {
        let mut found = false;
        let mut running = kids[0].1.value;
        for (n, (_, child)) in kids.iter().enumerate() {
            if child.depth + 1 < node.depth {
                break;
            }
            running = if n == 0 {
                child.value
            } else if game.turn == player {
                running.max(child.value)
            } else {
                running.min(child.value)
            };
            found = found || running == node.value;
        }
        if !found {
            return false;
        }
    }
    kids.iter().all(|(chess_move, child)| {
        let mut next = game.clone();
        next.make_move(chess_move);
        stands_for_its_children(child, &next, player)
    })
}

#[test]
fn a_searched_tree_stands_for_its_children_all_the_way_down() {
    let text = "r3k2r/pp3ppp/2n5/3p4/3P4/2N5/PP3PPP/R3K2R w KQkq - 0 1";
    for player in [PieceColor::White, PieceColor::Black] {
        let mut noisy = Engine::new(Game::from_fen(text).unwrap(), player, 3);
        assert!(noisy.jitter);
        let chosen = noisy.get_best_move_iterative().unwrap();
        assert!(noisy.game.get_moves().contains(&chosen));
        let root = noisy.tree.as_ref().unwrap();
        assert_eq!(root.depth, 3);
        assert!(stands_for_its_children(root, &noisy.game, player));
        // The root stands for all its children.
        let kids = root.children.as_ref().unwrap();
        let values = kids.iter().map(|(_, child)| child.value);
        let extreme = if noisy.game.turn == player {
            values.max().unwrap()
        } else {
            values.min().unwrap()
        };
        assert_eq!(root.value, extreme);
        assert!(kids.iter().all(|(_, child)| child.depth >= 2));
        // A second search of the same position leaves the tree as it is.
        let before = root.value;
        let again = noisy.get_best_move_iterative().unwrap();
        assert_eq!(again, chosen);
        assert_eq!(noisy.tree.as_ref().unwrap().value, before);
        // With a mate within reach the tree has final nodes.
        let mut mating = Engine::new(Game::from_fen(MATE_IN_ONE).unwrap(), player, 3);
        mating.get_best_move_iterative().unwrap();
        let root = mating.tree.as_ref().unwrap();
        assert!(root.depth >= 1);
        assert!(stands_for_its_children(root, &mating.game, player));
    }
    // A tree whose root does not stand for its children is told apart.
    let game = Game::from_fen(text).unwrap();
    let quiet_engine = quiet(text, PieceColor::White, 2);
    let fresh = Node { children: None, value: 0, depth: 0 };
    let mut tree = quiet_engine.deepen(&game, fresh, 2, i32::MIN, i32::MAX);
    assert!(stands_for_its_children(&tree, &game, PieceColor::White));
    tree.value += 1;
    assert!(!stands_for_its_children(&tree, &game, PieceColor::White));
    // So is a node that claims a search and is not expanded.
    let claimed = Node { children: None, value: 0, depth: 1 };
    assert!(!stands_for_its_children(&claimed, &game, PieceColor::White));
    // So is a final node with another value than that of its position.
    let mated = Game::from_fen(MATED).unwrap();
    let ended = Node { children: Some(vec![]), value: i32::MIN, depth: 1 };
    assert!(stands_for_its_children(&ended, &mated, PieceColor::Black));
    assert!(!stands_for_its_children(&ended, &mated, PieceColor::White));
}

#[test]
fn a_castle_at_the_last_ply_loses_nothing() {
    for (text, depth) in [
        ("r3k2r/8/8/8/8/8/8/R3K2R w KQkq - 0 1", 1),
        ("r3k2r/8/8/8/8/8/8/R3K2R b KQkq - 0 1", 1),
        ("r3k2r/8/8/8/8/8/8/4K3 w kq - 0 1", 2),
        ("4k3/8/8/8/8/8/8/R3K2R b KQ - 0 1", 2),
    ] {
        for player in [PieceColor::White, PieceColor::Black] {
            let engine = quiet(text, player, depth);
            let game = engine.game.clone();
            assert!(game.get_moves().iter().any(|first| {
                let mut next = game.clone();
                next.make_move(first);
                depth == 1 && castle_bonus(first) == 200
                    || next.get_moves().iter().any(|reply| castle_bonus(reply) == 200)
            }));
            assert_eq!(
                engine.search_tree(&game, depth, i32::MIN, i32::MAX),
                plain_minimax(&engine, &game, depth),
                "{} at {}",
                text,
                depth
            );
        }
    }
}

#[test]
fn a_castle_before_the_last_ply_can_cost_something() {
    // White may castle at the first of two plies: the bonus is added after
    // the position behind the castle was searched inside the window.
    let text = "4k2r/8/8/8/8/8/8/R3K3 w Qk - 0 1";
    let engine = quiet(text, PieceColor::Black, 2);
    let game = engine.game.clone();
    assert!(game.get_moves().contains(&ChessMove::CastleQueenside));
    assert_eq!(engine.search_tree(&game, 2, i32::MIN, i32::MAX), -200);
    assert_eq!(plain_minimax(&engine, &game, 2), -50);
}
