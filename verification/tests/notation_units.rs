//! SAN, PGN, EPD, the opening book and the game record.

use rust_chess_engine::board::{Board, START_FEN};
use rust_chess_engine::book::book_move;
use rust_chess_engine::engine::GameStatus;
use rust_chess_engine::epd::{parse_suite, Epd};
use rust_chess_engine::game::Game;
use rust_chess_engine::movegen::legal_moves;
use rust_chess_engine::moves::Move;
use rust_chess_engine::pgn::PgnGame;
use rust_chess_engine::san::{move_to_san, san_to_move};

#[test]
fn renders_basic_moves() {
    let b = Board::startpos();
    assert_eq!(move_to_san(&b, Move::from_uci("e2e4").unwrap()), "e4");
    assert_eq!(move_to_san(&b, Move::from_uci("g1f3").unwrap()), "Nf3");
}

#[test]
fn renders_capture_and_check() {
    let b = Board::from_fen("rnbqkbnr/pppp1ppp/8/4p2Q/2B1P3/8/PPPP1PPP/RNB1K1NR w KQkq - 0 1")
        .unwrap();
    let mate = Move::from_uci("h5f7").unwrap();
    assert_eq!(move_to_san(&b, mate), "Qxf7#");
}

#[test]
fn renders_castling() {
    let b = Board::from_fen("r3k2r/8/8/8/8/8/8/R3K2R w KQkq - 0 1").unwrap();
    assert_eq!(move_to_san(&b, Move::from_uci("e1g1").unwrap()), "O-O");
    assert_eq!(move_to_san(&b, Move::from_uci("e1c1").unwrap()), "O-O-O");
}

#[test]
fn disambiguates_knights() {
    let b = Board::from_fen("4k3/8/8/8/8/5N2/8/1N2K3 w - - 0 1").unwrap();
    let san = move_to_san(&b, Move::from_uci("b1d2").unwrap());
    assert_eq!(san, "Nbd2");
}

#[test]
fn parses_back() {
    let b = Board::startpos();
    assert_eq!(san_to_move(&b, "e4"), Move::from_uci("e2e4"));
    assert_eq!(san_to_move(&b, "Nf3"), Move::from_uci("g1f3"));
    assert_eq!(san_to_move(&b, "Ke2"), None);
}

#[test]
fn export_then_parse_roundtrips_moves() {
    let moves: Vec<Move> = ["e2e4", "e7e5", "g1f3", "b8c6", "f1b5"]
        .iter()
        .map(|s| Move::from_uci(s).unwrap())
        .collect();
    let game = PgnGame::from_moves(START_FEN, moves.clone());
    let pgn = game.to_pgn();
    assert!(pgn.contains("1. e4 e5 2. Nf3 Nc6 3. Bb5"));
    let parsed = PgnGame::parse(&pgn).unwrap();
    assert_eq!(parsed.moves, moves);
}

#[test]
fn parse_tolerates_comments_and_nags() {
    let pgn = "[Event \"Test\"]\n\n1. e4 {best by test} e5 $1 2. Nf3 (2. Bc4) Nc6 *";
    let parsed = PgnGame::parse(pgn).unwrap();
    let ucis: Vec<String> = parsed.moves.iter().map(|m| m.to_uci()).collect();
    assert_eq!(ucis, vec!["e2e4", "e7e5", "g1f3", "b8c6"]);
}

#[test]
fn parses_bm_and_id() {
    let epd = Epd::parse(
        "2rr3k/pp3pp1/1nnqbN1p/3pN3/2pP4/2P3Q1/PPB4P/R4RK1 w - - bm Qg6; id \"WAC.001\";",
    )
    .unwrap();
    assert_eq!(epd.best_moves, vec!["Qg6"]);
    assert_eq!(epd.id.as_deref(), Some("WAC.001"));
    assert!(epd.fen.ends_with("0 1"));
    assert!(epd.accepts("Qg6+"));
    assert!(!epd.accepts("Qh4"));
}

#[test]
fn parses_avoid_moves() {
    let epd = Epd::parse("4k3/8/8/8/8/8/8/4K2R w K - am Kf2; bm O-O;").unwrap();
    assert!(epd.accepts("O-O"));
    assert!(!epd.accepts("Kf2"));
}

#[test]
fn rejects_bad_position() {
    assert!(Epd::parse("not/a/fen w - -").is_err());
}

#[test]
fn parses_suite_skips_comments() {
    let text = "# a comment\n\n4k3/8/8/8/8/8/8/4K2R w K - bm O-O;\n";
    let suite = parse_suite(text).unwrap();
    assert_eq!(suite.len(), 1);
}

#[test]
fn book_has_move_for_startpos() {
    let mut b = Board::startpos();
    let mv = book_move(&mut b).expect("book should know the start position");
    let mut legal = Vec::new();
    legal_moves(&mut b, &mut legal);
    assert!(legal.contains(&mv));
}

#[test]
fn book_responds_after_first_move_despite_ep_square() {
    let mut b = Board::startpos();
    b.make_move_struct(Move::from_uci("e2e4").unwrap());
    assert!(b.ep.is_some(), "1.e4 should set an ep square");
    let reply = book_move(&mut b).expect("book must reply to 1.e4");
    let mut legal = Vec::new();
    legal_moves(&mut b, &mut legal);
    assert!(legal.contains(&reply));
}

#[test]
fn book_misses_unknown_position() {
    let mut b = Board::from_fen("8/8/8/4k3/8/8/4K3/8 w - - 0 1").unwrap();
    assert!(book_move(&mut b).is_none());
}

#[test]
fn play_undo_redo() {
    let mut g = Game::new();
    g.play_uci("e2e4").unwrap();
    g.play_san("e5").unwrap();
    assert_eq!(g.moves().len(), 2);
    assert_eq!(g.san_history(), vec!["e4", "e5"]);
    assert!(g.undo());
    assert_eq!(g.moves().len(), 1);
    assert!(g.redo());
    assert_eq!(g.moves().len(), 2);
}

#[test]
fn rejects_illegal() {
    let mut g = Game::new();
    assert!(g.play_uci("e2e5").is_err());
    assert!(g.play_san("Qd5").is_err());
}

#[test]
fn detects_fools_mate() {
    let mut g = Game::new();
    for san in ["f3", "e5", "g4", "Qh4"] {
        g.play_san(san).unwrap();
    }
    assert!(matches!(g.status(), GameStatus::Checkmate { .. }));
    assert!(g.is_over());
}

#[test]
fn pgn_roundtrip() {
    let mut g = Game::new();
    for uci in ["e2e4", "e7e5", "g1f3", "b8c6"] {
        g.play_uci(uci).unwrap();
    }
    let pgn = g.to_pgn();
    let mut g2 = Game::new();
    g2.load_pgn(&pgn).unwrap();
    assert_eq!(g2.moves(), g.moves());
}
