//! Move entry by text: UCI promotions for either side, SAN with an
//! en-passant mark, the UCI `position` command, the player's command line,
//! and the searches' depth and result on fixed positions.

use rust_chess_engine::board::Board;
use rust_chess_engine::epd::parse_suite;
use rust_chess_engine::game::Game;
use rust_chess_engine::moves::Move;
use rust_chess_engine::san::san_to_move;
use rust_chess_engine::search::{ai_move, search, SearchLimits};
use rust_chess_engine::types::{square, Piece};
use rust_chess_engine::uci::UciEngine;
use rust_chess_engine::ui::{GameController, HumanAction};
use rust_chess_engine::auth::name_taken;

fn sq(s: &str) -> usize {
    square::from_alg(s).unwrap()
}

#[test]
fn black_promotes_by_uci_text() {
    let mut g = Game::from_fen("4k3/8/8/8/8/8/p7/4K3 b - - 0 1").unwrap();
    assert_eq!(g.play_uci("a2a1q"), Ok(()));
    assert_eq!(g.board().cells[0x00], Piece::BQ);
    assert_eq!(g.board().to_fen(), "4k3/8/8/8/8/8/8/q3K3 w - - 0 2");
    assert_eq!(g.moves(), &[Move::promo(0x10, 0x00, Piece::BQ)][..]);
}

#[test]
fn black_underpromotes_by_uci_text() {
    let mut g = Game::from_fen("4k3/8/8/8/8/8/p7/4K3 b - - 0 1").unwrap();
    assert_eq!(g.play_uci("a2a1n"), Ok(()));
    assert_eq!(g.board().cells[0x00], Piece::BN);
}

#[test]
fn white_promotes_by_uci_text() {
    let mut g = Game::from_fen("4k3/P7/8/8/8/8/8/4K3 w - - 0 1").unwrap();
    assert_eq!(g.play_uci("a7a8r"), Ok(()));
    assert_eq!(g.board().cells[0x70], Piece::WR);
}

#[test]
fn uci_text_errors() {
    let mut g = Game::new();
    assert_eq!(g.play_uci("e2e5"), Err("illegal move 'e2e5'".to_string()));
    assert_eq!(g.play_uci("zz99"), Err("bad UCI 'zz99'".to_string()));
    assert_eq!(g.play_uci("e2e4"), Ok(()));
    assert_eq!(g.moves(), &[Move::new(0x14, 0x34)][..]);
    let mut p = Game::from_fen("4k3/8/8/8/8/8/p7/4K3 b - - 0 1").unwrap();
    assert_eq!(p.play_uci("a2a1k"), Err("bad UCI 'a2a1k'".to_string()));
    assert_eq!(p.play_uci("a2a1"), Err("illegal move 'a2a1'".to_string()));
}

#[test]
fn from_uci_never_panics() {
    assert_eq!(Move::from_uci("a\u{e9}34"), None);
    assert_eq!(Move::from_uci("\u{e9}\u{e9}\u{e9}\u{e9}"), None);
    assert_eq!(Move::from_uci("e2"), None);
    assert_eq!(Move::from_uci("e2e4x"), None);
    assert_eq!(Move::from_uci(" e7e8q "), Some(Move::promo(0x64, 0x74, Piece::WQ)));
}

#[test]
fn play_names_off_board_moves_in_its_error() {
    let mut g = Game::new();
    let off = Move::new(300, 0x34);
    assert_eq!(g.play(off), Err("illegal move ??e4".to_string()));
    assert_eq!(square::to_alg(1000), "??");
}

#[test]
fn san_ignores_en_passant_mark() {
    let e = Board::from_fen("rnbqkbnr/ppp1pppp/8/3pP3/8/8/PPPP1PPP/RNBQKBNR w KQkq d6 0 3").unwrap();
    assert_eq!(san_to_move(&e, "exd6 e.p."), Move::from_uci("e5d6"));
    assert_eq!(san_to_move(&e, "exd6e.p."), Move::from_uci("e5d6"));
    assert_eq!(san_to_move(&e, "exd6"), Move::from_uci("e5d6"));
    assert_eq!(san_to_move(&e, "e.p."), None);
}

#[test]
fn uci_position_plays_black_promotion() {
    let mut u = UciEngine::new();
    let mut out = Vec::new();
    assert!(u.handle_line("position fen 4k3/8/8/8/8/8/p7/4K3 b - - 0 1 moves a2a1q", &mut out));
    assert!(u.handle_line("d", &mut out));
    let text = String::from_utf8(out).unwrap();
    assert!(text.contains("fen: 4k3/8/8/8/8/8/8/q3K3 w - - 0 2"));
}

#[test]
fn stalemate_scores_as_a_draw() {
    let mut b = Board::from_fen("7k/5Q2/6K1/8/8/8/8/8 b - - 0 1").unwrap();
    let res = search(&mut b, SearchLimits::depth(1));
    assert_eq!(res.best_move, None);
    assert_eq!(res.score, 0);
    assert_eq!(b.to_fen(), "7k/5Q2/6K1/8/8/8/8/8 b - - 0 1");
}

#[test]
fn search_reaches_the_depth_asked() {
    let mut b = Board::startpos();
    let res = search(&mut b, SearchLimits::depth(3));
    assert_eq!(res.depth, 3);
    assert_eq!(res.telemetry.nodes, res.nodes);
    assert!(res.best_move.is_some());
}

#[test]
fn ai_move_finds_back_rank_mate() {
    let mut b = Board::from_fen("6k1/5ppp/8/8/8/8/8/R3K3 w - - 0 1").unwrap();
    assert_eq!(ai_move(&mut b, 4, None).map(|m| m.to_uci()), Some("a1a8".to_string()));
    assert_eq!(b.to_fen(), "6k1/5ppp/8/8/8/8/8/R3K3 w - - 0 1");
}

#[test]
fn parse_suite_fails_with_first_bad_line() {
    let text = "4k3/8/8/8/8/8/8/4K2R w K - bm O-O;\nonly three fields\n\nx\n";
    assert_eq!(parse_suite(text).unwrap_err(), "EPD needs at least 4 position fields");
}

#[test]
fn name_taken_reads_first_field() {
    let lines = vec!["alice:abc".to_string(), "bob:def".to_string()];
    assert!(name_taken(&lines, "bob"));
    assert!(!name_taken(&lines, "carol"));
    assert!(!name_taken(&lines, "abc"));
}

#[test]
fn human_command_plays_and_steps() {
    let mut c = GameController::new();
    c.reset_game();
    assert_eq!(c.human_command("   "), HumanAction::Empty);
    assert_eq!(c.human_command("e4"), HumanAction::Played("e4".to_string()));
    assert_eq!(c.human_command("m e7e5"), HumanAction::Played("e5".to_string()));
    assert_eq!(c.human_command("move Nf3"), HumanAction::Played("Nf3".to_string()));
    assert_eq!(c.history_san(), vec!["e4".to_string(), "e5".to_string(), "Nf3".to_string()]);
    assert_eq!(c.human_command("u"), HumanAction::Undone);
    assert_eq!(c.history_san().len(), 2);
    assert_eq!(c.human_command("redo"), HumanAction::Redone(Some("Nf3".to_string())));
    assert_eq!(c.human_command("r"), HumanAction::Redone(None));
    assert_eq!(c.board().cells[sq("f3")], Piece::WN);
}

#[test]
fn human_command_screens_and_errors() {
    let mut c = GameController::new();
    c.reset_game();
    assert_eq!(c.human_command("h"), HumanAction::Hint);
    assert_eq!(c.human_command("hint"), HumanAction::Hint);
    assert_eq!(c.human_command("analyze"), HumanAction::Analyze);
    assert_eq!(c.human_command("eval"), HumanAction::Eval);
    assert_eq!(c.human_command("fen"), HumanAction::Fen);
    assert_eq!(c.human_command("f"), HumanAction::Flip);
    assert_eq!(c.human_command("save"), HumanAction::Save);
    assert_eq!(c.human_command("resign"), HumanAction::ConfirmResign);
    assert_eq!(c.human_command("menu"), HumanAction::ConfirmQuit);
    assert_eq!(c.human_command("exit"), HumanAction::ConfirmQuit);
    assert_eq!(c.human_command("help"), HumanAction::Help);
    assert_eq!(c.human_command("move"), HumanAction::Error("Usage: move e2e4".to_string()));
    assert_eq!(
        c.human_command("m e2e5"),
        HumanAction::Error("illegal or unrecognized move 'e2e5'".to_string())
    );
    assert_eq!(
        c.human_command("dance now"),
        HumanAction::Error("Invalid command or move: illegal or unrecognized move 'dance'".to_string())
    );
    assert!(c.history_san().is_empty());
    assert!(c.is_active());
}

#[test]
fn controller_plays_black_promotion_by_uci() {
    let mut c = GameController::new();
    assert!(c.load_pgn_text("[FEN \"4k3/8/8/8/8/8/p7/4K3 b - - 0 1\"]\n\n*\n").is_ok());
    assert_eq!(c.try_play("a2a1q"), Ok("a1=Q+".to_string()));
    assert_eq!(c.board().cells[0x00], Piece::BQ);
}

#[test]
fn go_replies_with_bestmove_only() {
    let mut u = UciEngine::new();
    let mut out = Vec::new();
    assert!(u.handle_line("position startpos", &mut out));
    assert!(u.handle_line("go depth 2", &mut out));
    let text = String::from_utf8(out).unwrap();
    assert!(text.starts_with("bestmove "), "reply was {:?}", text);
    assert_eq!(text.lines().count(), 1);
    let info = String::from_utf8(u.take_info()).unwrap();
    assert!(info.lines().count() >= 1 && info.lines().all(|l| l.starts_with("info depth ")), "info was {:?}", info);
    assert!(u.take_info().is_empty());
}

#[test]
fn fen_errors_name_the_first_fault() {
    let err = |f: &str| Board::from_fen(f).err().unwrap();
    assert_eq!(err("   "), "empty FEN");
    assert_eq!(err("8/8/8 w - - 0 1"), "FEN must have 8 ranks, found 3");
    assert_eq!(err("9/8/8/8/8/8/8/8 w - - 0 1"), "rank '9' does not fill 8 files");
    assert_eq!(err("8p/8/8/8/8/8/8/8 w - - 0 1"), "rank '8p' overflows the board");
    assert_eq!(err("7x/8/8/8/8/8/8/8 w - - 0 1"), "invalid piece character 'x'");
    assert_eq!(err("7k/8/8/8/8/8/8/K7 x - - 0 1"), "invalid side to move 'x'");
    assert_eq!(err("7k/8/8/8/8/8/8/K7 w KZq - 0 1"), "invalid castling character 'Z'");
    assert_eq!(err("7k/8/8/8/8/8/8/K7 w - e9 0 1"), "bad ep square 'e9'");
    assert_eq!(err("7k/8/8/8/8/8/8/K7 w - - x 1"), "bad halfmove clock 'x'");
    assert_eq!(err("7k/8/8/8/8/8/8/K7 w - - 0 y"), "bad fullmove number 'y'");
    assert_eq!(
        rust_chess_engine::epd::Epd::parse("7k/8/8/8/8/8/8/K7 q - - bm Ka2;").err().unwrap(),
        "invalid side to move 'q'"
    );
}

#[test]
fn go_without_a_clock_always_answers_a_move() {
    let mut u = UciEngine::new();
    let mut out = Vec::new();
    assert!(u.handle_line("position startpos moves e2e4 e7e5", &mut out));
    assert!(u.handle_line("go infinite depth 2", &mut out));
    let text = String::from_utf8(out).unwrap();
    assert!(text.starts_with("bestmove "));
    assert!(!text.contains("0000"));
    let mut mated = UciEngine::new();
    let mut out2 = Vec::new();
    assert!(mated.handle_line("position fen 7k/6Q1/6K1/8/8/8/8/8 b - - 0 1", &mut out2));
    assert!(mated.handle_line("go infinite depth 2", &mut out2));
    assert_eq!(String::from_utf8(out2).unwrap(), "bestmove 0000\n");
}

#[test]
fn engine_play_move_without_time_limit_moves() {
    let mut c = GameController::new();
    c.reset_game();
    let played = c.engine_play_move(SearchLimits::depth(2));
    let (san, res) = played.expect("a move");
    assert_eq!(res.depth, 2);
    assert_eq!(c.history_san(), vec![san]);
}
