//! Concrete instances of the library's stated laws, and its error paths.

use rust_chess_engine::auth::{
    confirm_error, password_error, username_error, AuthSystem, RegisterError, User,
};
use rust_chess_engine::board::Board;
use rust_chess_engine::game::Game;
use rust_chess_engine::movegen::legal_moves;
use rust_chess_engine::moves::Move;
use rust_chess_engine::perft::{divide, perft};
use rust_chess_engine::san::{move_to_san, san_to_move};
use rust_chess_engine::transposition::{NodeType, PackedMove, ProbeResult, TranspositionTable};
use rust_chess_engine::ui::{GameController, GameResult};
use rust_chess_engine::uci::UciEngine;

const KIWIPETE: &str = "r3k2r/p1ppqpb1/bn2pnp1/3PN3/1p2P3/2N2Q1p/PPPBBPPP/R3K2R w KQkq - 0 1";

#[test]
fn divide_sums_to_perft_and_is_sorted() {
    let mut b = Board::from_fen(KIWIPETE).unwrap();
    let fen = b.to_fen();
    let (entries, total) = divide(&mut b, 2);
    assert_eq!(b.to_fen(), fen);
    assert_eq!(entries.len(), 48);
    assert_eq!(total, 2039);
    assert_eq!(entries.iter().map(|e| e.nodes).sum::<u64>(), total);
    for w in entries.windows(2) {
        assert!(w[0].mv <= w[1].mv);
    }
    let (_, shallow) = divide(&mut b, 0);
    assert_eq!(shallow, perft(&mut b, 1));
}

#[test]
fn unmake_undoes_make_for_every_legal_move() {
    let mut b = Board::from_fen(KIWIPETE).unwrap();
    let fen = b.to_fen();
    let key = b.key;
    let mut moves = Vec::new();
    legal_moves(&mut b, &mut moves);
    for mv in moves {
        b.make_move_struct(mv);
        assert!(b.debug_key_ok());
        assert_eq!(b.unmake_move(), Some(mv));
        assert_eq!(b.to_fen(), fen);
        assert_eq!(b.key, key);
    }
    assert_eq!(b.unmake_move(), None);
}

#[test]
fn legal_moves_have_no_duplicates() {
    let mut b = Board::from_fen(KIWIPETE).unwrap();
    let mut moves = Vec::new();
    legal_moves(&mut b, &mut moves);
    for i in 0..moves.len() {
        for j in (i + 1)..moves.len() {
            assert_ne!(moves[i], moves[j]);
        }
    }
}

#[test]
fn uci_text_roundtrips_for_every_legal_move() {
    let mut b = Board::from_fen(KIWIPETE).unwrap();
    let mut moves = Vec::new();
    legal_moves(&mut b, &mut moves);
    for mv in moves {
        assert_eq!(Move::from_uci(&mv.to_uci()), Some(mv));
        let s = move_to_san(&b, mv);
        assert_eq!(san_to_move(&b, &s), Some(mv));
    }
}

#[test]
fn game_undo_then_redo_restores_position() {
    let mut g = Game::new();
    g.play_uci("d2d4").unwrap();
    g.play_uci("d7d5").unwrap();
    let fen = g.board().to_fen();
    assert!(g.undo());
    assert_eq!(g.undone_len(), 1);
    assert!(g.redo());
    assert_eq!(g.board().to_fen(), fen);
    assert_eq!(g.undone_len(), 0);
    g.undo();
    g.play_uci("g8f6").unwrap();
    assert_eq!(g.undone_len(), 0);
    assert!(!g.redo());
}

#[test]
fn game_error_messages() {
    let mut g = Game::new();
    assert_eq!(g.play_uci("xyz"), Err("bad UCI 'xyz'".to_string()));
    assert_eq!(g.play_uci("e2e5"), Err("illegal move 'e2e5'".to_string()));
    assert_eq!(g.play_san("Qd5"), Err("illegal SAN 'Qd5'".to_string()));
    assert!(Game::from_fen("8/8 w - - 0 1").is_err());
    assert_eq!(g.moves().len(), 0);
}

#[test]
fn transposition_store_then_probe() {
    let mut tt = TranspositionTable::new_strict_size_mb(1);
    assert!(matches!(tt.probe(42, 3, -100, 100), ProbeResult::Miss));
    tt.store(42, 5, 77, NodeType::Exact, Some((16, 32, 0)));
    match tt.probe(42, 3, -100, 100) {
        ProbeResult::Usable(score, best) => {
            assert_eq!(score, 77);
            assert_eq!(best, PackedMove::new(16, 32, 0));
            assert_eq!(best.unpack(), (16, 32, 0));
        }
        _ => panic!("stored entry not found"),
    }
    assert!(matches!(tt.probe(42, 9, -100, 100), ProbeResult::Found(_)));
    tt.clear();
    assert!(matches!(tt.probe(42, 3, -100, 100), ProbeResult::Miss));
}

#[test]
fn password_hash_is_sha256_hex() {
    assert_eq!(
        User::hash_password("abc"),
        "ba7816bf8f01cfea414140de5dae2223b00361a396177a9cb410ff61f20015ad"
    );
    let u = User::new("bob".to_string(), "abc".to_string());
    assert_eq!(
        u.record_line(),
        "bob:ba7816bf8f01cfea414140de5dae2223b00361a396177a9cb410ff61f20015ad"
    );
}

#[test]
fn registration_errors() {
    assert_eq!(username_error(""), Some(RegisterError::EmptyUsername));
    assert_eq!(username_error("a:b"), Some(RegisterError::ColonInUsername));
    assert_eq!(username_error("carol"), None);
    assert_eq!(password_error(""), Some(RegisterError::EmptyPassword));
    assert_eq!(password_error("abc"), Some(RegisterError::ShortPassword));
    assert_eq!(password_error("abcdef"), None);
    assert_eq!(confirm_error("abcdef", "abcdeg"), Some(RegisterError::PasswordMismatch));
    assert_eq!(confirm_error("abcdef", "abcdef"), None);
}

#[test]
fn login_needs_the_right_password() {
    let mut auth = AuthSystem::new();
    assert!(!auth.is_logged_in());
    let u = User::new("dave".to_string(), "opensesame".to_string());
    assert!(!auth.complete_login(Some(u.clone()), "wrong"));
    assert!(!auth.is_logged_in());
    assert!(!auth.complete_login(None, "opensesame"));
    assert!(auth.complete_login(Some(u), "opensesame"));
    assert_eq!(auth.get_current_user().map(|u| u.username.clone()), Some("dave".to_string()));
    auth.logout();
    assert!(!auth.is_logged_in());
}

#[test]
fn controller_plays_and_reports_mate() {
    let mut c = GameController::new();
    assert!(c.try_play("e2e5").is_err());
    for m in ["f2f3", "e7e5", "g2g4"] {
        c.try_play(m).unwrap();
    }
    assert_eq!(c.check_game_end(), None);
    assert_eq!(c.try_play("d8h4"), Ok("Qh4#".to_string()));
    assert_eq!(c.check_game_end(), Some(GameResult::BlackWins));
    assert_eq!(c.history_san(), vec!["f3", "e5", "g4", "Qh4#"]);
}

#[test]
fn uci_print_shows_fen_and_key() {
    let mut e = UciEngine::new();
    let mut out = Vec::new();
    assert!(e.handle_line("position startpos moves e2e4", &mut out));
    assert!(e.handle_line("d", &mut out));
    let text = String::from_utf8(out).unwrap();
    assert!(text.contains("rnbqkbnr/pppppppp/8/8/4P3/8/PPPP1PPP/RNBQKBNR b KQkq e3 0 1"));
    assert!(e.accepts("go depth 2"));
}
