//! FEN, make/unmake, attack detection, move generation and perft.

use rust_chess_engine::attacks::{in_check, is_square_attacked};
use rust_chess_engine::board::{Board, START_FEN};
use rust_chess_engine::movegen::legal_moves;
use rust_chess_engine::moves::Move;
use rust_chess_engine::perft::perft;
use rust_chess_engine::types::{square, Color, Piece, CASTLE_WK, CASTLE_WQ};

#[test]
fn startpos_no_checks() {
    let b = Board::startpos();
    assert!(!in_check(&b, Color::White));
    assert!(!in_check(&b, Color::Black));
}

#[test]
fn rook_attacks_along_rank() {
    let b = Board::from_fen("8/8/8/8/8/8/8/R3k2K w - - 0 1").unwrap();
    let e1 = square::from_alg("e1").unwrap();
    assert!(is_square_attacked(&b, e1, Color::White));
}

#[test]
fn detects_check() {
    let b = Board::from_fen("4r3/8/8/8/8/8/8/4K3 w - - 0 1").unwrap();
    assert!(in_check(&b, Color::White));
}

#[test]
fn pawn_attack_no_wrap() {
    let b = Board::from_fen("8/8/8/8/8/8/P7/k6K w - - 0 1").unwrap();
    let h3 = square::from_alg("h3").unwrap();
    assert!(!is_square_attacked(&b, h3, Color::White));
    let b2 = square::from_alg("b3").unwrap();
    assert!(is_square_attacked(&b, b2, Color::White));
}

#[test]
fn startpos_fen_roundtrips() {
    let b = Board::startpos();
    assert_eq!(b.to_fen(), START_FEN);
}

#[test]
fn fen_rejects_bad_input() {
    assert!(Board::from_fen("not a fen").is_err());
    assert!(Board::from_fen("8/8/8/8/8/8/8 w - - 0 1").is_err());
    assert!(Board::from_fen("rnbqkbnr/pppppppp/8/8/8/8/PPPPPPPP/RNBQKBNR x KQkq - 0 1").is_err());
}

#[test]
fn make_unmake_restores_everything() {
    let mut b = Board::startpos();
    let start = b.to_fen();
    let key = b.key;
    b.make_move_struct(Move::from_uci("e2e4").unwrap());
    assert!(b.debug_key_ok());
    b.make_move_struct(Move::from_uci("c7c5").unwrap());
    assert!(b.debug_key_ok());
    b.unmake_move();
    b.unmake_move();
    assert_eq!(b.to_fen(), start);
    assert_eq!(b.key, key);
}

#[test]
fn ep_capture_make_unmake() {
    let mut b =
        Board::from_fen("rnbqkbnr/ppp1pppp/8/3pP3/8/8/PPPP1PPP/RNBQKBNR w KQkq d6 0 3").unwrap();
    let fen = b.to_fen();
    b.make_move_struct(Move::from_uci("e5d6").unwrap());
    assert!(b.debug_key_ok());
    assert_eq!(b.cells[square::from_alg("d5").unwrap()], Piece::Empty);
    assert_eq!(b.cells[square::from_alg("d6").unwrap()], Piece::WP);
    b.unmake_move();
    assert_eq!(b.to_fen(), fen);
}

#[test]
fn castling_make_unmake() {
    let mut b =
        Board::from_fen("rnbqk2r/pppp1ppp/5n2/2b1p3/2B1P3/5N2/PPPP1PPP/RNBQK2R w KQkq - 4 4")
            .unwrap();
    let fen = b.to_fen();
    b.make_move_struct(Move::from_uci("e1g1").unwrap());
    assert!(b.debug_key_ok());
    assert_eq!(b.cells[square::from_alg("g1").unwrap()], Piece::WK);
    assert_eq!(b.cells[square::from_alg("f1").unwrap()], Piece::WR);
    assert_eq!(b.castling & (CASTLE_WK | CASTLE_WQ), 0);
    b.unmake_move();
    assert_eq!(b.to_fen(), fen);
}

#[test]
fn promotion_make_unmake() {
    let mut b = Board::from_fen("8/P7/8/8/8/8/8/k6K w - - 0 1").unwrap();
    let fen = b.to_fen();
    b.make_move_struct(Move::from_uci("a7a8q").unwrap());
    assert!(b.debug_key_ok());
    assert_eq!(b.cells[square::from_alg("a8").unwrap()], Piece::WQ);
    b.unmake_move();
    assert_eq!(b.to_fen(), fen);
}

#[test]
fn insufficient_material() {
    assert!(Board::from_fen("8/8/8/4k3/8/8/4K3/8 w - - 0 1")
        .unwrap()
        .is_insufficient_material());
    assert!(Board::from_fen("8/8/8/4k3/8/8/4KN2/8 w - - 0 1")
        .unwrap()
        .is_insufficient_material());
    assert!(!Board::from_fen("8/8/8/4k3/8/8/4KR2/8 w - - 0 1")
        .unwrap()
        .is_insufficient_material());
}

fn count_legal(fen: &str) -> usize {
    let mut b = Board::from_fen(fen).unwrap();
    let mut moves = Vec::new();
    legal_moves(&mut b, &mut moves);
    moves.len()
}

#[test]
fn startpos_has_twenty_moves() {
    assert_eq!(count_legal(START_FEN), 20);
}

#[test]
fn castling_blocked_through_check() {
    let fen = "4r3/8/8/8/8/8/8/R3K2R w KQ - 0 1";
    let mut b = Board::from_fen(fen).unwrap();
    let mut moves = Vec::new();
    legal_moves(&mut b, &mut moves);
    assert!(!moves.iter().any(|m| m.to == square::from_alg("g1").unwrap()));
    assert!(!moves.iter().any(|m| m.to == square::from_alg("c1").unwrap()));
}

#[test]
fn castling_allowed_when_clear() {
    let fen = "r3k2r/8/8/8/8/8/8/R3K2R w KQkq - 0 1";
    let mut b = Board::from_fen(fen).unwrap();
    let mut moves = Vec::new();
    legal_moves(&mut b, &mut moves);
    assert!(moves.iter().any(|m| m.to == square::from_alg("g1").unwrap()));
    assert!(moves.iter().any(|m| m.to == square::from_alg("c1").unwrap()));
}

#[test]
fn pinned_piece_cannot_move() {
    let fen = "4r3/8/8/8/8/8/4N3/4K3 w - - 0 1";
    let mut b = Board::from_fen(fen).unwrap();
    let mut moves = Vec::new();
    legal_moves(&mut b, &mut moves);
    assert!(!moves.iter().any(|m| m.from == square::from_alg("e2").unwrap()));
}

#[test]
fn checkmate_has_no_moves() {
    let fen = "rnb1kbnr/pppp1ppp/8/4p3/6Pq/5P2/PPPPP2P/RNBQKBNR w KQkq - 1 3";
    assert_eq!(count_legal(fen), 0);
}

#[test]
fn perft_startpos_shallow() {
    let mut b = Board::startpos();
    assert_eq!(perft(&mut b, 1), 20);
    assert_eq!(perft(&mut b, 2), 400);
    assert_eq!(perft(&mut b, 3), 8902);
    assert_eq!(perft(&mut b, 4), 197281);
}

#[test]
fn perft_kiwipete_shallow() {
    let fen = "r3k2r/p1ppqpb1/bn2pnp1/3PN3/1p2P3/2N2Q1p/PPPBBPPP/R3K2R w KQkq - 0 1";
    let mut b = Board::from_fen(fen).unwrap();
    assert_eq!(perft(&mut b, 1), 48);
    assert_eq!(perft(&mut b, 2), 2039);
    assert_eq!(perft(&mut b, 3), 97862);
}
