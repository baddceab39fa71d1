//! Evaluation, static exchange, search, time management and log levels.

use rust_chess_engine::board::Board;
use rust_chess_engine::eval::{evaluate, MATE_THRESHOLD, TEMPO};
use rust_chess_engine::log::{enabled_at, Level, SearchTelemetry};
use rust_chess_engine::movegen::legal_moves;
use rust_chess_engine::moves::Move;
use rust_chess_engine::search::{search, SearchLimits};
use rust_chess_engine::see::{see, value};
use rust_chess_engine::timeman::TimeControl;
use rust_chess_engine::types::{square, PieceKind};

#[test]
fn startpos_is_balanced() {
    let b = Board::startpos();
    assert_eq!(evaluate(&b), TEMPO);
}

#[test]
fn extra_queen_is_winning() {
    let b = Board::from_fen("4k3/8/8/8/8/8/8/3QK3 w - - 0 1").unwrap();
    assert!(evaluate(&b) > 800);
}

#[test]
fn perspective_flips() {
    let w = Board::from_fen("4k3/8/8/8/8/8/8/3QK3 w - - 0 1").unwrap();
    let b = Board::from_fen("3qk3/8/8/8/8/8/8/4K3 b - - 0 1").unwrap();
    assert!(evaluate(&w) > 0);
    assert!(evaluate(&b) > 0);
}

#[test]
fn equal_pawn_trade_is_zero() {
    let b = Board::from_fen("4k3/8/3p4/4p3/3P4/8/8/4K3 w - - 0 1").unwrap();
    let mv = Move::from_uci("d4e5").unwrap();
    assert_eq!(see(&b, mv), 0);
}

#[test]
fn winning_capture_is_positive() {
    let b = Board::from_fen("4k3/8/8/3r4/8/8/3R4/4K3 w - - 0 1").unwrap();
    let mv = Move::from_uci("d2d5").unwrap();
    assert_eq!(see(&b, mv), value(PieceKind::Rook));
}

#[test]
fn losing_capture_is_negative() {
    let b = Board::from_fen("4k3/8/2p5/3p4/8/8/3R4/4K3 w - - 0 1").unwrap();
    let mv = Move::from_uci("d2d5").unwrap();
    assert_eq!(see(&b, mv), value(PieceKind::Pawn) - value(PieceKind::Rook));
}

#[test]
fn xray_recapture_counts() {
    let b = Board::from_fen("4k3/8/3r4/3r4/8/3R4/3R4/4K3 w - - 0 1").unwrap();
    let mv = Move::from_uci("d3d5").unwrap();
    assert_eq!(see(&b, mv), value(PieceKind::Rook));
}

#[test]
fn finds_mate_in_one() {
    let mut b = Board::from_fen("6k1/5ppp/8/8/8/8/8/R3K3 w - - 0 1").unwrap();
    let res = search(&mut b, SearchLimits::depth(4));
    assert_eq!(res.best_move.map(|m| m.to_uci()), Some("a1a8".to_string()));
    assert!(res.score >= MATE_THRESHOLD);
}

#[test]
fn captures_free_queen() {
    let mut b = Board::from_fen("4k3/8/8/3q4/8/8/3R4/4K3 w - - 0 1").unwrap();
    let res = search(&mut b, SearchLimits::depth(4));
    assert_eq!(res.best_move.map(|m| m.to), Some(square::from_alg("d5").unwrap()));
}

#[test]
fn search_is_stable_and_legal() {
    let mut b = Board::startpos();
    let res = search(&mut b, SearchLimits::depth(5));
    assert!(res.best_move.is_some());
    let mut legal = Vec::new();
    legal_moves(&mut b, &mut legal);
    assert!(legal.contains(&res.best_move.unwrap()));
}

#[test]
fn divides_time_across_moves() {
    let tc = TimeControl {
        time_left_ms: 60_000,
        increment_ms: 0,
        moves_to_go: Some(30),
    };
    let b = tc.budget_ms();
    assert!(b > 1500 && b < 2200, "got {}", b);
}

#[test]
fn never_zero_and_capped() {
    let tc = TimeControl {
        time_left_ms: 100,
        increment_ms: 0,
        moves_to_go: None,
    };
    let b = tc.budget_ms();
    assert!(b >= 1);
    assert!(b <= 50);
}

#[test]
fn uses_increment_when_flat() {
    let tc = TimeControl {
        time_left_ms: 0,
        increment_ms: 2000,
        moves_to_go: None,
    };
    assert!(tc.budget_ms() >= 1900);
}

#[test]
fn level_ordering() {
    assert!(Level::Error < Level::Info);
    assert!(Level::Info < Level::Trace);
}

#[test]
fn set_and_query_level() {
    // The active level is the caller's (the program keeps it in a global).
    let mut active = Level::Debug;
    assert!(enabled_at(Level::Error, active));
    assert!(enabled_at(Level::Debug, active));
    assert!(!enabled_at(Level::Trace, active));
    active = Level::Off;
    assert!(!enabled_at(Level::Error, active));
}

#[test]
fn telemetry_nodes_per_second() {
    let t = SearchTelemetry {
        nodes: 2000,
        tt_hits: 50,
        tt_probes: 100,
        beta_cutoffs: 10,
        first_move_cutoffs: 9,
        elapsed_ms: 1000,
        ..Default::default()
    };
    assert_eq!(t.nps(), 2000);
    let idle = SearchTelemetry { nodes: 5, elapsed_ms: 0, ..Default::default() };
    assert_eq!(idle.nps(), 0);
}
