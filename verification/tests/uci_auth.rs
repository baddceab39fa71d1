//! The UCI front end and the account store.

use rust_chess_engine::auth::User;
use rust_chess_engine::uci::UciEngine;

fn run_cmds(cmds: &[&str]) -> String {
    let mut engine = UciEngine::new();
    let mut out = Vec::new();
    for c in cmds {
        engine.handle_line(c, &mut out);
    }
    String::from_utf8(out).unwrap()
}

#[test]
fn identifies_itself() {
    let out = run_cmds(&["uci"]);
    assert!(out.contains("id name"));
    assert!(out.contains("uciok"));
}

#[test]
fn isready_responds() {
    assert!(run_cmds(&["isready"]).contains("readyok"));
}

#[test]
fn position_and_go_returns_legal_bestmove() {
    let out = run_cmds(&["position startpos moves e2e4 e7e5", "go depth 4"]);
    assert!(out.contains("bestmove"));
    let line = out.lines().find(|l| l.starts_with("bestmove")).unwrap();
    let mv = line.split_whitespace().nth(1).unwrap();
    assert!(mv.len() >= 4 && mv != "0000");
}

#[test]
fn quit_stops() {
    let mut engine = UciEngine::new();
    let mut out = Vec::new();
    assert!(!engine.handle_line("quit", &mut out));
}

#[test]
fn hashing_is_deterministic_and_distinct() {
    let h1 = User::hash_password("secret123");
    let h2 = User::hash_password("secret123");
    let h3 = User::hash_password("different");
    assert_eq!(h1, h2, "same password must hash the same");
    assert_ne!(h1, h3, "different passwords must hash differently");
    assert_eq!(h1.len(), 64, "sha256 hex digest is 64 chars");
}

#[test]
fn verify_password_matches_only_correct() {
    let u = User::new("alice".to_string(), "hunter2x".to_string());
    assert!(u.verify_password("hunter2x"));
    assert!(!u.verify_password("wrong"));
    assert_eq!(u.username, "alice");
}
