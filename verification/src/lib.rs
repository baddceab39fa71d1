//! A chess engine: the `0x88` board model, FEN, reversible make/unmake with an
//! incrementally maintained Zobrist key, legal move generation, evaluation,
//! alpha-beta search, and the SAN / PGN / EPD / UCI notations.

pub mod text;
pub mod types;
pub mod moves;
pub mod zobrist;
pub mod board;
pub mod attacks;
pub mod movegen;
pub mod timeman;
pub mod log;
pub mod eval;
pub mod see;
pub mod transposition;
pub mod search;
pub mod engine;
pub mod san;
pub mod pgn;
pub mod epd;
pub mod book;
pub mod game;
pub mod perft;
pub mod uci;
pub mod auth;
pub mod ui;
