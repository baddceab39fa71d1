//! The engine's stable surface in one place, and the game status of a
//! position (ongoing, mated, stalemated, or drawn by rule).

pub use crate::board::{Board, START_FEN};
pub use crate::eval::{eval_terms, evaluate, EvalTerms};
pub use crate::movegen::{gen_captures, gen_moves, has_legal_move, is_king_attacked, legal_moves};
pub use crate::moves::{Move, MoveList};
pub use crate::search::{ai_move, search, SearchLimits, SearchResult, Searcher};
pub use crate::types::{square, Color, Piece, PieceKind, Sq};

use crate::attacks::in_check_spec;
use crate::board::{capped, insufficient_spec, repetition_spec};
use crate::movegen::{ep_sane, legal};
use vstd::prelude::*;

verus! {

/// Status of a game, derived from the position.
#[derive(Clone, Copy, PartialEq, Eq, Debug, Structural)]
pub enum GameStatus {
    Ongoing,
    Checkmate { winner: Color },
    Stalemate,
    DrawFiftyMove,
    DrawRepetition,
    DrawInsufficientMaterial,
}

/// The status of the game on `b`: the draw rules first (fifty moves, then
/// threefold repetition, then insufficient material), then mate or
/// stalemate when the side to move has no legal move.
pub open spec fn status_spec(b: Board) -> GameStatus {
    let p = b.pos();
    if b.halfmove_clock >= 100 {
        GameStatus::DrawFiftyMove
    } else if capped(repetition_spec(b.key_line(), b.halfmove_clock, b.key)) >= 3 {
        GameStatus::DrawRepetition
    } else if insufficient_spec(b.cells@) {
        GameStatus::DrawInsufficientMaterial
    } else if exists|m: Move| legal(p, m) {
        GameStatus::Ongoing
    } else if in_check_spec(p, p.side()) {
        GameStatus::Checkmate { winner: p.side().spec_flip() }
    } else {
        GameStatus::Stalemate
    }
}

/// Determine the game status of `board`: whether the side to move is mated
/// or stalemated, or the position is drawn by rule.
pub fn game_status(board: &mut Board) -> (r: GameStatus)
    requires
        old(board).wf(),
        ep_sane(old(board).pos()),
    ensures
        final(board).wf(),
        final(board).same_state(old(board)),
        r == status_spec(*old(board)),
{
    if board.is_fifty_move_draw() {
        return GameStatus::DrawFiftyMove;
    }
    if board.repetition_count() >= 3 {
        return GameStatus::DrawRepetition;
    }
    if board.is_insufficient_material() {
        return GameStatus::DrawInsufficientMaterial;
    }
    if has_legal_move(board) {
        return GameStatus::Ongoing;
    }
    if is_king_attacked(board, board.side_white) {
        GameStatus::Checkmate { winner: board.side_to_move().flip() }
    } else {
        GameStatus::Stalemate
    }
}

} // verus!
