//! Reading a move typed in UCI against the legal moves.
//!
//! UCI text gives the squares and, for a promotion, a piece letter without
//! a color; [`Move::from_uci`](crate::moves::Move::from_uci) reads that
//! letter as a white piece. The move meant is the legal move with the same
//! squares and the same promotion kind, so a black pawn's `a2a1q` is the
//! promotion to a black queen.

use crate::board::Pos;
use crate::movegen::{ep_sane, is_promo_piece, legal, lemma_legal_sane, promo_ok};
use crate::moves::{lemma_uci_roundtrip, nameable_promotion, parse_uci_trimmed, uci_text, white_promotion, Move};
use crate::text::trim;
use vstd::prelude::*;

verus! {

/// `m` is a move that the UCI reading `q` names: the same squares, and
/// either no promotion in both or promotions to the same kind of piece.
pub open spec fn uci_names(m: Move, q: Move) -> bool {
    &&& m.from == q.from
    &&& m.to == q.to
    &&& match (m.promotion, q.promotion) {
        (None, None) => true,
        (Some(a), Some(b)) => a.spec_kind() == b.spec_kind(),
        _ => false,
    }
}

/// The legal move of `p` that the UCI reading `q` names, if there is one
/// (there is at most one: [`lemma_named_unique`]).
pub open spec fn named_legal(p: Pos, q: Move) -> Option<Move> {
    if exists|m: Move| legal(p, m) && #[trigger] uci_names(m, q) {
        Some(choose|m: Move| legal(p, m) && #[trigger] uci_names(m, q))
    } else {
        None
    }
}

/// The legal move of `p` that the UCI text `s` names, if any.
pub open spec fn uci_choice(p: Pos, s: Seq<char>) -> Option<Move> {
    match parse_uci_trimmed(trim(s)) {
        Some(q) => named_legal(p, q),
        None => None,
    }
}

/// Two legal moves named by the same UCI reading are the same move: a
/// legal promotion is always to a piece of the mover's color.
pub proof fn lemma_named_unique(p: Pos, q: Move, m1: Move, m2: Move)
    requires
        legal(p, m1),
        legal(p, m2),
        uci_names(m1, q),
        uci_names(m2, q),
    ensures
        m1 == m2,
{
    reveal(legal);
    if m1.promotion is Some {
        assert(promo_ok(m1, m1.to as int, p.side()));
        assert(promo_ok(m2, m2.to as int, p.side()));
        assert(is_promo_piece(m1.promotion->0, p.side()));
        assert(is_promo_piece(m2.promotion->0, p.side()));
    }
}

/// A legal move promotes, if at all, to a queen, rook, bishop or knight.
proof fn lemma_legal_promotion(p: Pos, m: Move)
    requires
        legal(p, m),
    ensures
        nameable_promotion(m.promotion),
{
    reveal(legal);
    if m.promotion is Some {
        assert(promo_ok(m, m.to as int, p.side()));
        assert(is_promo_piece(m.promotion->0, p.side()));
    }
}

/// The UCI text of a legal move names that move and no other: a move
/// written in UCI and read back in the same position is the move played,
/// for either side's promotions.
pub proof fn lemma_uci_choice_roundtrip(p: Pos, m: Move)
    requires
        p.wf(),
        ep_sane(p),
        legal(p, m),
    ensures
        uci_choice(p, uci_text(m)) == Some(m),
{
    lemma_legal_sane(p, m);
    lemma_legal_promotion(p, m);
    lemma_uci_roundtrip(m);
    let q = Move { from: m.from, to: m.to, promotion: white_promotion(m.promotion) };
    assert(uci_names(m, q));
    let c = choose|c: Move| legal(p, c) && #[trigger] uci_names(c, q);
    lemma_named_unique(p, q, m, c);
}

/// Whether `m` is a move that the UCI reading `q` names.
pub fn names_move(m: Move, q: Move) -> (r: bool)
    ensures
        r == uci_names(m, q),
{
    if m.from != q.from || m.to != q.to {
        return false;
    }
    match (m.promotion, q.promotion) {
        (None, None) => true,
        (Some(a), Some(b)) => match (a.kind(), b.kind()) {
            (Some(x), Some(y)) => x == y,
            (None, None) => true,
            _ => false,
        },
        _ => false,
    }
}

/// The first move of `moves` that the UCI reading `q` names, if any.
pub fn first_named(moves: &Vec<Move>, q: Move) -> (r: Option<Move>)
    ensures
        match r {
            Some(m) => moves@.contains(m) && uci_names(m, q),
            None => forall|m: Move| #[trigger] moves@.contains(m) ==> !uci_names(m, q),
        },
{
    let mut i: usize = 0;
    while i < moves.len()
        invariant
            i <= moves@.len(),
            forall|j: int| 0 <= j < i ==> !uci_names(#[trigger] moves@[j], q),
        decreases moves@.len() - i,
    {
        if names_move(moves[i], q) {
            proof {
                assert(moves@.contains(moves@[i as int]));
            }
            return Some(moves[i]);
        }
        i = i + 1;
    }
    proof {
        assert forall|m: Move| #[trigger] moves@.contains(m) implies !uci_names(m, q) by {
            let j = choose|j: int| 0 <= j < moves@.len() && moves@[j] == m;
        }
    }
    None
}

/// What [`first_named`] finds in a list of exactly the legal moves of `p`
/// is the legal move that `q` names.
pub proof fn lemma_first_named(p: Pos, moves: Seq<Move>, q: Move, r: Option<Move>)
    requires
        forall|m: Move| #[trigger] moves.contains(m) <==> legal(p, m),
        match r {
            Some(m) => moves.contains(m) && uci_names(m, q),
            None => forall|m: Move| #[trigger] moves.contains(m) ==> !uci_names(m, q),
        },
    ensures
        r == named_legal(p, q),
{
    match r {
        Some(m) => {
            assert(legal(p, m) && uci_names(m, q));
            let c = choose|c: Move| legal(p, c) && #[trigger] uci_names(c, q);
            lemma_named_unique(p, q, m, c);
        },
        None => {
            assert forall|m: Move| legal(p, m) implies !#[trigger] uci_names(m, q) by {
                assert(moves.contains(m));
            }
        },
    }
}

} // verus!
