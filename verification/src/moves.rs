//! Move representation.
//!
//! A [`Move`] keeps the minimal, color-agnostic information needed to apply it:
//! origin square, destination square, and an optional promotion piece. Special
//! move semantics (captures, double pawn pushes, en passant, castling) are
//! derived from the board state at apply time in [`crate::board`].

use crate::text::{is_ws, str_chars, string_from_chars, trim, trim_chars, trim_end, trim_start};
use crate::types::square::{alg, parse_alg, push_alg, from_alg_chars, valid};
use crate::types::{Piece, PieceKind, Sq};
use vstd::prelude::*;

verus! {

/// A chess move from one square to another, with optional promotion.
#[derive(Clone, Copy, PartialEq, Eq, Structural, Debug, Hash)]
pub struct Move {
    pub from: Sq,
    pub to: Sq,
    /// The piece a pawn promotes to, or `None` for non-promotions.
    pub promotion: Option<Piece>,
}

/// A reusable buffer of moves. Move generation appends into one of these.
pub type MoveList = Vec<Move>;

/// ASCII lowercase of a character (others unchanged).
pub open spec fn ascii_lower(c: char) -> char {
    if 'A' <= c && c <= 'Z' {
        ((c as int) + 32) as char
    } else {
        c
    }
}

/// ASCII uppercase of a character (others unchanged).
pub open spec fn ascii_upper(c: char) -> char {
    if 'a' <= c && c <= 'z' {
        ((c as int) - 32) as char
    } else {
        c
    }
}

pub open spec fn is_ascii_char(c: char) -> bool {
    (c as int) < 128
}

/// The long algebraic (UCI) text of a move: origin, destination, and the
/// lowercase promotion letter if any.
pub open spec fn uci_text(m: Move) -> Seq<char> {
    alg(m.from as int) + alg(m.to as int) + match m.promotion {
        Some(p) => seq![ascii_lower(p.spec_to_char())],
        None => Seq::<char>::empty(),
    }
}

/// The promotion piece named by a UCI suffix letter (white-colored).
pub open spec fn promo_of_char(c: char) -> Option<Piece> {
    let l = ascii_lower(c);
    if l == 'q' {
        Some(Piece::WQ)
    } else if l == 'r' {
        Some(Piece::WR)
    } else if l == 'b' {
        Some(Piece::WB)
    } else if l == 'n' {
        Some(Piece::WN)
    } else {
        None
    }
}

/// The move that the trimmed UCI text `t` names, if any: the first four
/// characters (which must be ASCII) give the two squares, and a fifth
/// character, if present, must name a promotion piece. Text after the fifth
/// character is ignored.
pub open spec fn parse_uci_trimmed(t: Seq<char>) -> Option<Move> {
    if t.len() >= 4 && is_ascii_char(t[0]) && is_ascii_char(t[1]) && is_ascii_char(t[2])
        && is_ascii_char(t[3]) {
        match (parse_alg(t.subrange(0, 2)), parse_alg(t.subrange(2, 4))) {
            (Some(f), Some(d)) => if t.len() >= 5 {
                match promo_of_char(t[4]) {
                    Some(p) => Some(Move { from: f as usize, to: d as usize, promotion: Some(p) }),
                    None => None,
                }
            } else {
                Some(Move { from: f as usize, to: d as usize, promotion: None })
            },
            _ => None,
        }
    } else {
        None
    }
}

impl Move {
    /// A quiet (non-promoting) move.
    pub fn new(from: Sq, to: Sq) -> (r: Move)
        ensures
            r == (Move { from, to, promotion: None }),
    {
        Move { from, to, promotion: None }
    }

    /// A promotion move.
    pub fn promo(from: Sq, to: Sq, piece: Piece) -> (r: Move)
        ensures
            r == (Move { from, to, promotion: Some(piece) }),
    {
        Move { from, to, promotion: Some(piece) }
    }

    /// `true` if this move promotes a pawn.
    pub fn is_promotion(&self) -> (r: bool)
        ensures
            r == (self.promotion is Some),
    {
        self.promotion.is_some()
    }

    /// Appends the UCI text of the move to `out`.
    pub fn push_uci(&self, out: &mut Vec<char>)
        ensures
            final(out)@ == old(out)@ + uci_text(*self),
    {
        push_alg(out, self.from);
        push_alg(out, self.to);
        match self.promotion {
            Some(p) => {
                let c = lower_ascii(p.to_char());
                out.push(c);
            },
            None => {},
        }
        assert(final(out)@ =~= old(out)@ + uci_text(*self));
    }

    /// Render in long algebraic / UCI form, e.g. `"e2e4"` or `"e7e8q"`.
    pub fn to_uci(&self) -> (r: String)
        ensures
            r@ == uci_text(*self),
    {
        let mut v: Vec<char> = Vec::new();
        self.push_uci(&mut v);
        assert(v@ =~= uci_text(*self));
        string_from_chars(v.as_slice())
    }

    /// Parse UCI move characters (see [`Move::from_uci`]).
    pub fn from_uci_chars(s: &[char]) -> (r: Option<Move>)
        ensures
            r == parse_uci_trimmed(trim(s@)),
            r matches Some(m) ==> valid(m.from as int) && valid(m.to as int),
    {
        let t = trim_chars(s);
        if t.len() < 4 || !(is_ascii(t[0]) && is_ascii(t[1]) && is_ascii(t[2]) && is_ascii(t[3])) {
            return None;
        }
        let mut a: Vec<char> = Vec::new();
        a.push(t[0]);
        a.push(t[1]);
        assert(a@ =~= t@.subrange(0, 2));
        let from = match from_alg_chars(a.as_slice()) {
            Some(f) => f,
            None => return None,
        };
        let mut b: Vec<char> = Vec::new();
        b.push(t[2]);
        b.push(t[3]);
        assert(b@ =~= t@.subrange(2, 4));
        let to = match from_alg_chars(b.as_slice()) {
            Some(d) => d,
            None => return None,
        };
        let promotion = if t.len() >= 5 {
            match promo_from_char(t[4]) {
                Some(p) => Some(p),
                None => return None,
            }
        } else {
            None
        };
        Some(Move { from, to, promotion })
    }

    /// Parse a UCI move string such as `"e2e4"` or `"e7e8q"`.
    ///
    /// The promotion color is normalized to white here; the callers that
    /// play the move resolve it against the legal moves, which gives the
    /// mover's piece. Returns `None` on malformed input, never panicking.
    pub fn from_uci(s: &str) -> (r: Option<Move>)
        ensures
            r == parse_uci_trimmed(trim(s@)),
            r matches Some(m) ==> valid(m.from as int) && valid(m.to as int),
    {
        let v = str_chars(s);
        Move::from_uci_chars(v.as_slice())
    }
}

fn is_ascii(c: char) -> (r: bool)
    ensures
        r == is_ascii_char(c),
{
    (c as u32) < 128
}

/// ASCII lowercase of `c`.
pub fn lower_ascii(c: char) -> (r: char)
    ensures
        r == ascii_lower(c),
{
    if 'A' <= c && c <= 'Z' {
        char_from_u32((c as u32) + 32)
    } else {
        c
    }
}

/// ASCII uppercase of `c`.
pub fn upper_ascii(c: char) -> (r: char)
    ensures
        r == ascii_upper(c),
{
    if 'a' <= c && c <= 'z' {
        char_from_u32((c as u32) - 32)
    } else {
        c
    }
}

fn char_from_u32(x: u32) -> (c: char)
    requires
        x < 128,
    ensures
        c == x as char,
{
    let b = x as u8;
    b as char
}

fn promo_from_char(c: char) -> (r: Option<Piece>)
    ensures
        r == promo_of_char(c),
{
    let l = lower_ascii(c);
    if l == 'q' {
        Some(Piece::WQ)
    } else if l == 'r' {
        Some(Piece::WR)
    } else if l == 'b' {
        Some(Piece::WB)
    } else if l == 'n' {
        Some(Piece::WN)
    } else {
        None
    }
}

/// A promotion piece that the UCI text can name: a queen, rook, bishop or
/// knight of either color.
pub open spec fn nameable_promotion(p: Option<Piece>) -> bool {
    match p {
        None => true,
        Some(q) => q.spec_kind() == Some(PieceKind::Queen) || q.spec_kind() == Some(PieceKind::Rook)
            || q.spec_kind() == Some(PieceKind::Bishop) || q.spec_kind() == Some(PieceKind::Knight),
    }
}

/// The promotion with its color normalized to white, as parsing gives it.
pub open spec fn white_promotion(p: Option<Piece>) -> Option<Piece> {
    match p {
        None => None,
        Some(q) => Some(Piece::spec_make(crate::types::Color::White, q.spec_kind()->0)),
    }
}

/// Reading back the UCI text of a move between real squares gives the same
/// move, with a promotion piece normalized to white.
pub proof fn lemma_uci_roundtrip(m: Move)
    requires
        valid(m.from as int),
        valid(m.to as int),
        nameable_promotion(m.promotion),
    ensures
        parse_uci_trimmed(trim(uci_text(m))) == Some(
            Move { from: m.from, to: m.to, promotion: white_promotion(m.promotion) },
        ),
{
    let t = uci_text(m);
    crate::types::square::lemma_alg_roundtrip(m.from as int);
    crate::types::square::lemma_alg_roundtrip(m.to as int);
    assert(!is_ws(t[0]));
    assert(trim_start(t) == t);
    assert(!is_ws(t.last()));
    assert(trim_end(t) == t);
    assert(t.subrange(0, 2) =~= alg(m.from as int));
    assert(t.subrange(2, 4) =~= alg(m.to as int));
}

} // verus!
