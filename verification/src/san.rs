//! Standard Algebraic Notation (SAN).
//!
//! [`move_to_san`] renders a legal move the way books and PGN write it
//! (`Nf3`, `exd5`, `O-O`, `e8=Q+`, `Qh4#`), with the least disambiguation
//! the SAN rules need and a check or mate suffix. [`san_to_move`] reads SAN
//! back by rendering every legal move and comparing, so the reader and the
//! writer always agree.

pub mod unique;

use crate::attacks::{in_check, in_check_spec};
use crate::board::{Board, Pos};
use crate::movegen::{ep_sane, gen_moves, has_legal_move, legal, lemma_legal_sane};
use crate::moves::{ascii_upper, uci_text, upper_ascii, Move, MoveList};
use crate::text::{push_char, str_chars, string_from_chars, trim, trim_chars};
use crate::types::square::{self, alg, file_char, rank_char, spec_file, spec_rank, valid};
use crate::types::{Piece, PieceKind};
use vstd::prelude::*;

verus! {

/// The other legal moves of a piece of the same kind to the same square.
pub open spec fn rival(p: Pos, mv: Move, other: Move, kind: PieceKind) -> bool {
    &&& legal(p, other)
    &&& other.to == mv.to
    &&& other.from != mv.from
    &&& p.cells[other.from as int].spec_kind() == Some(kind)
}

/// The disambiguation `mv` needs: nothing without a rival, else the origin
/// file if no rival shares it, else the origin rank if no rival shares that,
/// else the whole origin square.
pub open spec fn disambiguation_text(p: Pos, mv: Move, kind: PieceKind) -> Seq<char> {
    let from = mv.from as int;
    if !(exists|o: Move| rival(p, mv, o, kind)) {
        seq![]
    } else if !(exists|o: Move| rival(p, mv, o, kind) && spec_file(o.from as int) == spec_file(from)) {
        seq![file_char(spec_file(from))]
    } else if !(exists|o: Move| rival(p, mv, o, kind) && spec_rank(o.from as int) == spec_rank(from)) {
        seq![rank_char(spec_rank(from))]
    } else {
        alg(from)
    }
}

/// `+` when `mv` gives check, `#` when it mates, nothing otherwise.
pub open spec fn check_suffix_text(p: Pos, mv: Move) -> Seq<char> {
    let q = p.after(mv);
    if in_check_spec(q, q.side()) {
        if exists|m: Move| legal(q, m) {
            seq!['+']
        } else {
            seq!['#']
        }
    } else {
        seq![]
    }
}

/// The SAN of a legal move `mv` in `p`.
pub open spec fn san_text(p: Pos, mv: Move) -> Seq<char> {
    let from = mv.from as int;
    let to = mv.to as int;
    match p.cells[from].spec_kind() {
        None => uci_text(mv),
        Some(kind) => {
            if kind == PieceKind::King && (spec_file(from) - spec_file(to) == 2 || spec_file(to)
                - spec_file(from) == 2) {
                (if spec_file(to) == 6 {
                    "O-O"@
                } else {
                    "O-O-O"@
                }) + check_suffix_text(p, mv)
            } else {
                let is_ep = kind == PieceKind::Pawn && spec_file(from) != spec_file(to)
                    && p.cells[to].spec_is_empty();
                let capture = !p.cells[to].spec_is_empty() || is_ep;
                let body = if kind == PieceKind::Pawn {
                    (if capture {
                        seq![file_char(spec_file(from)), 'x']
                    } else {
                        seq![]
                    }) + alg(to) + match mv.promotion {
                        Some(q) => seq!['=', ascii_upper(q.spec_to_char())],
                        None => seq![],
                    }
                } else {
                    seq![ascii_upper(kind.spec_to_char())] + disambiguation_text(p, mv, kind) + (
                    if capture {
                        seq!['x']
                    } else {
                        seq![]
                    }) + alg(to)
                };
                body + check_suffix_text(p, mv)
            }
        },
    }
}

fn push_str(out: &mut Vec<char>, s: &str)
    ensures
        final(out)@ == old(out)@ + s@,
{
    crate::text::extend_str(out, s);
}

/// The disambiguation string needed to tell `mv` from other same-kind
/// moves to the same square.
fn disambiguation(board: &Board, mv: Move, kind: PieceKind) -> (r: Vec<char>)
    requires
        board.wf(),
        ep_sane(board.pos()),
        valid(mv.from as int),
    ensures
        r@ == disambiguation_text(board.pos(), mv, kind),
{
    let ghost p = board.pos();
    let mut moves: MoveList = Vec::new();
    gen_moves(board, &mut moves);
    let mut any = false;
    let mut same_file = false;
    let mut same_rank = false;
    let ff = square::file(mv.from);
    let fr = square::rank(mv.from);
    let mut i: usize = 0;
    while i < moves.len()
        invariant
            i <= moves@.len(),
            forall|m: Move| #[trigger] moves@.contains(m) <==> legal(p, m),
            valid(mv.from as int),
            ff == spec_file(mv.from as int),
            fr == spec_rank(mv.from as int),
            p == board.pos(),
            p.wf(),
            ep_sane(p),
            any <==> exists|j: int| 0 <= j < i && rival(p, mv, #[trigger] moves@[j], kind),
            same_file <==> exists|j: int| 0 <= j < i && rival(p, mv, #[trigger] moves@[j], kind) && spec_file(moves@[j].from as int) == spec_file(mv.from as int),
            same_rank <==> exists|j: int| 0 <= j < i && rival(p, mv, #[trigger] moves@[j], kind) && spec_rank(moves@[j].from as int) == spec_rank(mv.from as int),
        decreases moves@.len() - i,
    {
        let m = moves[i];
        proof {
            assert(moves@.contains(m));
            lemma_legal_sane(p, m);
        }
        let same_kind = match board.cells[m.from].kind() {
            Some(k) => k == kind,
            None => false,
        };
        if m.to == mv.to && m.from != mv.from && same_kind {
            any = true;
            if square::file(m.from) == ff {
                same_file = true;
            }
            if square::rank(m.from) == fr {
                same_rank = true;
            }
        }
        i = i + 1;
    }
    proof {
        assert forall|o: Move| rival(p, mv, o, kind) implies moves@.contains(o) by {}
        if exists|o: Move| rival(p, mv, o, kind) {
            let o = choose|o: Move| rival(p, mv, o, kind);
            assert(moves@.contains(o));
            let j = choose|j: int| 0 <= j < moves@.len() && moves@[j] == o;
            assert(rival(p, mv, moves@[j], kind));
        }
        if exists|o: Move| rival(p, mv, o, kind) && spec_file(o.from as int) == spec_file(mv.from as int) {
            let o = choose|o: Move| rival(p, mv, o, kind) && spec_file(o.from as int) == spec_file(mv.from as int);
            assert(moves@.contains(o));
            let j = choose|j: int| 0 <= j < moves@.len() && moves@[j] == o;
            assert(rival(p, mv, moves@[j], kind));
        }
        if exists|o: Move| rival(p, mv, o, kind) && spec_rank(o.from as int) == spec_rank(mv.from as int) {
            let o = choose|o: Move| rival(p, mv, o, kind) && spec_rank(o.from as int) == spec_rank(mv.from as int);
            assert(moves@.contains(o));
            let j = choose|j: int| 0 <= j < moves@.len() && moves@[j] == o;
            assert(rival(p, mv, moves@[j], kind));
        }
    }
    let mut out: Vec<char> = Vec::new();
    if !any {
        out
    } else if !same_file {
        out.push(square::file_letter(ff));
        proof {
            assert(out@ =~= disambiguation_text(p, mv, kind));
        }
        out
    } else if !same_rank {
        out.push(square::rank_digit(fr));
        proof {
            assert(out@ =~= disambiguation_text(p, mv, kind));
        }
        out
    } else {
        square::push_alg(&mut out, mv.from);
        proof {
            assert(out@ =~= disambiguation_text(p, mv, kind));
        }
        out
    }
}

/// `"+"`, `"#"`, or nothing, as `mv` gives check, mates, or neither.
fn check_suffix(board: &Board, mv: Move, out: &mut Vec<char>)
    requires
        board.wf(),
        ep_sane(board.pos()),
        legal(board.pos(), mv),
    ensures
        final(out)@ == old(out)@ + check_suffix_text(board.pos(), mv),
{
    proof {
        lemma_legal_sane(board.pos(), mv);
    }
    let mut b = board.duplicate();
    b.make_move_struct(mv);
    let opponent = b.side_to_move();
    if in_check(&b, opponent) {
        if has_legal_move(&mut b) {
            out.push('+');
        } else {
            out.push('#');
        }
    }
}


/// Render the legal move `mv` of `board` in SAN.
pub fn move_to_san(board: &Board, mv: Move) -> (r: String)
    requires
        board.wf(),
        ep_sane(board.pos()),
        legal(board.pos(), mv),
    ensures
        r@ == san_text(board.pos(), mv),
{
    let ghost p = board.pos();
    proof {
        lemma_legal_sane(p, mv);
    }
    let piece = board.cells[mv.from];
    let kind = match piece.kind() {
        Some(k) => k,
        None => {
            return mv.to_uci();
        },
    };
    let ff = square::file(mv.from);
    let tf = square::file(mv.to);
    let is_king = match kind {
        PieceKind::King => true,
        _ => false,
    };
    let mut out: Vec<char> = Vec::new();
    if is_king && (ff - tf == 2 || tf - ff == 2) {
        if tf == 6 {
            push_str(&mut out, "O-O");
        } else {
            push_str(&mut out, "O-O-O");
        }
        check_suffix(board, mv, &mut out);
        proof {
            assert(out@ =~= san_text(p, mv));
        }
        return string_from_chars(out.as_slice());
    }
    let is_pawn = match kind {
        PieceKind::Pawn => true,
        _ => false,
    };
    let is_ep = is_pawn && ff != tf && board.cells[mv.to].is_empty();
    let is_capture = !board.cells[mv.to].is_empty() || is_ep;
    if is_pawn {
        if is_capture {
            out.push(square::file_letter(ff));
            out.push('x');
        }
        square::push_alg(&mut out, mv.to);
        match mv.promotion {
            Some(promo) => {
                out.push('=');
                out.push(upper_ascii(promo.to_char()));
            },
            None => {},
        }
    } else {
        out.push(upper_ascii(kind.to_char()));
        let d = disambiguation(board, mv, kind);
        crate::text::extend_chars(&mut out, d.as_slice());
        if is_capture {
            out.push('x');
        }
        square::push_alg(&mut out, mv.to);
    }
    let ghost body = out@;
    check_suffix(board, mv, &mut out);
    proof {
        assert(out@ =~= san_text(p, mv));
    }
    string_from_chars(out.as_slice())
}

/// The characters a SAN comparison ignores: check and mate marks,
/// annotation glyphs, and spaces.
pub open spec fn san_noise(c: char) -> bool {
    c == '+' || c == '#' || c == '!' || c == '?' || c == ' '
}

/// `s` with zeros read as the letter O and the noise characters dropped.
pub open spec fn squeeze(s: Seq<char>) -> Seq<char>
    decreases s.len(),
{
    if s.len() == 0 {
        seq![]
    } else {
        let c = if s.last() == '0' {
            'O'
        } else {
            s.last()
        };
        squeeze(s.drop_last()) + if san_noise(c) {
            seq![]
        } else {
            seq![c]
        }
    }
}

/// `s` ends in `e.p.` (the en-passant mark some writers add).
pub open spec fn ends_ep(s: Seq<char>) -> bool {
    s.len() >= 4 && s[s.len() - 4] == 'e' && s[s.len() - 3] == '.' && s[s.len() - 2] == 'p' && s[s.len() - 1] == '.'
}

/// `s` without a final `e.p.`.
pub open spec fn drop_ep(s: Seq<char>) -> Seq<char> {
    if ends_ep(s) {
        s.subrange(0, s.len() - 4)
    } else {
        s
    }
}

/// The form in which SAN strings are compared: trimmed, `0` read as `O`,
/// without check marks, glyphs, or spaces, and without a final `e.p.`.
pub open spec fn normalize_spec(s: Seq<char>) -> Seq<char> {
    drop_ep(squeeze(trim(s)))
}

/// Strip everything that does not affect move identity, so that user input
/// and the rendered SAN compare equal.
fn normalize_san(san: &str) -> (r: Vec<char>)
    ensures
        r@ == normalize_spec(san@),
{
    let raw = str_chars(san);
    let t = trim_chars(raw.as_slice());
    let mut out: Vec<char> = Vec::new();
    let mut i: usize = 0;
    while i < t.len()
        invariant
            i <= t@.len(),
            out@ == squeeze(t@.subrange(0, i as int)),
        decreases t@.len() - i,
    {
        let c0 = t[i];
        let c = if c0 == '0' {
            'O'
        } else {
            c0
        };
        if !(c == '+' || c == '#' || c == '!' || c == '?' || c == ' ') {
            out.push(c);
        }
        proof {
            let sub = t@.subrange(0, i as int + 1);
            assert(sub.drop_last() =~= t@.subrange(0, i as int));
            assert(sub.last() == c0);
        }
        i = i + 1;
        proof {
            assert(out@ =~= squeeze(t@.subrange(0, i as int)));
        }
    }
    proof {
        assert(t@.subrange(0, t@.len() as int) =~= t@);
    }
    let n = out.len();
    if n >= 4 && out[n - 4] == 'e' && out[n - 3] == '.' && out[n - 2] == 'p' && out[n - 1] == '.' {
        let ghost full = out@;
        out.pop();
        out.pop();
        out.pop();
        out.pop();
        proof {
            assert(out@ =~= full.subrange(0, n - 4));
        }
    }
    out
}

/// Read SAN in the position of `board`: the legal move whose SAN matches
/// once both are normalized (check marks, glyphs, and `e.p.`-style noise
/// ignored; `0-0` accepted for `O-O`). `None` when no legal move matches or
/// the text is empty after normalizing.
pub fn san_to_move(board: &Board, san: &str) -> (r: Option<Move>)
    requires
        board.wf(),
        ep_sane(board.pos()),
    ensures
        match r {
            Some(m) => legal(board.pos(), m) && normalize_spec(san_text(board.pos(), m)) == normalize_spec(san@)
                && normalize_spec(san@).len() > 0,
            None => normalize_spec(san@).len() == 0 || !exists|m: Move| legal(board.pos(), m)
                && normalize_spec(san_text(board.pos(), m)) == normalize_spec(san@),
        },
{
    let ghost p = board.pos();
    let want = normalize_san(san);
    if want.len() == 0 {
        return None;
    }
    let mut moves: MoveList = Vec::new();
    gen_moves(board, &mut moves);
    let mut i: usize = 0;
    while i < moves.len()
        invariant
            i <= moves@.len(),
            p == board.pos(),
            board.wf(),
            ep_sane(p),
            want@ == normalize_spec(san@),
            want@.len() > 0,
            forall|m: Move| #[trigger] moves@.contains(m) <==> legal(p, m),
            forall|j: int| 0 <= j < i ==> normalize_spec(san_text(p, #[trigger] moves@[j])) != normalize_spec(san@),
        decreases moves@.len() - i,
    {
        let m = moves[i];
        proof {
            assert(moves@.contains(m));
        }
        let text = move_to_san(board, m);
        let n = normalize_san(text.as_str());
        if crate::text::chars_eq(n.as_slice(), want.as_slice()) {
            return Some(m);
        }
        i = i + 1;
    }
    proof {
        if exists|m: Move| legal(p, m) && normalize_spec(san_text(p, m)) == normalize_spec(san@) {
            let m = choose|m: Move| legal(p, m) && normalize_spec(san_text(p, m)) == normalize_spec(san@);
            assert(moves@.contains(m));
            let j = choose|j: int| 0 <= j < moves@.len() && moves@[j] == m;
            assert(normalize_spec(san_text(p, moves@[j])) != normalize_spec(san@));
        }
    }
    None
}


/// The SAN of a move is never empty.
#[verifier::spinoff_prover]
pub proof fn lemma_san_nonempty(p: Pos, mv: Move)
    ensures
        san_text(p, mv).len() > 0,
{
    let from = mv.from as int;
    let to = mv.to as int;
    match p.cells[from].spec_kind() {
        None => {
            assert(alg(from).len() == 2);
            assert(uci_text(mv).len() >= 2);
        },
        Some(kind) => {
            let cs = check_suffix_text(p, mv);
            if kind == PieceKind::King && (spec_file(from) - spec_file(to) == 2 || spec_file(to) - spec_file(from) == 2) {
                reveal_strlit("O-O");
                reveal_strlit("O-O-O");
                assert("O-O"@.len() == 3);
                assert("O-O-O"@.len() == 5);
            } else {
                assert(alg(to).len() == 2);
            }
        },
    }
}

} // verus!
