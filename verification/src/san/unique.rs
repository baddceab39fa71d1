//! SAN names moves uniquely: two legal moves of a position never share a
//! SAN, so reading back the SAN of a legal move gives that move.

use crate::board::Pos;
use crate::movegen::{castle_move, ep_sane, home_rank, is_promo_piece, legal, lemma_legal_sane, pawn_dir, pawn_move, piece_move, promo_ok};
use crate::moves::{ascii_upper, Move};
use crate::san::{check_suffix_text, disambiguation_text, normalize_spec, rival, san_noise, san_text, squeeze};
use crate::text::{is_ws, trim, trim_end, trim_start};
use crate::types::square::{alg, file_char, lemma_alg_roundtrip, rank_char, spec_file, spec_make, spec_rank, valid};
use crate::types::{Color, Piece, PieceKind};
use vstd::prelude::*;

verus! {

/// A character that comparison keeps as it is.
pub open spec fn plain(c: char) -> bool {
    !san_noise(c) && c != '0' && !is_ws(c) && c != '.'
}

/// Squeezing distributes over concatenation.
proof fn lemma_squeeze_concat(a: Seq<char>, b: Seq<char>)
    ensures
        squeeze(a + b) == squeeze(a) + squeeze(b),
    decreases b.len(),
{
    if b.len() > 0 {
        lemma_squeeze_concat(a, b.drop_last());
        assert((a + b).drop_last() =~= a + b.drop_last());
        assert((a + b).last() == b.last());
        assert(squeeze(a) + squeeze(b.drop_last()) + squeeze(b).subrange(squeeze(b.drop_last()).len() as int, squeeze(b).len() as int)
            =~= squeeze(a) + squeeze(b));
    }
}

/// Plain text is left as it is.
proof fn lemma_squeeze_plain(s: Seq<char>)
    requires
        forall|i: int| 0 <= i < s.len() ==> plain(#[trigger] s[i]),
    ensures
        squeeze(s) == s,
    decreases s.len(),
{
    if s.len() > 0 {
        assert(plain(s[s.len() - 1]));
        lemma_squeeze_plain(s.drop_last());
        assert(s.drop_last().push(s.last()) =~= s);
    }
}

/// A suffix of check marks is dropped by the comparison, and plain text
/// between non-blank ends is kept.
proof fn lemma_normalize_plain(body: Seq<char>, suffix: Seq<char>)
    requires
        body.len() > 0,
        forall|i: int| 0 <= i < body.len() ==> plain(#[trigger] body[i]),
        suffix == Seq::<char>::empty() || suffix == seq!['+'] || suffix == seq!['#'],
    ensures
        normalize_spec(body + suffix) == body,
{
    let s = body + suffix;
    assert(plain(body[0]));
    assert(s[0] == body[0]);
    assert(!is_ws(s.last())) by {
        if suffix.len() == 0 {
            assert(s.last() == body[body.len() - 1]);
            assert(plain(body[body.len() - 1]));
        }
    }
    assert(trim_start(s) == s);
    assert(trim_end(s) == s);
    assert(trim(s) == s);
    lemma_squeeze_concat(body, suffix);
    lemma_squeeze_plain(body);
    assert(plain(body[body.len() - 1]));
    if suffix.len() > 0 {
        assert(suffix.drop_last() =~= Seq::<char>::empty());
        assert(squeeze(suffix.drop_last()) =~= Seq::<char>::empty());
        assert(san_noise(suffix.last()));
        assert(squeeze(suffix) =~= Seq::<char>::empty());
    } else {
        assert(squeeze(suffix) =~= Seq::<char>::empty());
    }
    assert(s == body + suffix);
}

/// The SAN of a move without its check or mate mark.
pub open spec fn san_body(p: Pos, mv: Move) -> Seq<char> {
    let from = mv.from as int;
    let to = mv.to as int;
    let kind = p.cells[from].spec_kind()->0;
    if kind == PieceKind::King && (spec_file(from) - spec_file(to) == 2 || spec_file(to) - spec_file(from) == 2) {
        if spec_file(to) == 6 {
            seq!['O', '-', 'O']
        } else {
            seq!['O', '-', 'O', '-', 'O']
        }
    } else {
        let is_ep = kind == PieceKind::Pawn && spec_file(from) != spec_file(to) && p.cells[to].spec_is_empty();
        let capture = !p.cells[to].spec_is_empty() || is_ep;
        if kind == PieceKind::Pawn {
            (if capture {
                seq![file_char(spec_file(from)), 'x']
            } else {
                seq![]
            }) + alg(to) + match mv.promotion {
                Some(q) => seq!['=', ascii_upper(q.spec_to_char())],
                None => seq![],
            }
        } else {
            seq![ascii_upper(kind.spec_to_char())] + disambiguation_text(p, mv, kind) + (if capture {
                seq!['x']
            } else {
                seq![]
            }) + alg(to)
        }
    }
}

proof fn lemma_chars(f: int)
    requires
        0 <= f < 8,
    ensures
        'a' <= file_char(f) <= 'h',
        '1' <= rank_char(f) <= '8',
        forall|g: int| 0 <= g < 8 && file_char(g) == file_char(f) ==> g == f,
        forall|g: int| 0 <= g < 8 && rank_char(g) == rank_char(f) ==> g == f,
{
}

proof fn lemma_alg_inj(a: int, b: int)
    requires
        valid(a),
        valid(b),
        alg(a) == alg(b),
    ensures
        a == b,
{
    lemma_alg_roundtrip(a);
    lemma_alg_roundtrip(b);
}

/// A step within the board moves the file and rank by its components.
proof fn lemma_step(s: int, dr: int, df: int)
    requires
        valid(s),
        valid(s + 16 * dr + df),
        -2 <= df <= 2,
        -7 <= dr <= 7,
    ensures
        spec_file(s + 16 * dr + df) == spec_file(s) + df,
        spec_rank(s + 16 * dr + df) == spec_rank(s) + dr,
{
    let r = spec_rank(s);
    let f = spec_file(s);
    let t = s + 16 * dr + df;
    assert(s == 16 * r + f);
    if 0 <= f + df < 8 {
        assert(t == 16 * (r + dr) + (f + df));
    } else if f + df >= 8 {
        assert(t == 16 * (r + dr + 1) + (f + df - 16));
    } else {
        assert(t == 16 * (r + dr - 1) + (f + df + 16));
    }
}

/// A castling move goes from the king's home square two files along.
proof fn lemma_castle_shape(p: Pos, m: Move)
    requires
        p.wf(),
        castle_move(p, m),
    ensures
        p.cells[m.from as int].spec_kind() == Some(PieceKind::King),
        p.cells[m.from as int].spec_is_color(p.side()),
        m.from as int == spec_make(home_rank(p.side()), 4),
        m.to as int == spec_make(home_rank(p.side()), 6) || m.to as int == spec_make(home_rank(p.side()), 2),
        spec_file(m.from as int) - spec_file(m.to as int) == 2 || spec_file(m.to as int) - spec_file(m.from as int) == 2,
        valid(m.from as int),
        valid(m.to as int),
{
    let c = p.side();
    let k = spec_make(home_rank(c), 4);
    assert(p.cells[k] == Piece::spec_make(c, PieceKind::King));
    assert(spec_file(k) == 4);
    assert(spec_file(spec_make(home_rank(c), 6)) == 6);
    assert(spec_file(spec_make(home_rank(c), 2)) == 2);
}

/// A king step moves at most one file.
proof fn lemma_king_step(p: Pos, m: Move)
    requires
        p.wf(),
        piece_move(p, m),
        p.cells[m.from as int].spec_kind() == Some(PieceKind::King),
    ensures
        !(spec_file(m.from as int) - spec_file(m.to as int) == 2 || spec_file(m.to as int) - spec_file(m.from as int) == 2),
{
    let c = p.side();
    let from = m.from as int;
    let to = m.to as int;
    let i = choose|i: int| 0 <= i < 8 && crate::movegen::leap(p.cells, from, #[trigger] crate::attacks::king_d(i), to, c);
    if i == 0 { lemma_step(from, 1, 0); } else if i == 1 { lemma_step(from, -1, 0); }
    else if i == 2 { lemma_step(from, 0, 1); } else if i == 3 { lemma_step(from, 0, -1); }
    else if i == 4 { lemma_step(from, 1, 1); } else if i == 5 { lemma_step(from, 1, -1); }
    else if i == 6 { lemma_step(from, -1, -1); } else { lemma_step(from, -1, 1); }
}

/// What a legal move is, by the kind of the piece moved.
proof fn lemma_legal_shape(p: Pos, m: Move)
    requires
        p.wf(),
        ep_sane(p),
        legal(p, m),
    ensures
        valid(m.from as int),
        valid(m.to as int),
        p.cells[m.from as int].spec_is_color(p.side()),
        p.cells[m.from as int].spec_kind() is Some,
        p.cells[m.from as int].spec_kind() != Some(PieceKind::Pawn) ==> m.promotion is None,
        ({
            let from = m.from as int;
            let to = m.to as int;
            (p.cells[from].spec_kind() == Some(PieceKind::King) && (spec_file(from) - spec_file(to) == 2 || spec_file(to) - spec_file(from) == 2))
                <==> castle_move(p, m)
        }),
        castle_move(p, m) ==> m.from as int == spec_make(home_rank(p.side()), 4)
            && (m.to as int == spec_make(home_rank(p.side()), 6) || m.to as int == spec_make(home_rank(p.side()), 2)),
        p.cells[m.from as int].spec_kind() == Some(PieceKind::Pawn) ==> piece_move(p, m),
{
    lemma_legal_sane(p, m);
    reveal(legal);
    if castle_move(p, m) {
        lemma_castle_shape(p, m);
    } else {
        assert(piece_move(p, m));
        if p.cells[m.from as int].spec_kind() == Some(PieceKind::King) {
            lemma_king_step(p, m);
        }
    }
}

/// Every character of a piece of text is plain.
pub open spec fn all_plain(s: Seq<char>) -> bool {
    forall|i: int| 0 <= i < s.len() ==> plain(#[trigger] s[i])
}

proof fn lemma_plain_concat(a: Seq<char>, b: Seq<char>)
    requires
        all_plain(a),
        all_plain(b),
    ensures
        all_plain(a + b),
{
    assert forall|i: int| 0 <= i < (a + b).len() implies plain(#[trigger] (a + b)[i]) by {
        if i < a.len() {
            assert((a + b)[i] == a[i]);
        } else {
            assert((a + b)[i] == b[i - a.len()]);
        }
    }
}

proof fn lemma_square_plain(s: int)
    requires
        valid(s),
    ensures
        all_plain(alg(s)),
        all_plain(seq![file_char(spec_file(s))]),
        all_plain(seq![rank_char(spec_rank(s))]),
        alg(s).len() == 2,
{
    lemma_chars(spec_file(s));
    lemma_chars(spec_rank(s));
    assert(alg(s) == seq![file_char(spec_file(s)), rank_char(spec_rank(s))]);
}

#[verifier::spinoff_prover]
proof fn lemma_body_plain(p: Pos, m: Move)
    requires
        p.wf(),
        ep_sane(p),
        legal(p, m),
    ensures
        all_plain(san_body(p, m)),
        san_body(p, m).len() >= 2,
{
    lemma_legal_shape(p, m);
    let from = m.from as int;
    let to = m.to as int;
    let kind = p.cells[from].spec_kind()->0;
    lemma_square_plain(from);
    lemma_square_plain(to);
    if kind == PieceKind::King && (spec_file(from) - spec_file(to) == 2 || spec_file(to) - spec_file(from) == 2) {
    } else {
        let is_ep = kind == PieceKind::Pawn && spec_file(from) != spec_file(to) && p.cells[to].spec_is_empty();
        let capture = !p.cells[to].spec_is_empty() || is_ep;
        if kind == PieceKind::Pawn {
            let pre: Seq<char> = if capture { seq![file_char(spec_file(from)), 'x'] } else { seq![] };
            let post: Seq<char> = match m.promotion {
                Some(q) => seq!['=', ascii_upper(q.spec_to_char())],
                None => seq![],
            };
            lemma_chars(spec_file(from));
            assert(all_plain(pre));
            assert(all_plain(post));
            lemma_plain_concat(pre, alg(to));
            lemma_plain_concat(pre + alg(to), post);
        } else {
            let d = disambiguation_text(p, m, kind);
            let x: Seq<char> = if capture { seq!['x'] } else { seq![] };
            let u = seq![ascii_upper(kind.spec_to_char())];
            assert(all_plain(u));
            assert(all_plain(x));
            assert(all_plain(d));
            lemma_plain_concat(u, d);
            lemma_plain_concat(u + d, x);
            lemma_plain_concat(u + d + x, alg(to));
        }
    }
}

/// The SAN of a legal move reads as its body once check marks are dropped.
proof fn lemma_normalize_san(p: Pos, m: Move)
    requires
        p.wf(),
        ep_sane(p),
        legal(p, m),
    ensures
        normalize_spec(san_text(p, m)) == san_body(p, m),
        san_body(p, m).len() >= 2,
{
    lemma_legal_shape(p, m);
    lemma_body_plain(p, m);
    lemma_san_split(p, m);
    lemma_normalize_plain(san_body(p, m), check_suffix_text(p, m));
}

/// The SAN of a legal move is not empty and does not end in whitespace.
pub proof fn lemma_san_ends_plain(p: Pos, m: Move)
    requires
        p.wf(),
        ep_sane(p),
        legal(p, m),
    ensures
        san_text(p, m).len() > 0,
        !is_ws(san_text(p, m).last()),
{
    lemma_legal_shape(p, m);
    lemma_body_plain(p, m);
    lemma_san_split(p, m);
    let body = san_body(p, m);
    let suf = check_suffix_text(p, m);
    assert(plain(body[body.len() - 1]));
    if suf.len() == 0 {
        assert(san_text(p, m).last() == body[body.len() - 1]);
    } else {
        assert(san_text(p, m).last() == suf.last());
    }
}

/// The SAN of a move on a piece is its body followed by its check mark.
proof fn lemma_san_split(p: Pos, m: Move)
    requires
        p.cells[m.from as int].spec_kind() is Some,
    ensures
        san_text(p, m) == san_body(p, m) + check_suffix_text(p, m),
        ({
            let suf = check_suffix_text(p, m);
            suf == Seq::<char>::empty() || suf == seq!['+'] || suf == seq!['#']
        }),
{
    let from = m.from as int;
    let to = m.to as int;
    let kind = p.cells[from].spec_kind()->0;
    if kind == PieceKind::King && (spec_file(from) - spec_file(to) == 2 || spec_file(to) - spec_file(from) == 2) {
        reveal_strlit("O-O");
        reveal_strlit("O-O-O");
    }
}
/// The shape of a legal pawn move: a push along its file or a capture onto
/// the next file, and whether its SAN marks a capture.
proof fn lemma_pawn_shape(p: Pos, m: Move)
    requires
        p.wf(),
        ep_sane(p),
        legal(p, m),
        p.cells[m.from as int].spec_kind() == Some(PieceKind::Pawn),
    ensures
        ({
            let from = m.from as int;
            let to = m.to as int;
            let dir = pawn_dir(p.side());
            let is_ep = spec_file(from) != spec_file(to) && p.cells[to].spec_is_empty();
            let capture = !p.cells[to].spec_is_empty() || is_ep;
            &&& capture <==> spec_file(from) != spec_file(to)
            &&& !capture ==> (to == from + dir || (to == from + 2 * dir && p.cells[from + dir].spec_is_empty()))
            &&& capture ==> (to == from + dir + 1 && spec_file(to) == spec_file(from) + 1 || to == from + dir - 1
                && spec_file(to) == spec_file(from) - 1)
            &&& (m.promotion is Some ==> promo_ok(m, to, p.side()))
        }),
{
    lemma_legal_shape(p, m);
    let c = p.side();
    let from = m.from as int;
    let to = m.to as int;
    let dir = pawn_dir(c);
    let dr: int = if c == Color::White { 1 } else { -1 };
    assert(dir == 16 * dr);
    assert(pawn_move(p, m, c));
    if to == from + dir {
        lemma_step(from, dr, 0);
    } else if to == from + 2 * dir {
        lemma_step(from, 2 * dr, 0);
    } else if to == from + dir + 1 {
        lemma_step(from, dr, 1);
    } else {
        lemma_step(from, dr, -1);
    }
}

/// Two legal pawn moves with the same SAN body are the same move.
#[verifier::spinoff_prover]
proof fn lemma_pawn_unique(p: Pos, m1: Move, m2: Move)
    requires
        p.wf(),
        ep_sane(p),
        legal(p, m1),
        legal(p, m2),
        p.cells[m1.from as int].spec_kind() == Some(PieceKind::Pawn),
        p.cells[m2.from as int].spec_kind() == Some(PieceKind::Pawn),
        san_body(p, m1) == san_body(p, m2),
    ensures
        m1 == m2,
{
    lemma_legal_shape(p, m1);
    lemma_legal_shape(p, m2);
    lemma_pawn_shape(p, m1);
    lemma_pawn_shape(p, m2);
    let c = p.side();
    let dir = pawn_dir(c);
    let f1 = m1.from as int;
    let f2 = m2.from as int;
    let t1 = m1.to as int;
    let t2 = m2.to as int;
    let cap1 = spec_file(f1) != spec_file(t1);
    let cap2 = spec_file(f2) != spec_file(t2);
    lemma_chars(spec_file(f1));
    lemma_chars(spec_file(f2));
    lemma_chars(spec_file(t1));
    lemma_chars(spec_rank(t1));
    lemma_chars(spec_file(t2));
    lemma_chars(spec_rank(t2));
    let b = san_body(p, m1);
    let pre1: Seq<char> = if cap1 { seq![file_char(spec_file(f1)), 'x'] } else { seq![] };
    let pre2: Seq<char> = if cap2 { seq![file_char(spec_file(f2)), 'x'] } else { seq![] };
    let z1: Seq<char> = match m1.promotion { Some(q) => seq!['=', ascii_upper(q.spec_to_char())], None => seq![] };
    let z2: Seq<char> = match m2.promotion { Some(q) => seq!['=', ascii_upper(q.spec_to_char())], None => seq![] };
    assert(alg(t1) == seq![file_char(spec_file(t1)), rank_char(spec_rank(t1))]);
    assert(alg(t2) == seq![file_char(spec_file(t2)), rank_char(spec_rank(t2))]);
    assert(b == pre1 + alg(t1) + z1);
    assert(b == pre2 + alg(t2) + z2);
    assert(b[1] == 'x' <==> cap1);
    assert(b[1] == 'x' <==> cap2);
    let n: int = pre1.len() as int;
    assert(b.subrange(n, n + 2) == alg(t1));
    assert(b.subrange(n, n + 2) == alg(t2));
    lemma_alg_inj(t1, t2);
    assert(b.subrange(n + 2, b.len() as int) == z1);
    assert(b.subrange(n + 2, b.len() as int) == z2);
    assert(m1.promotion == m2.promotion) by {
        if let Some(q1) = m1.promotion {
            if let Some(q2) = m2.promotion {
                assert(is_promo_piece(q1, c) && is_promo_piece(q2, c));
                assert(z1[1] == z2[1]);
            } else {
                assert(z2.len() == 0);
            }
        } else {
            if m2.promotion is Some {
                assert(z1.len() == 0);
            }
        }
    }
    if cap1 {
        assert(b[0] == file_char(spec_file(f1)) && b[0] == file_char(spec_file(f2)));
        assert(spec_file(f1) == spec_file(f2));
    } else {
        if f1 != f2 {
            if t1 == f1 + dir {
                assert(t2 == f2 + 2 * dir && p.cells[f2 + dir].spec_is_empty());
                assert(f2 + dir == f1);
            } else {
                assert(t2 == f2 + dir);
                assert(f1 + dir == f2);
            }
        }
    }
}

/// Two legal moves of pieces of one kind to one square, with the same
/// disambiguation, leave from the same square.
proof fn lemma_disambiguation_unique(p: Pos, m1: Move, m2: Move, k: PieceKind)
    requires
        p.wf(),
        ep_sane(p),
        legal(p, m1),
        legal(p, m2),
        p.cells[m1.from as int].spec_kind() == Some(k),
        p.cells[m2.from as int].spec_kind() == Some(k),
        m1.to == m2.to,
        disambiguation_text(p, m1, k) == disambiguation_text(p, m2, k),
    ensures
        m1.from == m2.from,
{
    lemma_legal_shape(p, m1);
    lemma_legal_shape(p, m2);
    let f1 = m1.from as int;
    let f2 = m2.from as int;
    if f1 != f2 {
        assert(rival(p, m1, m2, k));
        assert(rival(p, m2, m1, k));
        lemma_chars(spec_file(f1));
        lemma_chars(spec_rank(f1));
        lemma_chars(spec_file(f2));
        lemma_chars(spec_rank(f2));
        let d1 = disambiguation_text(p, m1, k);
        let d2 = disambiguation_text(p, m2, k);
        if !(exists|o: Move| rival(p, m1, o, k) && spec_file(o.from as int) == spec_file(f1)) {
            assert(d1 == seq![file_char(spec_file(f1))]);
            assert(spec_file(f2) != spec_file(f1));
            assert(d2 == seq![file_char(spec_file(f2))] || d2 == seq![rank_char(spec_rank(f2))] || d2.len() == 2);
            assert(d2[0] == d1[0]);
        } else if !(exists|o: Move| rival(p, m1, o, k) && spec_rank(o.from as int) == spec_rank(f1)) {
            assert(d1 == seq![rank_char(spec_rank(f1))]);
            assert(spec_rank(f2) != spec_rank(f1));
            assert(d2 == seq![file_char(spec_file(f2))] || d2 == seq![rank_char(spec_rank(f2))] || d2.len() == 2);
            assert(d2[0] == d1[0]);
        } else {
            assert(d1 == alg(f1));
            assert(d1.len() == 2);
            assert(d2 == alg(f2)) by {
                assert(d2 == seq![file_char(spec_file(f2))] || d2 == seq![rank_char(spec_rank(f2))] || d2 == alg(f2));
            }
            lemma_alg_inj(f1, f2);
        }
    }
}

/// The letter naming a piece kind other than the pawn.
proof fn lemma_kind_letter(k: PieceKind)
    requires
        k != PieceKind::Pawn,
    ensures
        ascii_upper(k.spec_to_char()) == 'N' || ascii_upper(k.spec_to_char()) == 'B' || ascii_upper(k.spec_to_char()) == 'R'
            || ascii_upper(k.spec_to_char()) == 'Q' || ascii_upper(k.spec_to_char()) == 'K',
        forall|k2: PieceKind| k2 != PieceKind::Pawn && #[trigger] ascii_upper(k2.spec_to_char()) == ascii_upper(k.spec_to_char()) ==> k2 == k,
{
}

/// Two legal piece moves (not pawns, not castling) with the same SAN body
/// are the same move.
#[verifier::spinoff_prover]
proof fn lemma_piece_unique(p: Pos, m1: Move, m2: Move)
    requires
        p.wf(),
        ep_sane(p),
        legal(p, m1),
        legal(p, m2),
        p.cells[m1.from as int].spec_kind() != Some(PieceKind::Pawn),
        p.cells[m2.from as int].spec_kind() != Some(PieceKind::Pawn),
        !castle_move(p, m1),
        !castle_move(p, m2),
        san_body(p, m1) == san_body(p, m2),
    ensures
        m1 == m2,
{
    lemma_legal_shape(p, m1);
    lemma_legal_shape(p, m2);
    let f1 = m1.from as int;
    let f2 = m2.from as int;
    let t1 = m1.to as int;
    let t2 = m2.to as int;
    let k1 = p.cells[f1].spec_kind()->0;
    let k2 = p.cells[f2].spec_kind()->0;
    lemma_kind_letter(k1);
    lemma_kind_letter(k2);
    lemma_chars(spec_file(t1));
    lemma_chars(spec_rank(t1));
    lemma_chars(spec_file(t2));
    lemma_chars(spec_rank(t2));
    lemma_chars(spec_file(f1));
    lemma_chars(spec_rank(f1));
    lemma_chars(spec_file(f2));
    lemma_chars(spec_rank(f2));
    let b = san_body(p, m1);
    let d1 = disambiguation_text(p, m1, k1);
    let d2 = disambiguation_text(p, m2, k2);
    let x1: Seq<char> = if !p.cells[t1].spec_is_empty() { seq!['x'] } else { seq![] };
    let x2: Seq<char> = if !p.cells[t2].spec_is_empty() { seq!['x'] } else { seq![] };
    let u1 = seq![ascii_upper(k1.spec_to_char())];
    let u2 = seq![ascii_upper(k2.spec_to_char())];
    assert(b == u1 + d1 + x1 + alg(t1));
    assert(b == u2 + d2 + x2 + alg(t2));
    assert(b[0] == u1[0] && b[0] == u2[0]);
    assert(k1 == k2);
    assert(d1 == Seq::<char>::empty() || d1 == seq![file_char(spec_file(f1))] || d1 == seq![rank_char(spec_rank(f1))] || d1 == alg(f1));
    assert(d2 == Seq::<char>::empty() || d2 == seq![file_char(spec_file(f2))] || d2 == seq![rank_char(spec_rank(f2))] || d2 == alg(f2));
    assert(alg(f1) == seq![file_char(spec_file(f1)), rank_char(spec_rank(f1))]);
    assert(alg(f2) == seq![file_char(spec_file(f2)), rank_char(spec_rank(f2))]);
    assert(alg(t1) == seq![file_char(spec_file(t1)), rank_char(spec_rank(t1))]);
    assert(alg(t2) == seq![file_char(spec_file(t2)), rank_char(spec_rank(t2))]);
    let n = b.len() as int;
    assert(b.subrange(n - 2, n) == alg(t1));
    assert(b.subrange(n - 2, n) == alg(t2));
    lemma_alg_inj(t1, t2);
    assert(x1 == x2) by {
        if x1.len() > 0 {
            assert(b[n - 3] == 'x');
        } else {
            assert(b[n - 3] != 'x');
        }
    }
    assert(d1.len() == d2.len());
    assert(b.subrange(1, 1 + d1.len() as int) == d1);
    assert(b.subrange(1, 1 + d2.len() as int) == d2);
    lemma_disambiguation_unique(p, m1, m2, k1);
}

/// Two legal castling moves with the same SAN body are the same move.
proof fn lemma_castle_unique(p: Pos, m1: Move, m2: Move)
    requires
        p.wf(),
        ep_sane(p),
        legal(p, m1),
        legal(p, m2),
        castle_move(p, m1),
        castle_move(p, m2),
        san_body(p, m1) == san_body(p, m2),
    ensures
        m1 == m2,
{
    lemma_legal_shape(p, m1);
    lemma_legal_shape(p, m2);
    let r = home_rank(p.side());
    let g = spec_make(r, 6);
    let cq = spec_make(r, 2);
    assert(spec_file(g) == 6);
    assert(spec_file(cq) == 2);
    assert(m1.from == m2.from);
    let b1 = san_body(p, m1);
    let b2 = san_body(p, m2);
    assert(b1.len() == 3 <==> m1.to as int == g);
    assert(b2.len() == 3 <==> m2.to as int == g);
    assert(m1.to == m2.to);
    assert(m1.promotion is None && m2.promotion is None);
}

/// The first character of a SAN body tells castling, pawn moves and piece
/// moves apart, and names the piece kind.
#[verifier::spinoff_prover]
proof fn lemma_first_char(p: Pos, m: Move)
    requires
        p.wf(),
        ep_sane(p),
        legal(p, m),
    ensures
        ({
            let b = san_body(p, m);
            let k = p.cells[m.from as int].spec_kind()->0;
            &&& b.len() >= 2
            &&& castle_move(p, m) ==> b[0] == 'O'
            &&& !castle_move(p, m) && k == PieceKind::Pawn ==> 'a' <= b[0] <= 'h'
            &&& !castle_move(p, m) && k != PieceKind::Pawn ==> b[0] == ascii_upper(k.spec_to_char()) && (b[0] == 'N'
                || b[0] == 'B' || b[0] == 'R' || b[0] == 'Q' || b[0] == 'K')
        }),
{
    lemma_legal_shape(p, m);
    lemma_body_plain(p, m);
    let f = m.from as int;
    let k = p.cells[f].spec_kind()->0;
    lemma_chars(spec_file(f));
    lemma_chars(spec_file(m.to as int));
    lemma_chars(spec_rank(m.to as int));
    assert(alg(m.to as int) == seq![file_char(spec_file(m.to as int)), rank_char(spec_rank(m.to as int))]);
    if k != PieceKind::Pawn {
        lemma_kind_letter(k);
    }
}

/// Two legal moves of a position never share a SAN: the SAN of a legal
/// move, read back in the same position, names that move.
pub proof fn lemma_san_unique(p: Pos, m1: Move, m2: Move)
    requires
        p.wf(),
        ep_sane(p),
        legal(p, m1),
        legal(p, m2),
        normalize_spec(san_text(p, m1)) == normalize_spec(san_text(p, m2)),
    ensures
        m1 == m2,
{
    lemma_normalize_san(p, m1);
    lemma_normalize_san(p, m2);
    lemma_first_char(p, m1);
    lemma_first_char(p, m2);
    lemma_legal_shape(p, m1);
    lemma_legal_shape(p, m2);
    let k1 = p.cells[m1.from as int].spec_kind()->0;
    let k2 = p.cells[m2.from as int].spec_kind()->0;
    if castle_move(p, m1) && castle_move(p, m2) {
        lemma_castle_unique(p, m1, m2);
    } else if !castle_move(p, m1) && !castle_move(p, m2) && k1 == PieceKind::Pawn && k2 == PieceKind::Pawn {
        lemma_pawn_unique(p, m1, m2);
    } else if !castle_move(p, m1) && !castle_move(p, m2) && k1 != PieceKind::Pawn && k2 != PieceKind::Pawn {
        lemma_legal_shape(p, m1);
        lemma_legal_shape(p, m2);
        lemma_piece_unique(p, m1, m2);
    }
}

/// Reading back the SAN of a legal move gives that move: any answer that
/// meets what `san_to_move` promises for that text is `Some` of the move.
pub proof fn lemma_san_reads_back(p: Pos, m: Move, r: Option<Move>)
    requires
        p.wf(),
        ep_sane(p),
        legal(p, m),
        match r {
            Some(m2) => legal(p, m2) && normalize_spec(san_text(p, m2)) == normalize_spec(san_text(p, m))
                && normalize_spec(san_text(p, m)).len() > 0,
            None => normalize_spec(san_text(p, m)).len() == 0 || !exists|o: Move| legal(p, o)
                && normalize_spec(san_text(p, o)) == normalize_spec(san_text(p, m)),
        },
    ensures
        r == Some(m),
{
    lemma_normalize_san(p, m);
    match r {
        Some(m2) => {
            lemma_san_unique(p, m2, m);
        },
        None => {
            assert(legal(p, m) && normalize_spec(san_text(p, m)) == normalize_spec(san_text(p, m)));
        },
    }
}

} // verus!
