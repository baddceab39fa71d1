//! Move generation.
//!
//! [`gen_pseudo`] enumerates the pseudo-legal moves (legal except that they
//! may leave the mover's king in check); [`legal_moves`] keeps those after
//! which the mover's king is not attacked, found by making and unmaking each
//! move. Castling is generated with its full legality (rights, empty path,
//! rook present, king not in, through, or into check).

pub mod named;


use crate::attacks::{
    attacked, bishop_d, bishop_delta, in_check, in_check_spec, is_square_attacked, king_d,
    king_delta, knight_d, knight_delta, rook_d, rook_delta,
};
use crate::board::{lemma_after_wf, Board, Pos};
use crate::moves::{Move, MoveList};
use crate::types::square::{self, idx_of, sq_at, spec_file, spec_rank, valid};
use crate::types::{Color, Piece, PieceKind, Sq, CASTLE_BK, CASTLE_BQ, CASTLE_WK, CASTLE_WQ};
use vstd::prelude::*;

verus! {

/// `t` is empty or holds a piece of the opponent of `c`.
pub open spec fn target_ok(cells: Seq<Piece>, t: int, c: Color) -> bool {
    cells[t].spec_is_empty() || cells[t].spec_is_color(c.spec_flip())
}

/// Walking from `pos` in steps of `d` over empty squares, the walk reaches
/// `t`, and `t` is empty or an enemy of `c`.
pub open spec fn reach(cells: Seq<Piece>, pos: int, d: int, t: int, c: Color) -> bool
    decreases (if d > 0 {
        128 - pos
    } else {
        pos
    }),
{
    if d == 0 || !valid(pos) {
        false
    } else if pos == t {
        target_ok(cells, t, c)
    } else if !cells[pos].spec_is_empty() {
        false
    } else if 0 <= pos + d < 128 {
        reach(cells, pos + d, d, t, c)
    } else {
        false
    }
}

/// A knight/king step from `from` by `d` onto `t`.
pub open spec fn leap(cells: Seq<Piece>, from: int, d: int, t: int, c: Color) -> bool {
    t == from + d && valid(t) && target_ok(cells, t, c)
}

/// The four promotion pieces of color `c`.
pub open spec fn is_promo_piece(p: Piece, c: Color) -> bool {
    p == Piece::spec_make(c, PieceKind::Queen) || p == Piece::spec_make(c, PieceKind::Rook) || p
        == Piece::spec_make(c, PieceKind::Bishop) || p == Piece::spec_make(c, PieceKind::Knight)
}

pub open spec fn pawn_dir(c: Color) -> int {
    match c {
        Color::White => 16,
        Color::Black => -16,
    }
}

pub open spec fn pawn_start_rank(c: Color) -> int {
    match c {
        Color::White => 1,
        Color::Black => 6,
    }
}

pub open spec fn promo_rank(c: Color) -> int {
    match c {
        Color::White => 7,
        Color::Black => 0,
    }
}

/// The promotion part of a pawn move to `t`: one of the four pieces on the
/// last rank, none elsewhere.
pub open spec fn promo_ok(m: Move, t: int, c: Color) -> bool {
    if spec_rank(t) == promo_rank(c) {
        (m.promotion matches Some(q) && is_promo_piece(q, c))
    } else {
        m.promotion is None
    }
}

/// A pseudo-legal pawn move of color `c` from `m.from`.
pub open spec fn pawn_move(p: Pos, m: Move, c: Color) -> bool {
    let from = m.from as int;
    let t = m.to as int;
    let dir = pawn_dir(c);
    ||| (t == from + dir && valid(t) && p.cells[t].spec_is_empty() && promo_ok(m, t, c))
    ||| (t == from + 2 * dir && spec_rank(from) == pawn_start_rank(c) && valid(from + dir) && p.cells[from
        + dir].spec_is_empty() && valid(t) && p.cells[t].spec_is_empty() && m.promotion is None)
    ||| ((t == from + dir + 1 || t == from + dir - 1) && valid(t) && p.cells[t].spec_is_color(
        c.spec_flip(),
    ) && promo_ok(m, t, c))
    ||| ((t == from + dir + 1 || t == from + dir - 1) && valid(t) && !p.cells[t].spec_is_color(
        c.spec_flip(),
    ) && p.ep == Some(m.to) && m.promotion is None)
}

/// A pseudo-legal non-castling move for the side to move.
pub open spec fn piece_move(p: Pos, m: Move) -> bool {
    let c = p.side();
    let from = m.from as int;
    let t = m.to as int;
    let pc = p.cells[from];
    &&& valid(from)
    &&& pc.spec_is_color(c)
    &&& match pc.spec_kind() {
        Some(PieceKind::Pawn) => pawn_move(p, m, c),
        Some(PieceKind::Knight) => m.promotion is None && exists|i: int|
            0 <= i < 8 && leap(p.cells, from, #[trigger] knight_d(i), t, c),
        Some(PieceKind::King) => m.promotion is None && exists|i: int|
            0 <= i < 8 && leap(p.cells, from, #[trigger] king_d(i), t, c),
        Some(PieceKind::Bishop) => m.promotion is None && exists|i: int|
            0 <= i < 4 && reach(p.cells, from + bishop_d(i), #[trigger] bishop_d(i), t, c),
        Some(PieceKind::Rook) => m.promotion is None && exists|i: int|
            0 <= i < 4 && reach(p.cells, from + rook_d(i), #[trigger] rook_d(i), t, c),
        Some(PieceKind::Queen) => m.promotion is None && ((exists|i: int|
            0 <= i < 4 && reach(p.cells, from + rook_d(i), #[trigger] rook_d(i), t, c)) || (exists|i: int|
            0 <= i < 4 && reach(p.cells, from + bishop_d(i), #[trigger] bishop_d(i), t, c))),
        None => false,
    }
}

pub open spec fn home_rank(c: Color) -> int {
    match c {
        Color::White => 0,
        Color::Black => 7,
    }
}

pub open spec fn kingside_right(c: Color) -> u8 {
    match c {
        Color::White => CASTLE_WK,
        Color::Black => CASTLE_BK,
    }
}

pub open spec fn queenside_right(c: Color) -> u8 {
    match c {
        Color::White => CASTLE_WQ,
        Color::Black => CASTLE_BQ,
    }
}

/// A legal castling move for the side to move: the king on its home square,
/// not in check; the right held; the squares between king and rook empty;
/// the rook home; the squares the king crosses and lands on not attacked.
pub open spec fn castle_move(p: Pos, m: Move) -> bool {
    let c = p.side();
    let e = c.spec_flip();
    let r = home_rank(c);
    let k = square::spec_make(r, 4);
    let rook = Piece::spec_make(c, PieceKind::Rook);
    &&& m.from == k
    &&& m.promotion is None
    &&& p.cells[k] == Piece::spec_make(c, PieceKind::King)
    &&& !attacked(p.cells, k, e)
    &&& (m.to == square::spec_make(r, 6) && p.castling & kingside_right(c) != 0
        && p.cells[square::spec_make(r, 5)].spec_is_empty()
        && p.cells[square::spec_make(r, 6)].spec_is_empty()
        && p.cells[square::spec_make(r, 7)] == rook
        && !attacked(p.cells, square::spec_make(r, 5), e)
        && !attacked(p.cells, square::spec_make(r, 6), e)
    || m.to == square::spec_make(r, 2) && p.castling & queenside_right(c) != 0
        && p.cells[square::spec_make(r, 1)].spec_is_empty()
        && p.cells[square::spec_make(r, 2)].spec_is_empty()
        && p.cells[square::spec_make(r, 3)].spec_is_empty()
        && p.cells[square::spec_make(r, 0)] == rook
        && !attacked(p.cells, square::spec_make(r, 2), e)
        && !attacked(p.cells, square::spec_make(r, 3), e))
}

/// A pseudo-legal move: legal by the movement rules, possibly leaving the
/// mover's own king in check.
pub open spec fn pseudo(p: Pos, m: Move) -> bool {
    piece_move(p, m) || castle_move(p, m)
}

/// A legal move: pseudo-legal, and the mover's king is not attacked after it.
#[verifier::opaque]
pub open spec fn legal(p: Pos, m: Move) -> bool {
    pseudo(p, m) && !in_check_spec(p.after(m), p.side())
}

/// The en-passant target, if any, is an empty square (as it always is in a
/// position reached by play).
pub open spec fn ep_sane(p: Pos) -> bool {
    p.ep matches Some(e) ==> p.cells[e as int].spec_is_empty()
}

/// A capture (including en passant) or a promotion.
pub open spec fn loud(p: Pos, m: Move) -> bool {
    !p.cells[m.to as int].spec_is_empty() || m.promotion is Some || p.is_ep_capture(m)
}

proof fn lemma_push_contains<T>(s: Seq<T>, x: T, y: T)
    ensures
        s.push(x).contains(y) <==> s.contains(y) || y == x,
{
    if s.contains(y) {
        let i = choose|i: int| 0 <= i < s.len() && s[i] == y;
        assert(s.push(x)[i] == y);
    }
    if y == x {
        assert(s.push(x)[s.len() as int] == y);
    }
    if s.push(x).contains(y) {
        let i = choose|i: int| 0 <= i < s.push(x).len() && s.push(x)[i] == y;
        if i < s.len() {
            assert(s[i] == y);
        }
    }
}


/// The leaper delta `i` (knight or king).
pub open spec fn leaper_d(knight: bool, i: int) -> int {
    if knight {
        knight_d(i)
    } else {
        king_d(i)
    }
}

/// The slider delta `i` (bishop or rook).
pub open spec fn slider_d(bishop: bool, i: int) -> int {
    if bishop {
        bishop_d(i)
    } else {
        rook_d(i)
    }
}

/// Appending a new element keeps a sequence free of duplicates.
proof fn lemma_push_no_dup(s: Seq<Move>, x: Move)
    requires
        s.no_duplicates(),
        !s.contains(x),
    ensures
        s.push(x).no_duplicates(),
{
    let t = s.push(x);
    assert forall|i: int, j: int| 0 <= i < t.len() && 0 <= j < t.len() && i != j implies t[i] != t[j] by {
        if i < s.len() && j < s.len() {
        } else if i == s.len() {
            assert(t[j] == s[j]);
        } else {
            assert(t[i] == s[i]);
        }
    }
}

/// The eight leaper deltas are pairwise different.
proof fn lemma_leaper_distinct(knight: bool, i: int, j: int)
    requires
        0 <= i < 8,
        0 <= j < 8,
        leaper_d(knight, i) == leaper_d(knight, j),
    ensures
        i == j,
{
}

/// Appends the knight (or king) steps from `s` onto empty or enemy squares.
fn gen_leaper(cells: &[Piece; 128], s: Sq, color: Color, knight: bool, out: &mut MoveList)
    requires
        valid(s as int),
    ensures
        forall|m: Move|
            final(out)@.contains(m) <==> old(out)@.contains(m) || (m.from == s && m.promotion is None
                && exists|i: int| 0 <= i < 8 && leap(cells@, s as int, #[trigger] leaper_d(knight, i), m.to as int, color)),
        old(out)@.no_duplicates() && (forall|m: Move| #[trigger] old(out)@.contains(m) ==> m.from != s)
            ==> final(out)@.no_duplicates(),
{
    let si = s as i32;
    let mut i: usize = 0;
    while i < 8
        invariant
            valid(s as int),
            si == s as int,
            i <= 8,
            forall|m: Move|
                out@.contains(m) <==> old(out)@.contains(m) || (m.from == s && m.promotion is None
                    && exists|j: int| 0 <= j < i && leap(cells@, s as int, #[trigger] leaper_d(knight, j), m.to as int, color)),
            old(out)@.no_duplicates() && (forall|m: Move| #[trigger] old(out)@.contains(m) ==> m.from != s)
                ==> out@.no_duplicates(),
        decreases 8 - i,
    {
        let d = if knight {
            knight_delta(i)
        } else {
            king_delta(i)
        };
        let cand = si + d;
        let ghost o = out@;
        if square::on_board_i32(cand) {
            let target = cells[cand as usize];
            if target.is_empty() || target.is_color(color.flip()) {
                proof {
                    let nm = Move { from: s, to: cand as usize, promotion: None };
                    if old(out)@.no_duplicates() && (forall|m: Move| #[trigger] old(out)@.contains(m) ==> m.from != s) {
                        if o.contains(nm) {
                            assert(!old(out)@.contains(nm));
                            let j = choose|j: int| 0 <= j < i && leap(cells@, s as int, #[trigger] leaper_d(knight, j), cand as int, color);
                            lemma_leaper_distinct(knight, i as int, j);
                        }
                        lemma_push_no_dup(o, nm);
                    }
                }
                out.push(Move::new(s, cand as usize));
            }
        }
        proof {
            assert forall|m: Move| out@.contains(m) <==> old(out)@.contains(m) || (m.from == s
                && m.promotion is None && exists|j: int| 0 <= j < i + 1 && leap(cells@, s as int, #[trigger] leaper_d(knight, j), m.to as int, color)) by {
                lemma_push_contains(o, Move { from: s, to: cand as usize, promotion: None }, m);
                if m.from == s && m.promotion is None && leap(cells@, s as int, leaper_d(knight, i as int), m.to as int, color) {
                    assert(m == Move { from: s, to: cand as usize, promotion: None });
                }
                if exists|j: int| 0 <= j < i + 1 && leap(cells@, s as int, #[trigger] leaper_d(knight, j), m.to as int, color) {
                    let j = choose|j: int| 0 <= j < i + 1 && leap(cells@, s as int, #[trigger] leaper_d(knight, j), m.to as int, color);
                    if j < i {
                        assert(exists|j: int| 0 <= j < i && leap(cells@, s as int, #[trigger] leaper_d(knight, j), m.to as int, color));
                    }
                }
                if out@.contains(m) && !o.contains(m) {
                    assert(leap(cells@, s as int, leaper_d(knight, i as int), m.to as int, color));
                }
            }
        }
        i = i + 1;
    }
}


/// `k` times the sign `u`.
pub open spec fn scaled(k: int, u: int) -> int {
    if u > 0 {
        k
    } else if u < 0 {
        -k
    } else {
        0
    }
}

/// The rank step of a king delta.
pub open spec fn rank_step(d: int) -> int {
    if d == 16 || d == 17 || d == 15 {
        1
    } else if d == -16 || d == -17 || d == -15 {
        -1
    } else {
        0
    }
}

/// The file step of a king delta.
pub open spec fn file_step(d: int) -> int {
    if d == 1 || d == 17 || d == -15 {
        1
    } else if d == -1 || d == -17 || d == 15 {
        -1
    } else {
        0
    }
}

/// One of the eight king deltas.
pub open spec fn king_delta_ok(d: int) -> bool {
    d == 16 || d == -16 || d == 1 || d == -1 || d == 17 || d == -17 || d == 15 || d == -15
}

/// `t` lies `k` steps from `s` in the direction of `d`, by rank and file.
pub open spec fn along(s: int, d: int, t: int, k: int) -> bool {
    &&& spec_rank(t) == spec_rank(s) + scaled(k, rank_step(d))
    &&& spec_file(t) == spec_file(s) + scaled(k, file_step(d))
}

/// A walk from `s` in the direction of `d` only reaches squares on that ray.
proof fn lemma_reach_along(cells: Seq<Piece>, s: int, d: int, pos: int, t: int, c: Color, k: int) -> (kk: int)
    requires
        king_delta_ok(d),
        k >= 1,
        along(s, d, pos, k),
        reach(cells, pos, d, t, c),
    ensures
        kk >= 1,
        along(s, d, t, kk),
    decreases (if d > 0 {
        128 - pos
    } else {
        pos
    }),
{
    if pos == t {
        k
    } else {
        assert(valid(pos));
        assert(reach(cells, pos + d, d, t, c));
        assert(valid(pos + d));
        lemma_file_step(pos, d);
        lemma_reach_along(cells, s, d, pos + d, t, c, k + 1)
    }
}

/// Two different rays from one square meet nowhere else.
proof fn lemma_rays_apart(s: int, d1: int, d2: int, t: int, k1: int, k2: int)
    requires
        king_delta_ok(d1),
        king_delta_ok(d2),
        k1 >= 1,
        k2 >= 1,
        along(s, d1, t, k1),
        along(s, d2, t, k2),
    ensures
        d1 == d2,
{
}

/// Walks from `s` in two different directions reach different squares.
proof fn lemma_walks_apart(cells: Seq<Piece>, s: int, d1: int, d2: int, t: int, c: Color)
    requires
        valid(s),
        king_delta_ok(d1),
        king_delta_ok(d2),
        reach(cells, s + d1, d1, t, c),
        reach(cells, s + d2, d2, t, c),
    ensures
        d1 == d2,
{
    lemma_file_step(s, d1);
    lemma_file_step(s, d2);
    let k1 = lemma_reach_along(cells, s, d1, s + d1, t, c, 1);
    let k2 = lemma_reach_along(cells, s, d2, s + d2, t, c, 1);
    lemma_rays_apart(s, d1, d2, t, k1, k2);
}

/// A walk only reaches squares at or beyond its start.
proof fn lemma_reach_ahead(cells: Seq<Piece>, pos: int, d: int, t: int, c: Color)
    requires
        reach(cells, pos, d, t, c),
    ensures
        d > 0 ==> t >= pos,
        d < 0 ==> t <= pos,
    decreases (if d > 0 {
        128 - pos
    } else {
        pos
    }),
{
    if pos != t {
        lemma_reach_ahead(cells, pos + d, d, t, c);
    }
}

/// Appends the moves from `s` walking in steps of `d` over empty squares,
/// including a capture of the first enemy piece met.
fn walk(cells: &[Piece; 128], s: Sq, color: Color, d: i32, out: &mut MoveList)
    requires
        valid(s as int),
        d == 16 || d == -16 || d == 1 || d == -1 || d == 17 || d == -17 || d == 15 || d == -15,
    ensures
        forall|m: Move|
            final(out)@.contains(m) <==> old(out)@.contains(m) || (m.from == s && m.promotion is None
                && reach(cells@, s + d, d as int, m.to as int, color)),
        old(out)@.no_duplicates() && (forall|m: Move| #[trigger] old(out)@.contains(m) && m.from == s && m.promotion is None
            ==> !reach(cells@, s + d, d as int, m.to as int, color)) ==> final(out)@.no_duplicates(),
{
    let si = s as i32;
    let mut cand = si + d;
    let ghost start = s + d;
    while square::on_board_i32(cand)
        invariant
            valid(s as int),
            si == s as int,
            start == s + d,
            d == 16 || d == -16 || d == 1 || d == -1 || d == 17 || d == -17 || d == 15 || d == -15,
            -40 <= cand < 160,
            d > 0 ==> cand >= start,
            d < 0 ==> cand <= start,
            forall|t: int| reach(cells@, cand as int, d as int, t, color) ==> reach(cells@, start, d as int, t, color),
            forall|m: Move|
                out@.contains(m) <==> old(out)@.contains(m) || (m.from == s && m.promotion is None
                    && reach(cells@, start, d as int, m.to as int, color) && !reach(cells@, cand as int, d as int, m.to as int, color)),
            old(out)@.no_duplicates() && (forall|m: Move| #[trigger] old(out)@.contains(m) && m.from == s && m.promotion is None
                ==> !reach(cells@, start, d as int, m.to as int, color)) ==> out@.no_duplicates(),
        decreases (if d > 0 {
            160 - cand
        } else {
            cand + 40
        }),
    {
        let target = cells[cand as usize];
        let ghost o = out@;
        let nm = Move::new(s, cand as usize);
        proof {
            if old(out)@.no_duplicates() && (forall|m: Move| #[trigger] old(out)@.contains(m) && m.from == s && m.promotion is None
                ==> !reach(cells@, start, d as int, m.to as int, color)) && (target.spec_is_empty() || target.spec_is_color(color.spec_flip())) {
                assert(reach(cells@, cand as int, d as int, cand as int, color));
                assert(reach(cells@, start, d as int, cand as int, color));
                assert(!o.contains(nm));
                lemma_push_no_dup(o, nm);
            }
        }
        if target.is_empty() {
            out.push(nm);
            proof {
                assert forall|t: int| reach(cells@, cand as int, d as int, t, color) <==> t == cand || reach(cells@, cand + d, d as int, t, color) by {
                    if reach(cells@, cand + d, d as int, t, color) {
                        lemma_reach_ahead(cells@, cand + d, d as int, t, color);
                    }
                }
                assert forall|m: Move| out@.contains(m) <==> old(out)@.contains(m) || (m.from == s && m.promotion is None
                    && reach(cells@, start, d as int, m.to as int, color) && !reach(cells@, cand + d, d as int, m.to as int, color)) by {
                    lemma_push_contains(o, nm, m);
                    if reach(cells@, cand + d, d as int, m.to as int, color) {
                        lemma_reach_ahead(cells@, cand + d, d as int, m.to as int, color);
                    }
                }
            }
            cand = cand + d;
        } else {
            if target.is_color(color.flip()) {
                out.push(nm);
            }
            proof {
                assert forall|m: Move| out@.contains(m) <==> old(out)@.contains(m) || (m.from == s && m.promotion is None
                    && reach(cells@, start, d as int, m.to as int, color)) by {
                    lemma_push_contains(o, nm, m);
                }
            }
            return;
        }
    }
}

/// Appends the bishop (or rook) moves from `s`.
fn gen_slider(cells: &[Piece; 128], s: Sq, color: Color, bishop: bool, out: &mut MoveList)
    requires
        valid(s as int),
    ensures
        forall|m: Move|
            final(out)@.contains(m) <==> old(out)@.contains(m) || (m.from == s && m.promotion is None
                && exists|i: int| 0 <= i < 4 && reach(cells@, s + slider_d(bishop, i), #[trigger] slider_d(bishop, i), m.to as int, color)),
        old(out)@.no_duplicates() && (forall|m: Move| #[trigger] old(out)@.contains(m) && m.from == s && m.promotion is None
            ==> !exists|i: int| 0 <= i < 4 && reach(cells@, s + slider_d(bishop, i), #[trigger] slider_d(bishop, i), m.to as int, color))
            ==> final(out)@.no_duplicates(),
{
    let mut i: usize = 0;
    while i < 4
        invariant
            valid(s as int),
            i <= 4,
            forall|m: Move|
                out@.contains(m) <==> old(out)@.contains(m) || (m.from == s && m.promotion is None
                    && exists|j: int| 0 <= j < i && reach(cells@, s + slider_d(bishop, j), #[trigger] slider_d(bishop, j), m.to as int, color)),
            old(out)@.no_duplicates() && (forall|m: Move| #[trigger] old(out)@.contains(m) && m.from == s && m.promotion is None
                ==> !exists|i: int| 0 <= i < 4 && reach(cells@, s + slider_d(bishop, i), #[trigger] slider_d(bishop, i), m.to as int, color))
                ==> out@.no_duplicates(),
        decreases 4 - i,
    {
        let d = if bishop {
            bishop_delta(i)
        } else {
            rook_delta(i)
        };
        let ghost o = out@;
        proof {
            if old(out)@.no_duplicates() && (forall|m: Move| #[trigger] old(out)@.contains(m) && m.from == s && m.promotion is None
                ==> !exists|i: int| 0 <= i < 4 && reach(cells@, s + slider_d(bishop, i), #[trigger] slider_d(bishop, i), m.to as int, color)) {
                assert forall|m: Move| #[trigger] o.contains(m) && m.from == s && m.promotion is None
                    implies !reach(cells@, s + d, d as int, m.to as int, color) by {
                    if reach(cells@, s + d, d as int, m.to as int, color) {
                        assert(slider_d(bishop, i as int) == d);
                        if old(out)@.contains(m) {
                            assert(exists|i: int| 0 <= i < 4 && reach(cells@, s + slider_d(bishop, i), #[trigger] slider_d(bishop, i), m.to as int, color));
                        } else {
                            let j = choose|j: int| 0 <= j < i && reach(cells@, s + slider_d(bishop, j), #[trigger] slider_d(bishop, j), m.to as int, color);
                            lemma_walks_apart(cells@, s as int, slider_d(bishop, j), d as int, m.to as int, color);
                        }
                    }
                }
            }
        }
        walk(cells, s, color, d, out);
        proof {
            assert forall|m: Move| out@.contains(m) <==> old(out)@.contains(m) || (m.from == s && m.promotion is None
                && exists|j: int| 0 <= j < i + 1 && reach(cells@, s + slider_d(bishop, j), #[trigger] slider_d(bishop, j), m.to as int, color)) by {
                if exists|j: int| 0 <= j < i + 1 && reach(cells@, s + slider_d(bishop, j), #[trigger] slider_d(bishop, j), m.to as int, color) {
                    let j = choose|j: int| 0 <= j < i + 1 && reach(cells@, s + slider_d(bishop, j), #[trigger] slider_d(bishop, j), m.to as int, color);
                    if j < i {
                        assert(exists|j: int| 0 <= j < i && reach(cells@, s + slider_d(bishop, j), #[trigger] slider_d(bishop, j), m.to as int, color));
                    }
                }
                if out@.contains(m) && !o.contains(m) {
                    assert(reach(cells@, s + slider_d(bishop, i as int), slider_d(bishop, i as int), m.to as int, color));
                }
            }
        }
        i = i + 1;
    }
}


/// Appends the four promotions of a pawn move from `from` to `to`.
fn push_promotions(from: Sq, to: Sq, color: Color, out: &mut MoveList)
    ensures
        forall|m: Move|
            final(out)@.contains(m) <==> old(out)@.contains(m) || (m.from == from && m.to == to
                && (m.promotion matches Some(q) && is_promo_piece(q, color))),
        old(out)@.no_duplicates() && (forall|m: Move| #[trigger] old(out)@.contains(m) ==> !(m.from == from && m.to == to))
            ==> final(out)@.no_duplicates(),
{
    let ghost o0 = out@;
    let q = Move::promo(from, to, Piece::make(color, PieceKind::Queen));
    out.push(q);
    let ghost o1 = out@;
    let r = Move::promo(from, to, Piece::make(color, PieceKind::Rook));
    out.push(r);
    let ghost o2 = out@;
    let b = Move::promo(from, to, Piece::make(color, PieceKind::Bishop));
    out.push(b);
    let ghost o3 = out@;
    let n = Move::promo(from, to, Piece::make(color, PieceKind::Knight));
    out.push(n);
    proof {
        assert forall|m: Move| out@.contains(m) <==> old(out)@.contains(m) || (m.from == from && m.to == to
            && (m.promotion matches Some(q) && is_promo_piece(q, color))) by {
            lemma_push_contains(o0, q, m);
            lemma_push_contains(o1, r, m);
            lemma_push_contains(o2, b, m);
            lemma_push_contains(o3, n, m);
        }
    }
    proof {
        if old(out)@.no_duplicates() && (forall|m: Move| #[trigger] old(out)@.contains(m) ==> !(m.from == from && m.to == to)) {
            assert(Piece::spec_make(color, PieceKind::Queen) != Piece::spec_make(color, PieceKind::Rook));
            assert(Piece::spec_make(color, PieceKind::Queen) != Piece::spec_make(color, PieceKind::Bishop));
            assert(Piece::spec_make(color, PieceKind::Queen) != Piece::spec_make(color, PieceKind::Knight));
            assert(Piece::spec_make(color, PieceKind::Rook) != Piece::spec_make(color, PieceKind::Bishop));
            assert(Piece::spec_make(color, PieceKind::Rook) != Piece::spec_make(color, PieceKind::Knight));
            assert(Piece::spec_make(color, PieceKind::Bishop) != Piece::spec_make(color, PieceKind::Knight));
            lemma_push_contains(o0, q, r);
            lemma_push_contains(o0, q, b);
            lemma_push_contains(o1, r, b);
            lemma_push_contains(o0, q, n);
            lemma_push_contains(o1, r, n);
            lemma_push_contains(o2, b, n);
            lemma_push_no_dup(o0, q);
            lemma_push_no_dup(o1, r);
            lemma_push_no_dup(o2, b);
            lemma_push_no_dup(o3, n);
        }
    }
}

/// The forward (non-capturing) pawn moves.
pub open spec fn pawn_push(p: Pos, m: Move, c: Color) -> bool {
    let from = m.from as int;
    let t = m.to as int;
    let dir = pawn_dir(c);
    ||| (t == from + dir && valid(t) && p.cells[t].spec_is_empty() && promo_ok(m, t, c))
    ||| (t == from + 2 * dir && spec_rank(from) == pawn_start_rank(c) && valid(from + dir) && p.cells[from
        + dir].spec_is_empty() && valid(t) && p.cells[t].spec_is_empty() && m.promotion is None)
}

/// The diagonal pawn moves onto `from + dir + side`.
pub open spec fn pawn_capture(p: Pos, m: Move, c: Color, side: int) -> bool {
    let from = m.from as int;
    let t = m.to as int;
    let dir = pawn_dir(c);
    ||| (t == from + dir + side && valid(t) && p.cells[t].spec_is_color(c.spec_flip()) && promo_ok(m, t, c))
    ||| (t == from + dir + side && valid(t) && !p.cells[t].spec_is_color(c.spec_flip()) && p.ep == Some(m.to)
        && m.promotion is None)
}

fn gen_pawn_push(board: &Board, s: Sq, color: Color, out: &mut MoveList)
    requires
        valid(s as int),
    ensures
        forall|m: Move|
            #[trigger] final(out)@.contains(m) <==> old(out)@.contains(m) || (m.from == s && pawn_push(board.pos(), m, color)),
        old(out)@.no_duplicates() && (forall|m: Move| #[trigger] old(out)@.contains(m) ==> m.from != s)
            ==> final(out)@.no_duplicates(),
{
    let si = s as i32;
    let (dir, start_rank, promo_rank) = match color {
        Color::White => (16i32, 1i32, 7i32),
        Color::Black => (-16i32, 6i32, 0i32),
    };
    assert(dir == pawn_dir(color) && start_rank == pawn_start_rank(color));
    assert(promo_rank == self::promo_rank(color));
    let rank = square::rank(s);
    let one = si + dir;
    let ghost o0 = out@;
    if square::on_board_i32(one) && board.cells[one as usize].is_empty() {
        let one_sq = one as usize;
        if square::rank(one_sq) == promo_rank {
            push_promotions(s, one_sq, color, out);
            proof {
                assert(spec_rank(s as int) != pawn_start_rank(color));
                assert forall|m: Move| #[trigger] out@.contains(m) <==> o0.contains(m) || (m.from == s && pawn_push(board.pos(), m, color)) by {
                    if m.from == s && m.to as int == s + 2 * dir {
                        assert(spec_rank(s as int) != pawn_start_rank(color));
                    }
                }
            }
            return;
        } else {
            let m1 = Move::new(s, one_sq);
            proof {
                if old(out)@.no_duplicates() && (forall|m: Move| #[trigger] old(out)@.contains(m) ==> m.from != s) {
                    lemma_push_no_dup(o0, m1);
                }
            }
            out.push(m1);
            let ghost o1 = out@;
            if rank == start_rank {
                let two = si + 2 * dir;
                if square::on_board_i32(two) && board.cells[two as usize].is_empty() {
                    let m2 = Move::new(s, two as usize);
                    proof {
                        if old(out)@.no_duplicates() && (forall|m: Move| #[trigger] old(out)@.contains(m) ==> m.from != s) {
                            lemma_push_contains(o0, m1, m2);
                            lemma_push_no_dup(o1, m2);
                        }
                    }
                    out.push(m2);
                    proof {
                        assert forall|m: Move| #[trigger] out@.contains(m) <==> o0.contains(m) || (m.from == s && pawn_push(board.pos(), m, color)) by {
                            lemma_push_contains(o0, m1, m);
                            lemma_push_contains(o1, m2, m);
                        }
                    }
                    return;
                } else {
                    proof {
                        assert forall|m: Move| #[trigger] out@.contains(m) <==> o0.contains(m) || (m.from == s && pawn_push(board.pos(), m, color)) by {
                            lemma_push_contains(o0, m1, m);
                        }
                    }
                    return;
                }
            } else {
                proof {
                    assert forall|m: Move| #[trigger] out@.contains(m) <==> o0.contains(m) || (m.from == s && pawn_push(board.pos(), m, color)) by {
                        lemma_push_contains(o0, m1, m);
                    }
                }
                return;
            }
        }
    } else {
        proof {
            assert forall|m: Move| #[trigger] out@.contains(m) <==> o0.contains(m) || (m.from == s && pawn_push(board.pos(), m, color)) by {}
        }
    }
}

fn gen_pawn_capture(board: &Board, s: Sq, color: Color, side: i32, out: &mut MoveList)
    requires
        valid(s as int),
        side == 1 || side == -1,
    ensures
        forall|m: Move|
            #[trigger] final(out)@.contains(m) <==> old(out)@.contains(m) || (m.from == s && pawn_capture(board.pos(), m, color, side as int)),
        old(out)@.no_duplicates() && (forall|m: Move| #[trigger] old(out)@.contains(m) && m.from == s ==> m.to != s
            + pawn_dir(color) + side) ==> final(out)@.no_duplicates(),
{
    let si = s as i32;
    let (dir, promo_rank) = match color {
        Color::White => (16i32, 7i32),
        Color::Black => (-16i32, 0i32),
    };
    let cand = si + dir + side;
    let ghost o0 = out@;
    if !square::on_board_i32(cand) {
        return;
    }
    let cand_sq = cand as usize;
    let target = board.cells[cand_sq];
    if target.is_color(color.flip()) {
        if square::rank(cand_sq) == promo_rank {
            push_promotions(s, cand_sq, color, out);
        } else {
            let m1 = Move::new(s, cand_sq);
            proof {
                if old(out)@.no_duplicates() && (forall|m: Move| #[trigger] old(out)@.contains(m) && m.from == s ==> m.to != s
                    + pawn_dir(color) + side) {
                    lemma_push_no_dup(o0, m1);
                }
            }
            out.push(m1);
            proof {
                assert forall|m: Move| #[trigger] out@.contains(m) <==> o0.contains(m) || (m.from == s && pawn_capture(board.pos(), m, color, side as int)) by {
                    lemma_push_contains(o0, m1, m);
                }
            }
        }
    } else {
        let is_ep_target = match board.ep {
            Some(e) => e == cand_sq,
            None => false,
        };
        if is_ep_target {
            let m1 = Move::new(s, cand_sq);
            proof {
                if old(out)@.no_duplicates() && (forall|m: Move| #[trigger] old(out)@.contains(m) && m.from == s ==> m.to != s
                    + pawn_dir(color) + side) {
                    lemma_push_no_dup(o0, m1);
                }
            }
            out.push(m1);
            proof {
                assert forall|m: Move| #[trigger] out@.contains(m) <==> o0.contains(m) || (m.from == s && pawn_capture(board.pos(), m, color, side as int)) by {
                    lemma_push_contains(o0, m1, m);
                }
            }
        }
    }
}

/// Appends the pawn moves from `s`.
fn gen_pawn(board: &Board, s: Sq, color: Color, out: &mut MoveList)
    requires
        valid(s as int),
    ensures
        forall|m: Move|
            final(out)@.contains(m) <==> old(out)@.contains(m) || (m.from == s && pawn_move(board.pos(), m, color)),
        old(out)@.no_duplicates() && (forall|m: Move| #[trigger] old(out)@.contains(m) ==> m.from != s)
            ==> final(out)@.no_duplicates(),
{
    let ghost o0 = out@;
    gen_pawn_push(board, s, color, out);
    let ghost o1 = out@;
    proof {
        if forall|m: Move| #[trigger] o0.contains(m) ==> m.from != s {
            assert forall|m: Move| #[trigger] o1.contains(m) && m.from == s implies m.to != s + pawn_dir(color) + 1 by {
                assert(!o0.contains(m));
                assert(pawn_push(board.pos(), m, color));
            }
        }
    }
    gen_pawn_capture(board, s, color, 1, out);
    let ghost o2 = out@;
    proof {
        if forall|m: Move| #[trigger] o0.contains(m) ==> m.from != s {
            assert forall|m: Move| #[trigger] o2.contains(m) && m.from == s implies m.to != s + pawn_dir(color) - 1 by {
                assert(!o0.contains(m));
                if !o1.contains(m) {
                    assert(pawn_capture(board.pos(), m, color, 1));
                } else {
                    assert(pawn_push(board.pos(), m, color));
                }
            }
        }
    }
    gen_pawn_capture(board, s, color, -1, out);
}


/// Appends the legal castling moves of `color`, the side to move.
fn gen_castling(board: &Board, color: Color, out: &mut MoveList)
    requires
        color == board.pos().side(),
    ensures
        forall|m: Move|
            #[trigger] final(out)@.contains(m) <==> old(out)@.contains(m) || castle_move(board.pos(), m),
        ({
            let r = home_rank(color);
            let k = square::spec_make(r, 4);
            old(out)@.no_duplicates() && (forall|m: Move| #[trigger] old(out)@.contains(m) && m.from == k
                && board.pos().cells[k] == Piece::spec_make(color, PieceKind::King) ==> m.to != square::spec_make(r, 6)
                && m.to != square::spec_make(r, 2)) ==> final(out)@.no_duplicates()
        }),
{
    let (rank, ks_right, qs_right) = match color {
        Color::White => (0i32, CASTLE_WK, CASTLE_WQ),
        Color::Black => (7i32, CASTLE_BK, CASTLE_BQ),
    };
    assert(rank == home_rank(color) && ks_right == kingside_right(color) && qs_right == queenside_right(color));
    let enemy = color.flip();
    let king_sq = square::make(rank, 4);
    let ghost o0 = out@;
    if board.cells[king_sq] != Piece::make(color, PieceKind::King) {
        return;
    }
    if is_square_attacked(board, king_sq, enemy) {
        return;
    }
    let rook = Piece::make(color, PieceKind::Rook);
    let f1 = square::make(rank, 5);
    let g1 = square::make(rank, 6);
    let h1 = square::make(rank, 7);
    let ks = board.castling & ks_right != 0 && board.cells[f1].is_empty() && board.cells[g1].is_empty()
        && board.cells[h1] == rook && !is_square_attacked(board, f1, enemy) && !is_square_attacked(board, g1, enemy);
    let mk = Move::new(king_sq, g1);
    let ghost cond = old(out)@.no_duplicates() && (forall|m: Move| #[trigger] old(out)@.contains(m) && m.from == king_sq
        && board.pos().cells[king_sq as int] == Piece::spec_make(color, PieceKind::King) ==> m.to != g1 && m.to != square::spec_make(rank as int, 2));
    if ks {
        proof {
            if cond {
                lemma_push_no_dup(o0, mk);
            }
        }
        out.push(mk);
    }
    let ghost o1 = out@;
    let b1 = square::make(rank, 1);
    let c1 = square::make(rank, 2);
    let d1 = square::make(rank, 3);
    let a1 = square::make(rank, 0);
    let qs = board.castling & qs_right != 0 && board.cells[b1].is_empty() && board.cells[c1].is_empty()
        && board.cells[d1].is_empty() && board.cells[a1] == rook && !is_square_attacked(board, c1, enemy)
        && !is_square_attacked(board, d1, enemy);
    let mq = Move::new(king_sq, c1);
    if qs {
        proof {
            if cond {
                lemma_push_contains(o0, mk, mq);
                lemma_push_no_dup(o1, mq);
            }
        }
        out.push(mq);
    }
    proof {
        assert forall|m: Move| #[trigger] out@.contains(m) <==> o0.contains(m) || castle_move(board.pos(), m) by {
            lemma_push_contains(o0, mk, m);
            lemma_push_contains(o1, mq, m);
        }
    }
}

/// Appends the pseudo-legal moves of the piece on `s`, a piece of `color`.
fn gen_piece(board: &Board, s: Sq, color: Color, out: &mut MoveList)
    requires
        valid(s as int),
        color == board.pos().side(),
        board.pos().cells.len() == 128,
    ensures
        forall|m: Move|
            #[trigger] final(out)@.contains(m) <==> old(out)@.contains(m) || (m.from == s && piece_move(board.pos(), m)),
        old(out)@.no_duplicates() && (forall|m: Move| #[trigger] old(out)@.contains(m) ==> m.from != s)
            ==> final(out)@.no_duplicates(),
{
    let p = board.cells[s];
    let ghost o0 = out@;
    if !p.is_color(color) {
        return;
    }
    let ghost cells = board.cells@;
    match p.kind() {
        Some(PieceKind::Pawn) => {
            gen_pawn(board, s, color, out);
            proof {
                assert forall|m: Move| #[trigger] out@.contains(m) <==> o0.contains(m) || (m.from == s && piece_move(board.pos(), m)) by {}
            }
        },
        Some(PieceKind::Knight) => {
            gen_leaper(&board.cells, s, color, true, out);
            proof {
                assert forall|m: Move| #[trigger] out@.contains(m) <==> o0.contains(m) || (m.from == s && piece_move(board.pos(), m)) by {
                    if exists|i: int| 0 <= i < 8 && leap(cells, s as int, #[trigger] knight_d(i), m.to as int, color) {
                        let i = choose|i: int| 0 <= i < 8 && leap(cells, s as int, #[trigger] knight_d(i), m.to as int, color);
                        assert(leaper_d(true, i) == knight_d(i));
                    }
                    if exists|i: int| 0 <= i < 8 && leap(cells, s as int, #[trigger] leaper_d(true, i), m.to as int, color) {
                        let i = choose|i: int| 0 <= i < 8 && leap(cells, s as int, #[trigger] leaper_d(true, i), m.to as int, color);
                        assert(leaper_d(true, i) == knight_d(i));
                    }
                }
            }
        },
        Some(PieceKind::King) => {
            gen_leaper(&board.cells, s, color, false, out);
            proof {
                assert forall|m: Move| #[trigger] out@.contains(m) <==> o0.contains(m) || (m.from == s && piece_move(board.pos(), m)) by {
                    if exists|i: int| 0 <= i < 8 && leap(cells, s as int, #[trigger] king_d(i), m.to as int, color) {
                        let i = choose|i: int| 0 <= i < 8 && leap(cells, s as int, #[trigger] king_d(i), m.to as int, color);
                        assert(leaper_d(false, i) == king_d(i));
                    }
                    if exists|i: int| 0 <= i < 8 && leap(cells, s as int, #[trigger] leaper_d(false, i), m.to as int, color) {
                        let i = choose|i: int| 0 <= i < 8 && leap(cells, s as int, #[trigger] leaper_d(false, i), m.to as int, color);
                        assert(leaper_d(false, i) == king_d(i));
                    }
                }
            }
        },
        Some(PieceKind::Bishop) => {
            gen_slider(&board.cells, s, color, true, out);
            proof {
                assert forall|m: Move| #[trigger] out@.contains(m) <==> o0.contains(m) || (m.from == s && piece_move(board.pos(), m)) by {
                    lemma_slider_exists(cells, s as int, m.to as int, color);
                }
            }
        },
        Some(PieceKind::Rook) => {
            gen_slider(&board.cells, s, color, false, out);
            proof {
                assert forall|m: Move| #[trigger] out@.contains(m) <==> o0.contains(m) || (m.from == s && piece_move(board.pos(), m)) by {
                    lemma_slider_exists(cells, s as int, m.to as int, color);
                }
            }
        },
        Some(PieceKind::Queen) => {
            gen_slider(&board.cells, s, color, false, out);
            let ghost o1 = out@;
            proof {
                if old(out)@.no_duplicates() && (forall|m: Move| #[trigger] old(out)@.contains(m) ==> m.from != s) {
                    assert forall|m: Move| #[trigger] o1.contains(m) && m.from == s && m.promotion is None
                        implies !exists|i: int| 0 <= i < 4 && reach(cells, s + slider_d(true, i), #[trigger] slider_d(true, i), m.to as int, color) by {
                        assert(!old(out)@.contains(m));
                        let j = choose|j: int| 0 <= j < 4 && reach(cells, s + slider_d(false, j), #[trigger] slider_d(false, j), m.to as int, color);
                        if exists|i: int| 0 <= i < 4 && reach(cells, s + slider_d(true, i), #[trigger] slider_d(true, i), m.to as int, color) {
                            let i = choose|i: int| 0 <= i < 4 && reach(cells, s + slider_d(true, i), #[trigger] slider_d(true, i), m.to as int, color);
                            lemma_walks_apart(cells, s as int, slider_d(false, j), slider_d(true, i), m.to as int, color);
                        }
                    }
                }
            }
            gen_slider(&board.cells, s, color, true, out);
            proof {
                assert forall|m: Move| #[trigger] out@.contains(m) <==> o0.contains(m) || (m.from == s && piece_move(board.pos(), m)) by {
                    lemma_slider_exists(cells, s as int, m.to as int, color);
                    if o1.contains(m) {}
                }
            }
        },
        None => {},
    }
}

/// The slider existentials over `slider_d` and over the bishop and rook
/// deltas agree.
proof fn lemma_slider_exists(cells: Seq<Piece>, s: int, t: int, color: Color)
    ensures
        (exists|i: int| 0 <= i < 4 && reach(cells, s + bishop_d(i), #[trigger] bishop_d(i), t, color))
            <==> (exists|i: int| 0 <= i < 4 && reach(cells, s + slider_d(true, i), #[trigger] slider_d(true, i), t, color)),
        (exists|i: int| 0 <= i < 4 && reach(cells, s + rook_d(i), #[trigger] rook_d(i), t, color))
            <==> (exists|i: int| 0 <= i < 4 && reach(cells, s + slider_d(false, i), #[trigger] slider_d(false, i), t, color)),
{
    if exists|i: int| 0 <= i < 4 && reach(cells, s + bishop_d(i), #[trigger] bishop_d(i), t, color) {
        let i = choose|i: int| 0 <= i < 4 && reach(cells, s + bishop_d(i), #[trigger] bishop_d(i), t, color);
        assert(slider_d(true, i) == bishop_d(i));
    }
    if exists|i: int| 0 <= i < 4 && reach(cells, s + slider_d(true, i), #[trigger] slider_d(true, i), t, color) {
        let i = choose|i: int| 0 <= i < 4 && reach(cells, s + slider_d(true, i), #[trigger] slider_d(true, i), t, color);
        assert(slider_d(true, i) == bishop_d(i));
    }
    if exists|i: int| 0 <= i < 4 && reach(cells, s + rook_d(i), #[trigger] rook_d(i), t, color) {
        let i = choose|i: int| 0 <= i < 4 && reach(cells, s + rook_d(i), #[trigger] rook_d(i), t, color);
        assert(slider_d(false, i) == rook_d(i));
    }
    if exists|i: int| 0 <= i < 4 && reach(cells, s + slider_d(false, i), #[trigger] slider_d(false, i), t, color) {
        let i = choose|i: int| 0 <= i < 4 && reach(cells, s + slider_d(false, i), #[trigger] slider_d(false, i), t, color);
        assert(slider_d(false, i) == rook_d(i));
    }
}

/// Generate all pseudo-legal moves for the side to move into `out` (cleared
/// first): every move that obeys the movement rules, some of which may leave
/// the mover's king in check, and the fully legal castling moves.
pub fn gen_pseudo(board: &Board, out: &mut MoveList)
    requires
        board.pos().wf(),
    ensures
        forall|m: Move| #[trigger] final(out)@.contains(m) <==> pseudo(board.pos(), m),
        final(out)@.no_duplicates(),
{
    out.clear();
    let color = board.side_to_move();
    let mut i: usize = 0;
    while i < 64
        invariant
            board.pos().wf(),
            color == board.pos().side(),
            i <= 64,
            forall|m: Move| #[trigger] out@.contains(m) <==> piece_move(board.pos(), m) && idx_of(m.from as int) < i,
            out@.no_duplicates(),
        decreases 64 - i,
    {
        let s = square::nth_square(i);
        let ghost o = out@;
        proof {
            assert forall|m: Move| #[trigger] o.contains(m) implies m.from != s by {
                if m.from == s {
                    assert(idx_of(m.from as int) == i);
                }
            }
        }
        gen_piece(board, s, color, out);
        proof {
            assert forall|m: Move| #[trigger] out@.contains(m) <==> piece_move(board.pos(), m) && idx_of(m.from as int) < i + 1 by {
                if piece_move(board.pos(), m) {
                    square::lemma_sq_enum();
                }
                if o.contains(m) {}
            }
        }
        i = i + 1;
    }
    let ghost o = out@;
    proof {
        let r = home_rank(color);
        let k = square::spec_make(r, 4);
        assert forall|m: Move| #[trigger] o.contains(m) && m.from == k && board.pos().cells[k] == Piece::spec_make(color, PieceKind::King)
            implies m.to != square::spec_make(r, 6) && m.to != square::spec_make(r, 2) by {
            assert(piece_move(board.pos(), m));
            let i = choose|i: int| 0 <= i < 8 && leap(board.pos().cells, k, #[trigger] king_d(i), m.to as int, color);
        }
    }
    gen_castling(board, color, out);
    proof {
        assert forall|m: Move| #[trigger] out@.contains(m) <==> pseudo(board.pos(), m) by {
            if piece_move(board.pos(), m) {
                square::lemma_sq_enum();
            }
            if o.contains(m) {}
        }
    }
}


/// A real square one file step from a real square lies one file over.
proof fn lemma_file_step(s: int, d: int)
    requires
        valid(s),
        valid(s + d),
        -17 <= d <= 17,
    ensures
        (d == 1 || d == 17 || d == -15) ==> spec_file(s + d) == spec_file(s) + 1,
        (d == -1 || d == -17 || d == 15) ==> spec_file(s + d) == spec_file(s) - 1,
        (d == 16 || d == -16) ==> spec_file(s + d) == spec_file(s),
        (d == 16 || d == 17 || d == 15) ==> spec_rank(s + d) == spec_rank(s) + 1,
        (d == -16 || d == -17 || d == -15) ==> spec_rank(s + d) == spec_rank(s) - 1,
{
}

/// Every pseudo-legal move of a well-formed position whose en-passant
/// target is empty can be made and unmade exactly.
pub proof fn lemma_pseudo_reversible(p: Pos, m: Move)
    requires
        p.wf(),
        ep_sane(p),
        pseudo(p, m),
    ensures
        p.reversible(m),
{
    let from = m.from as int;
    let t = m.to as int;
    if castle_move(p, m) {
        assert(p.moved(m).has_kind(PieceKind::King));
    } else {
        let pc = p.cells[from];
        match pc.spec_kind() {
            Some(PieceKind::Pawn) => {
                let dir = pawn_dir(p.side());
                if t == from + dir {
                    lemma_file_step(from, dir);
                } else if t == from + 2 * dir {
                    lemma_file_step(from, dir);
                    lemma_file_step(from + dir, dir);
                } else if t == from + dir + 1 {
                    lemma_file_step(from, dir + 1);
                } else {
                    lemma_file_step(from, dir - 1);
                }
            },
            Some(PieceKind::Knight) => {
                let i = choose|i: int| 0 <= i < 8 && leap(p.cells, from, #[trigger] knight_d(i), t, p.side());
            },
            Some(PieceKind::King) => {
                let i = choose|i: int| 0 <= i < 8 && leap(p.cells, from, #[trigger] king_d(i), t, p.side());
                lemma_file_step(from, king_d(i));
            },
            Some(PieceKind::Bishop) => {
                let i = choose|i: int| 0 <= i < 4 && reach(p.cells, from + bishop_d(i), #[trigger] bishop_d(i), t, p.side());
                lemma_reach_valid(p.cells, from + bishop_d(i), bishop_d(i), t, p.side());
                lemma_reach_ahead(p.cells, from + bishop_d(i), bishop_d(i), t, p.side());
            },
            Some(PieceKind::Rook) => {
                let i = choose|i: int| 0 <= i < 4 && reach(p.cells, from + rook_d(i), #[trigger] rook_d(i), t, p.side());
                lemma_reach_valid(p.cells, from + rook_d(i), rook_d(i), t, p.side());
                lemma_reach_ahead(p.cells, from + rook_d(i), rook_d(i), t, p.side());
            },
            Some(PieceKind::Queen) => {
                if exists|i: int| 0 <= i < 4 && reach(p.cells, from + rook_d(i), #[trigger] rook_d(i), t, p.side()) {
                    let i = choose|i: int| 0 <= i < 4 && reach(p.cells, from + rook_d(i), #[trigger] rook_d(i), t, p.side());
                    lemma_reach_valid(p.cells, from + rook_d(i), rook_d(i), t, p.side());
                    lemma_reach_ahead(p.cells, from + rook_d(i), rook_d(i), t, p.side());
                } else {
                    let i = choose|i: int| 0 <= i < 4 && reach(p.cells, from + bishop_d(i), #[trigger] bishop_d(i), t, p.side());
                    lemma_reach_valid(p.cells, from + bishop_d(i), bishop_d(i), t, p.side());
                    lemma_reach_ahead(p.cells, from + bishop_d(i), bishop_d(i), t, p.side());
                }
            },
            None => {},
        }
    }
}

/// A walk only reaches real squares.
proof fn lemma_reach_valid(cells: Seq<Piece>, pos: int, d: int, t: int, c: Color)
    requires
        reach(cells, pos, d, t, c),
    ensures
        valid(t),
    decreases (if d > 0 {
        128 - pos
    } else {
        pos
    }),
{
    if pos != t {
        lemma_reach_valid(cells, pos + d, d, t, c);
    }
}


/// Keeps the moves of `list[0..]` after which `color`'s king is safe, by
/// making and unmaking each; with `loud_only`, only the loud ones.
#[verifier::spinoff_prover]
#[verifier::rlimit(60)]
fn filter_safe(board: &mut Board, list: &MoveList, color: Color, loud_only: bool, out: &mut MoveList)
    requires
        old(board).wf(),
        ep_sane(old(board).pos()),
        forall|m: Move| #[trigger] list@.contains(m) ==> pseudo(old(board).pos(), m),
    ensures
        final(board).wf(),
        final(board).same_state(old(board)),
        forall|m: Move| #[trigger] final(out)@.contains(m) <==> list@.contains(m)
            && (loud_only ==> loud(old(board).pos(), m)) && !in_check_spec(old(board).pos().after(m), color),
        list@.no_duplicates() ==> final(out)@.no_duplicates(),
{
    let ghost b0 = *board;
    let ghost p0 = board.pos();
    out.clear();
    let mut i: usize = 0;
    while i < list.len()
        invariant
            board.wf(),
            board.same_state(&b0),
            p0 == b0.pos(),
            p0.wf(),
            ep_sane(p0),
            forall|m: Move| #[trigger] list@.contains(m) ==> pseudo(p0, m),
            i <= list.len(),
            forall|m: Move| #[trigger] out@.contains(m) <==> list@.subrange(0, i as int).contains(m)
                && (loud_only ==> loud(p0, m)) && !in_check_spec(p0.after(m), color),
            list@.no_duplicates() ==> out@.no_duplicates(),
        decreases list.len() - i,
    {
        let mv = list[i];
        let ghost o = out@;
        proof {
            assert(list@.contains(mv));
            lemma_pseudo_reversible(p0, mv);
            assert(list@.subrange(0, i as int + 1) =~= list@.subrange(0, i as int).push(mv));
        }
        let target = board.cells[mv.to];
        let is_ep = match board.cells[mv.from].kind() {
            Some(PieceKind::Pawn) => match board.ep {
                Some(e) => e == mv.to && square::file(mv.from) != square::file(mv.to),
                None => false,
            },
            _ => false,
        };
        let is_loud = !target.is_empty() || mv.is_promotion() || is_ep;
        assert(is_loud == loud(p0, mv));
        if !loud_only || is_loud {
            board.make_move_struct(mv);
            let safe = !in_check(board, color);
            let _ = board.unmake_move();
            proof {
                assert(board.line() =~= b0.line());
                assert(board.line_before() =~= b0.line_before());
                assert(board.line_after() =~= b0.line_after());
                assert(board.key_line() =~= b0.key_line());
            }
            if safe {
                proof {
                    if list@.no_duplicates() && o.contains(mv) {
                        assert(list@.subrange(0, i as int).contains(mv));
                        let j = choose|j: int| 0 <= j < i && list@.subrange(0, i as int)[j] == mv;
                        assert(list@[j] == list@[i as int]);
                    }
                    if list@.no_duplicates() {
                        lemma_push_no_dup(o, mv);
                    }
                }
                out.push(mv);
            }
        }
        proof {
            assert forall|m: Move| #[trigger] out@.contains(m) <==> list@.subrange(0, i as int + 1).contains(m)
                && (loud_only ==> loud(p0, m)) && !in_check_spec(p0.after(m), color) by {
                lemma_push_contains(o, mv, m);
                lemma_push_contains(list@.subrange(0, i as int), mv, m);
            }
        }
        i = i + 1;
    }
    proof {
        assert(list@.subrange(0, list@.len() as int) =~= list@);
    }
}

/// The legal moves of the side to move: the pseudo-legal ones after which
/// the mover's king is not attacked. Each is tried by make/unmake on
/// `board`, which ends in the state it started in.
pub fn legal_moves(board: &mut Board, out: &mut MoveList)
    requires
        old(board).wf(),
        ep_sane(old(board).pos()),
    ensures
        final(board).wf(),
        final(board).same_state(old(board)),
        forall|m: Move| #[trigger] final(out)@.contains(m) <==> legal(old(board).pos(), m),
        final(out)@.no_duplicates(),
{
    let color = board.side_to_move();
    let mut pseudo_list: MoveList = Vec::new();
    gen_pseudo(board, &mut pseudo_list);
    filter_safe(board, &pseudo_list, color, false, out);
    proof {
        reveal(legal);
    }
}

/// Only the loud legal moves (captures, en passant, promotions), for the
/// quiescence search.
pub fn gen_captures(board: &mut Board, out: &mut MoveList)
    requires
        old(board).wf(),
        ep_sane(old(board).pos()),
    ensures
        final(board).wf(),
        final(board).same_state(old(board)),
        forall|m: Move| #[trigger] final(out)@.contains(m) <==> legal(old(board).pos(), m) && loud(old(board).pos(), m),
{
    let color = board.side_to_move();
    let mut pseudo_list: MoveList = Vec::new();
    gen_pseudo(board, &mut pseudo_list);
    filter_safe(board, &pseudo_list, color, true, out);
    proof {
        reveal(legal);
    }
}

/// The legal moves, computed on a copy of `board`.
pub fn gen_moves(board: &Board, out: &mut MoveList)
    requires
        board.wf(),
        ep_sane(board.pos()),
    ensures
        forall|m: Move| #[trigger] final(out)@.contains(m) <==> legal(board.pos(), m),
{
    let mut scratch = board.duplicate();
    legal_moves(&mut scratch, out);
}

/// Is the king of the given side in check? `white_king` picks White.
pub fn is_king_attacked(board: &Board, white_king: bool) -> (r: bool)
    ensures
        r == in_check_spec(board.pos(), if white_king { Color::White } else { Color::Black }),
{
    let color = if white_king {
        Color::White
    } else {
        Color::Black
    };
    in_check(board, color)
}

/// `true` if the side to move has at least one legal move.
pub fn has_legal_move(board: &mut Board) -> (r: bool)
    requires
        old(board).wf(),
        ep_sane(old(board).pos()),
    ensures
        final(board).wf(),
        final(board).same_state(old(board)),
        r == exists|m: Move| legal(old(board).pos(), m),
{
    let mut moves: MoveList = Vec::new();
    legal_moves(board, &mut moves);
    proof {
        if moves@.len() > 0 {
            assert(moves@.contains(moves@[0]));
        }
        if exists|m: Move| legal(old(board).pos(), m) {
            let m = choose|m: Move| legal(old(board).pos(), m);
            assert(moves@.contains(m));
        }
    }
    moves.len() > 0
}


/// Playing a pseudo-legal move keeps the position well formed with an empty
/// en-passant target, so the move generator applies again afterwards.
pub proof fn lemma_after_sane(p: Pos, m: Move)
    requires
        p.wf(),
        ep_sane(p),
        pseudo(p, m),
    ensures
        p.reversible(m),
        p.after(m).wf(),
        ep_sane(p.after(m)),
{
    lemma_pseudo_reversible(p, m);
    lemma_after_wf(p, m);
    let q = p.after(m);
    if let Some(e) = q.ep {
        let from = m.from as int;
        let t = m.to as int;
        let dir = pawn_dir(p.side());
        assert(p.moved(m).has_kind(PieceKind::Pawn));
        assert(!castle_move(p, m));
        if t == from + dir {
            lemma_file_step(from, dir);
        } else if t == from + 2 * dir {
            lemma_file_step(from, dir);
            lemma_file_step(from + dir, dir);
            assert(e as int == from + dir);
        } else if t == from + dir + 1 {
            lemma_file_step(from, dir + 1);
        } else {
            lemma_file_step(from, dir - 1);
        }
    }
}


/// A legal move of a well-formed position with an empty en-passant target
/// has real squares, can be made and unmade exactly, and leads to a
/// well-formed position with an empty en-passant target.
pub proof fn lemma_legal_sane(p: Pos, m: Move)
    requires
        p.wf(),
        ep_sane(p),
        legal(p, m),
    ensures
        valid(m.from as int),
        valid(m.to as int),
        m.from < 128 && m.to < 128,
        p.reversible(m),
        p.after(m).wf(),
        ep_sane(p.after(m)),
{
    reveal(legal);
    lemma_after_sane(p, m);
}


/// `true` if the en-passant target, if any, is empty.
pub fn ep_is_sane(board: &Board) -> (r: bool)
    requires
        board.pos().wf(),
    ensures
        r == ep_sane(board.pos()),
{
    match board.ep {
        Some(e) => board.cells[e].is_empty(),
        None => true,
    }
}

/// The position reached from `p` by the first `i` moves of `moves`.
pub open spec fn pos_after(p: Pos, moves: Seq<Move>, i: int) -> Pos
    decreases i,
{
    if i <= 0 {
        p
    } else {
        pos_after(p, moves, i - 1).after(moves[i - 1])
    }
}

/// `moves` can be played one after another from `p`, each legal.
pub open spec fn legal_line(p: Pos, moves: Seq<Move>) -> bool {
    &&& p.wf()
    &&& ep_sane(p)
    &&& forall|i: int| 0 <= i < moves.len() ==> legal(#[trigger] pos_after(p, moves, i), moves[i])
}

/// Along a legal line every position is well formed with an empty
/// en-passant target.
pub proof fn lemma_line_sane(p: Pos, moves: Seq<Move>, i: int)
    requires
        legal_line(p, moves),
        0 <= i <= moves.len(),
    ensures
        pos_after(p, moves, i).wf(),
        ep_sane(pos_after(p, moves, i)),
    decreases i,
{
    if i > 0 {
        lemma_line_sane(p, moves, i - 1);
        lemma_legal_sane(pos_after(p, moves, i - 1), moves[i - 1]);
    }
}

/// Positions along a line only depend on the moves played so far.
pub proof fn lemma_pos_after_prefix(p: Pos, a: Seq<Move>, b: Seq<Move>, i: int)
    requires
        0 <= i <= a.len(),
        a.len() <= b.len(),
        forall|j: int| 0 <= j < a.len() ==> a[j] == b[j],
    ensures
        pos_after(p, a, i) == pos_after(p, b, i),
    decreases i,
{
    if i > 0 {
        lemma_pos_after_prefix(p, a, b, i - 1);
    }
}

/// A legal move played at the end of a legal line extends it, leaving the
/// positions along the line as they were.
pub proof fn lemma_line_push(p: Pos, ms: Seq<Move>, m: Move)
    requires
        legal_line(p, ms),
        legal(pos_after(p, ms, ms.len() as int), m),
    ensures
        legal_line(p, ms.push(m)),
        forall|i: int| 0 <= i <= ms.len() ==> #[trigger] pos_after(p, ms.push(m), i) == pos_after(p, ms, i),
        pos_after(p, ms.push(m), ms.len() + 1int) == pos_after(p, ms, ms.len() as int).after(m),
{
    let ms2 = ms.push(m);
    assert forall|i: int| 0 <= i <= ms.len() implies #[trigger] pos_after(p, ms2, i) == pos_after(p, ms, i) by {
        lemma_pos_after_prefix(p, ms, ms2, i);
    }
    assert forall|i: int| 0 <= i < ms2.len() implies legal(#[trigger] pos_after(p, ms2, i), ms2[i]) by {
        assert(pos_after(p, ms2, i) == pos_after(p, ms, i));
        if i < ms.len() {
            assert(legal(pos_after(p, ms, i), ms[i]));
        }
    }
    assert(pos_after(p, ms2, ms.len() + 1int) == pos_after(p, ms2, ms.len() as int).after(ms2[ms.len() as int]));
}

/// Dropping the last move of a legal line leaves a legal line, with the
/// positions along it as they were.
pub proof fn lemma_line_pop(p: Pos, ms: Seq<Move>)
    requires
        legal_line(p, ms),
        ms.len() > 0,
    ensures
        legal_line(p, ms.drop_last()),
        forall|i: int| 0 <= i < ms.len() ==> #[trigger] pos_after(p, ms.drop_last(), i) == pos_after(p, ms, i),
{
    let ms2 = ms.drop_last();
    assert forall|i: int| 0 <= i < ms.len() implies #[trigger] pos_after(p, ms2, i) == pos_after(p, ms, i) by {
        lemma_pos_after_prefix(p, ms2, ms, i);
    }
    assert forall|i: int| 0 <= i < ms2.len() implies legal(#[trigger] pos_after(p, ms2, i), ms2[i]) by {
        assert(pos_after(p, ms2, i) == pos_after(p, ms, i));
        assert(legal(pos_after(p, ms, i), ms[i]));
    }
}

} // verus!
