//! Color symmetry of the evaluation: mirroring a position (colors swapped,
//! ranks reflected) negates the White-relative score.

use crate::attacks::{bishop_d, knight_d, rook_d};
use crate::board::{flip_piece, mirror_pos, mirror_sq, Pos};
use crate::eval::{
    bishop_pair_spec, doubled_sum, evaluate_spec, file_sum, leaper_count, passed, pawn_files, pawns_spec, phase_spec,
    pst_idx, ray_count, rook_file_bonus_spec, shield_count, shield_rank, slide_count, sq_term, sum_sq,
    tdiv, total_spec, Term,
};
use crate::movegen::target_ok;
use crate::types::square::{lemma_sq_enum, spec_file, spec_make, spec_rank, sq_at, valid};
use crate::types::{Color, Piece, PieceKind};
use vstd::prelude::*;

verus! {

/// The cells of the mirror of a position with cells `c`.
pub open spec fn mirror_cells(c: Seq<Piece>) -> Seq<Piece> {
    Seq::new(
        128,
        |t: int|
            if valid(t) {
                flip_piece(c[mirror_sq(t)])
            } else {
                Piece::Empty
            },
    )
}

/// Mirroring is a reflection of the real squares.
proof fn lemma_mirror_square(s: int)
    requires
        valid(s),
    ensures
        valid(mirror_sq(s)),
        mirror_sq(mirror_sq(s)) == s,
        spec_rank(mirror_sq(s)) == 7 - spec_rank(s),
        spec_file(mirror_sq(s)) == spec_file(s),
{
}

/// A step of `dr` ranks and `df` files lands on a real square exactly when
/// the reflected step from the reflected square does, and lands on its
/// reflection.
proof fn lemma_mirror_step(s: int, dr: int, df: int)
    requires
        valid(s),
        -7 <= dr <= 7,
        -7 <= df <= 7,
    ensures
        valid(s + 16 * dr + df) == valid(mirror_sq(s) - 16 * dr + df),
        valid(s + 16 * dr + df) ==> mirror_sq(s + 16 * dr + df) == mirror_sq(s) - 16 * dr + df,
{
    let r = spec_rank(s);
    let f = spec_file(s);
    assert(s == 16 * r + f);
    let t = s + 16 * dr + df;
    let u = mirror_sq(s) - 16 * dr + df;
    assert(u == 16 * (7 - r - dr) + (f + df));
    if 0 <= f + df < 8 {
        assert(t == 16 * (r + dr) + (f + df));
        if 0 <= r + dr < 8 {
            assert(t / 16 == r + dr && t % 16 == f + df);
            assert(u / 16 == 7 - r - dr && u % 16 == f + df);
        }
    } else if f + df >= 8 {
        assert(t == 16 * (r + dr) + (f + df));
        assert(t % 16 == f + df - 16 || t % 16 == f + df || t < 0 || t >= 128);
    } else {
        assert(t == 16 * (r + dr - 1) + (f + df + 16));
    }
}

/// The reflected piece has the same kind and the other color.
proof fn lemma_flip_piece(x: Piece, col: Color)
    ensures
        flip_piece(x).spec_is_empty() == x.spec_is_empty(),
        flip_piece(x).spec_is_color(col) == x.spec_is_color(col.spec_flip()),
        flip_piece(x).spec_kind() == x.spec_kind(),
        flip_piece(x) == Piece::spec_make(col, PieceKind::Pawn) <==> x == Piece::spec_make(col.spec_flip(), PieceKind::Pawn),
{
}

/// What a piece of `col` may move onto is seen the same way on the mirror
/// by the piece of the other color.
proof fn lemma_target_mirror(c: Seq<Piece>, t: int, col: Color)
    requires
        c.len() == 128,
        valid(t),
    ensures
        mirror_cells(c)[t] == flip_piece(c[mirror_sq(t)]),
        target_ok(mirror_cells(c), t, col.spec_flip()) == target_ok(c, mirror_sq(t), col),
{
    lemma_mirror_square(t);
    let x = c[mirror_sq(t)];
    lemma_flip_piece(x, col);
    lemma_flip_piece(x, col.spec_flip());
}

/// One knight-style step, on the mirror and on the unmirrored board.
proof fn lemma_leap_term(c: Seq<Piece>, s: int, col: Color, dr: int, df: int)
    requires
        c.len() == 128,
        valid(s),
        -2 <= dr <= 2,
        -2 <= df <= 2,
    ensures
        (valid(s + 16 * dr + df) && target_ok(mirror_cells(c), s + 16 * dr + df, col.spec_flip()))
            == (valid(mirror_sq(s) - 16 * dr + df) && target_ok(c, mirror_sq(s) - 16 * dr + df, col)),
{
    lemma_mirror_step(s, dr, df);
    if valid(s + 16 * dr + df) {
        lemma_target_mirror(c, s + 16 * dr + df, col);
    }
}

/// Whether the knight step `i` from `s` counts toward mobility.
pub open spec fn knight_term(cells: Seq<Piece>, s: int, col: Color, i: int) -> int {
    if valid(s + knight_d(i)) && target_ok(cells, s + knight_d(i), col) {
        1
    } else {
        0
    }
}

/// A knight's mobility is the sum of its eight steps.
proof fn lemma_leaper_unfold(cells: Seq<Piece>, s: int, col: Color)
    ensures
        leaper_count(cells, s, col, 8) == knight_term(cells, s, col, 0) + knight_term(cells, s, col, 1)
            + knight_term(cells, s, col, 2) + knight_term(cells, s, col, 3) + knight_term(cells, s, col, 4)
            + knight_term(cells, s, col, 5) + knight_term(cells, s, col, 6) + knight_term(cells, s, col, 7),
{
    reveal_with_fuel(leaper_count, 9);
}

/// A knight's mobility on the mirror equals that of its reflection.
proof fn lemma_leaper_mirror(c: Seq<Piece>, s: int, col: Color)
    requires
        c.len() == 128,
        valid(s),
    ensures
        leaper_count(mirror_cells(c), s, col.spec_flip(), 8) == leaper_count(c, mirror_sq(s), col, 8),
{
    let mc = mirror_cells(c);
    let fc = col.spec_flip();
    let ms = mirror_sq(s);
    lemma_leaper_unfold(mc, s, fc);
    lemma_leaper_unfold(c, ms, col);
    assert(knight_term(mc, s, fc, 0) == knight_term(c, ms, col, 5)) by { lemma_leap_term(c, s, col, 2, 1); }
    assert(knight_term(mc, s, fc, 1) == knight_term(c, ms, col, 4)) by { lemma_leap_term(c, s, col, 2, -1); }
    assert(knight_term(mc, s, fc, 2) == knight_term(c, ms, col, 7)) by { lemma_leap_term(c, s, col, 1, 2); }
    assert(knight_term(mc, s, fc, 3) == knight_term(c, ms, col, 6)) by { lemma_leap_term(c, s, col, 1, -2); }
    assert(knight_term(mc, s, fc, 4) == knight_term(c, ms, col, 1)) by { lemma_leap_term(c, s, col, -2, -1); }
    assert(knight_term(mc, s, fc, 5) == knight_term(c, ms, col, 0)) by { lemma_leap_term(c, s, col, -2, 1); }
    assert(knight_term(mc, s, fc, 6) == knight_term(c, ms, col, 3)) by { lemma_leap_term(c, s, col, -1, -2); }
    assert(knight_term(mc, s, fc, 7) == knight_term(c, ms, col, 2)) by { lemma_leap_term(c, s, col, -1, 2); }
}

/// A ray on the mirror counts as the reflected ray on the unmirrored board.
proof fn lemma_ray_mirror(c: Seq<Piece>, pos: int, dr: int, df: int, col: Color)
    requires
        c.len() == 128,
        valid(pos),
        -1 <= dr <= 1,
        -1 <= df <= 1,
        dr != 0 || df != 0,
    ensures
        ray_count(mirror_cells(c), pos, 16 * dr + df, col.spec_flip()) == ray_count(c, mirror_sq(pos), -16 * dr + df, col),
    decreases (if 16 * dr + df > 0 {
        128 - pos
    } else {
        pos
    }),
{
    let d = 16 * dr + df;
    let md = -16 * dr + df;
    let mc = mirror_cells(c);
    lemma_mirror_square(pos);
    lemma_target_mirror(c, pos, col);
    let x = c[mirror_sq(pos)];
    lemma_flip_piece(x, col);
    lemma_flip_piece(x, col.spec_flip());
    lemma_mirror_step(pos, dr, df);
    let fc = col.spec_flip();
    let mp = mirror_sq(pos);
    assert(fc.spec_flip() == col);
    if x.spec_is_empty() {
        if valid(pos + d) {
            lemma_ray_mirror(c, pos + d, dr, df, col);
            assert(ray_count(mc, pos, d, fc) == 1 + ray_count(mc, pos + d, d, fc));
            assert(ray_count(c, mp, md, col) == 1 + ray_count(c, mp + md, md, col));
        } else {
            assert(!valid(mp + md));
            assert(ray_count(mc, pos, d, fc) == 1) by {
                if 0 <= pos + d < 128 {
                    assert(ray_count(mc, pos + d, d, fc) == 0);
                }
            }
            assert(ray_count(c, mp, md, col) == 1) by {
                if 0 <= mp + md < 128 {
                    assert(ray_count(c, mp + md, md, col) == 0);
                }
            }
        }
    } else {
        assert(mc[pos].spec_is_color(fc.spec_flip()) == x.spec_is_color(col.spec_flip()));
    }
}

/// One sliding direction, on the mirror and on the unmirrored board.
proof fn lemma_slide_term(c: Seq<Piece>, s: int, col: Color, dr: int, df: int)
    requires
        c.len() == 128,
        valid(s),
        -1 <= dr <= 1,
        -1 <= df <= 1,
        dr != 0 || df != 0,
    ensures
        ray_count(mirror_cells(c), s + (16 * dr + df), 16 * dr + df, col.spec_flip())
            == ray_count(c, mirror_sq(s) + (-16 * dr + df), -16 * dr + df, col),
{
    lemma_mirror_step(s, dr, df);
    if valid(s + 16 * dr + df) {
        lemma_ray_mirror(c, s + 16 * dr + df, dr, df, col);
    }
}

/// A slider's mobility on the mirror equals that of its reflection.
proof fn lemma_slide_mirror(c: Seq<Piece>, s: int, col: Color, bishop: bool)
    requires
        c.len() == 128,
        valid(s),
    ensures
        slide_count(mirror_cells(c), s, col.spec_flip(), bishop, 4) == slide_count(c, mirror_sq(s), col, bishop, 4),
{
    reveal_with_fuel(slide_count, 5);
    if bishop {
        lemma_slide_term(c, s, col, 1, 1);
        lemma_slide_term(c, s, col, 1, -1);
        lemma_slide_term(c, s, col, -1, -1);
        lemma_slide_term(c, s, col, -1, 1);
    } else {
        lemma_slide_term(c, s, col, 1, 0);
        lemma_slide_term(c, s, col, -1, 0);
        lemma_slide_term(c, s, col, 0, 1);
        lemma_slide_term(c, s, col, 0, -1);
    }
}

/// The king's pawn shield on the mirror equals that of its reflection.
proof fn lemma_shield_mirror(c: Seq<Piece>, s: int, col: Color)
    requires
        c.len() == 128,
        valid(s),
    ensures
        shield_count(mirror_cells(c), s, col.spec_flip()) == shield_count(c, mirror_sq(s), col),
{
    let mc = mirror_cells(c);
    let fc = col.spec_flip();
    let ms = mirror_sq(s);
    lemma_mirror_square(s);
    let r = shield_rank(s, fc);
    assert(shield_rank(ms, col) == 7 - r);
    let kf = spec_file(s);
    if 0 <= r < 8 {
        assert forall|f: int| 0 <= f < 8 implies (#[trigger] mc[spec_make(r, f)] == Piece::spec_make(fc, PieceKind::Pawn))
            == (c[spec_make(7 - r, f)] == Piece::spec_make(col, PieceKind::Pawn)) by {
            let t = spec_make(r, f);
            assert(valid(t) && spec_rank(t) == r && spec_file(t) == f);
            assert(mirror_sq(t) == spec_make(7 - r, f));
            lemma_target_mirror(c, t, col);
            lemma_flip_piece(c[mirror_sq(t)], fc);
        }
        if 0 <= kf - 1 {
            assert(mc[spec_make(r, kf - 1)] == Piece::spec_make(fc, PieceKind::Pawn)
                <==> c[spec_make(7 - r, kf - 1)] == Piece::spec_make(col, PieceKind::Pawn));
        }
        assert(mc[spec_make(r, kf)] == Piece::spec_make(fc, PieceKind::Pawn)
            <==> c[spec_make(7 - r, kf)] == Piece::spec_make(col, PieceKind::Pawn));
        if kf + 1 < 8 {
            assert(mc[spec_make(r, kf + 1)] == Piece::spec_make(fc, PieceKind::Pawn)
                <==> c[spec_make(7 - r, kf + 1)] == Piece::spec_make(col, PieceKind::Pawn));
        }
    }
}

/// A pawn is passed on the mirror exactly when its reflection is.
proof fn lemma_passed_mirror(c: Seq<Piece>, s: int, col: Color)
    requires
        c.len() == 128,
        valid(s),
    ensures
        passed(mirror_cells(c), s, col.spec_flip()) == passed(c, mirror_sq(s), col),
{
    let mc = mirror_cells(c);
    let fc = col.spec_flip();
    let ms = mirror_sq(s);
    lemma_mirror_square(s);
    assert(fc.spec_flip() == col);
    assert forall|rr: int, ff: int| 0 <= rr < 8 && 0 <= ff < 8 implies (#[trigger] mc[spec_make(rr, ff)]
        == Piece::spec_make(col, PieceKind::Pawn)) == (c[spec_make(7 - rr, ff)] == Piece::spec_make(fc, PieceKind::Pawn)) by {
        let t = spec_make(rr, ff);
        assert(valid(t) && spec_rank(t) == rr && spec_file(t) == ff);
        assert(mirror_sq(t) == spec_make(7 - rr, ff));
        lemma_target_mirror(c, t, col);
        lemma_flip_piece(c[mirror_sq(t)], col);
    }
    if passed(c, ms, col) {
        assert forall|rr: int, ff: int|
            0 <= rr < 8 && 0 <= ff < 8 && spec_file(s) - 1 <= ff <= spec_file(s) + 1 && (match fc {
                Color::White => rr > spec_rank(s),
                Color::Black => rr < spec_rank(s),
            }) implies #[trigger] mc[spec_make(rr, ff)] != Piece::spec_make(fc.spec_flip(), PieceKind::Pawn) by {
            assert(c[spec_make(7 - rr, ff)] != Piece::spec_make(col.spec_flip(), PieceKind::Pawn));
        }
    }
    if passed(mc, s, fc) {
        assert forall|rr: int, ff: int|
            0 <= rr < 8 && 0 <= ff < 8 && spec_file(ms) - 1 <= ff <= spec_file(ms) + 1 && (match col {
                Color::White => rr > spec_rank(ms),
                Color::Black => rr < spec_rank(ms),
            }) implies #[trigger] c[spec_make(rr, ff)] != Piece::spec_make(col.spec_flip(), PieceKind::Pawn) by {
            assert(mc[spec_make(7 - rr, ff)] != Piece::spec_make(fc.spec_flip(), PieceKind::Pawn));
            assert(7 - (7 - rr) == rr);
        }
    }
}

/// The sum of `g` over the first `n` real squares in rank-major order.
pub open spec fn sum_over(g: spec_fn(int) -> int, n: int) -> int
    decreases n,
{
    if n <= 0 {
        0
    } else {
        sum_over(g, n - 1) + g(sq_at(n - 1))
    }
}

/// The sum of `g` over the squares of rank `r`.
pub open spec fn row(g: spec_fn(int) -> int, r: int) -> int {
    g(spec_make(r, 0)) + g(spec_make(r, 1)) + g(spec_make(r, 2)) + g(spec_make(r, 3)) + g(spec_make(r, 4)) + g(
        spec_make(r, 5),
    ) + g(spec_make(r, 6)) + g(spec_make(r, 7))
}

/// The sum over the first `k` ranks.
pub open spec fn rows(g: spec_fn(int) -> int, k: int) -> int
    decreases k,
{
    if k <= 0 {
        0
    } else {
        rows(g, k - 1) + row(g, k - 1)
    }
}

/// The square sum runs rank by rank.
proof fn lemma_sum_rows(g: spec_fn(int) -> int, k: int)
    requires
        0 <= k <= 8,
    ensures
        sum_over(g, 8 * k) == rows(g, k),
    decreases k,
{
    if k > 0 {
        lemma_sum_rows(g, k - 1);
        reveal_with_fuel(sum_over, 9);
        let b = 8 * (k - 1);
        assert forall|j: int| 0 <= j < 8 implies #[trigger] sq_at(b + j) == spec_make(k - 1, j) by {
            assert((b + j) / 8 == k - 1 && (b + j) % 8 == j);
        }
        assert(sum_over(g, 8 * k) == sum_over(g, b) + g(sq_at(b)) + g(sq_at(b + 1)) + g(sq_at(b + 2)) + g(sq_at(b + 3))
            + g(sq_at(b + 4)) + g(sq_at(b + 5)) + g(sq_at(b + 6)) + g(sq_at(b + 7)));
    }
}

/// Summing over the reflected squares gives the same total.
proof fn lemma_sum_mirror(g: spec_fn(int) -> int)
    ensures
        sum_over(|s: int| g(mirror_sq(s)), 64) == sum_over(g, 64),
{
    let h = |s: int| g(mirror_sq(s));
    lemma_sum_rows(g, 8);
    lemma_sum_rows(h, 8);
    assert forall|r: int| 0 <= r < 8 implies #[trigger] row(h, r) == row(g, 7 - r) by {
        assert forall|f: int| 0 <= f < 8 implies #[trigger] mirror_sq(spec_make(r, f)) == spec_make(7 - r, f) by {
            let t = spec_make(r, f);
            assert(spec_rank(t) == r && spec_file(t) == f);
        }
        assert(h(spec_make(r, 0)) == g(spec_make(7 - r, 0)));
        assert(h(spec_make(r, 1)) == g(spec_make(7 - r, 1)));
        assert(h(spec_make(r, 2)) == g(spec_make(7 - r, 2)));
        assert(h(spec_make(r, 3)) == g(spec_make(7 - r, 3)));
        assert(h(spec_make(r, 4)) == g(spec_make(7 - r, 4)));
        assert(h(spec_make(r, 5)) == g(spec_make(7 - r, 5)));
        assert(h(spec_make(r, 6)) == g(spec_make(7 - r, 6)));
        assert(h(spec_make(r, 7)) == g(spec_make(7 - r, 7)));
    }
    reveal_with_fuel(rows, 9);
    assert(row(h, 0) == row(g, 7));
    assert(row(h, 1) == row(g, 6));
    assert(row(h, 2) == row(g, 5));
    assert(row(h, 3) == row(g, 4));
    assert(row(h, 4) == row(g, 3));
    assert(row(h, 5) == row(g, 2));
    assert(row(h, 6) == row(g, 1));
    assert(row(h, 7) == row(g, 0));
}

/// Sums of functions that agree up to sign on the squares agree up to sign.
proof fn lemma_sum_scaled(g1: spec_fn(int) -> int, g2: spec_fn(int) -> int, k: int, n: int)
    requires
        0 <= n <= 64,
        forall|i: int| 0 <= i < n ==> #[trigger] g1(sq_at(i)) == k * g2(sq_at(i)),
    ensures
        sum_over(g1, n) == k * sum_over(g2, n),
    decreases n,
{
    if n > 0 {
        lemma_sum_scaled(g1, g2, k, n - 1);
        assert(g1(sq_at(n - 1)) == k * g2(sq_at(n - 1)));
        let a = sum_over(g2, n - 1);
        let b = g2(sq_at(n - 1));
        assert(sum_over(g2, n) == a + b);
        assert(k * (a + b) == k * a + k * b) by (nonlinear_arith);
    }
}

/// The evaluation's square sums are sums over the squares.
proof fn lemma_sum_sq_over(cells: Seq<Piece>, t: Term, n: int)
    ensures
        sum_sq(cells, t, n) == sum_over(|s: int| sq_term(cells, t, s), n),
    decreases n,
{
    if n > 0 {
        lemma_sum_sq_over(cells, t, n - 1);
    }
}

/// Whether square `s` holds a pawn of `x` on file `f`.
pub open spec fn pawn_on_file(cells: Seq<Piece>, x: Color, f: int, s: int) -> int {
    if cells[s] == Piece::spec_make(x, PieceKind::Pawn) && spec_file(s) == f {
        1
    } else {
        0
    }
}

proof fn lemma_file_sum_over(cells: Seq<Piece>, x: Color, f: int, n: int)
    ensures
        file_sum(cells, x, f, n) == sum_over(|s: int| pawn_on_file(cells, x, f, s), n),
    decreases n,
{
    if n > 0 {
        lemma_file_sum_over(cells, x, f, n - 1);
    }
}

/// The mirror has on each file the other color's pawns.
proof fn lemma_pawn_files_mirror(c: Seq<Piece>, x: Color, f: int)
    requires
        c.len() == 128,
    ensures
        pawn_files(mirror_cells(c), x, f) == pawn_files(c, x.spec_flip(), f),
{
    let mc = mirror_cells(c);
    let g1 = |s: int| pawn_on_file(mc, x, f, s);
    let g2 = |s: int| pawn_on_file(c, x.spec_flip(), f, s);
    let g3 = |s: int| g2(mirror_sq(s));
    lemma_file_sum_over(mc, x, f, 64);
    lemma_file_sum_over(c, x.spec_flip(), f, 64);
    lemma_sq_enum();
    assert forall|i: int| 0 <= i < 64 implies #[trigger] g1(sq_at(i)) == 1 * g3(sq_at(i)) by {
        let t = sq_at(i);
        lemma_mirror_square(t);
        lemma_target_mirror(c, t, x);
        lemma_flip_piece(c[mirror_sq(t)], x);
    }
    lemma_sum_scaled(g1, g3, 1, 64);
    lemma_sum_mirror(g2);
}

/// On the mirror, a square contributes the negation of what its reflection
/// contributes, for the terms that count White positive and Black negative.
proof fn lemma_term_mirror(c: Seq<Piece>, t: Term, s: int)
    requires
        c.len() == 128,
        valid(s),
        !(t is Phase),
        !(t is Bishops),
    ensures
        sq_term(mirror_cells(c), t, s) == -sq_term(c, t, mirror_sq(s)),
{
    let mc = mirror_cells(c);
    let ms = mirror_sq(s);
    lemma_mirror_square(s);
    let y = c[ms];
    assert(mc[s] == flip_piece(y));
    if !y.spec_is_empty() {
        let col = y.spec_color()->0;
        let k = y.spec_kind()->0;
        let fc = col.spec_flip();
        assert(mc[s].spec_color() == Some(fc) && mc[s].spec_kind() == Some(k));
        assert(pst_idx(s, fc) == pst_idx(ms, col));
        let m1 = leaper_count(c, ms, col, 8);
        let m2 = slide_count(c, ms, col, true, 4);
        let m3 = slide_count(c, ms, col, false, 4);
        lemma_leaper_mirror(c, s, col);
        lemma_slide_mirror(c, s, col, true);
        lemma_slide_mirror(c, s, col, false);
        if t is Mobility {
            let w = crate::eval::mobility_weight(k);
            let cnt = match k {
                PieceKind::Knight => m1,
                PieceKind::Bishop => m2,
                PieceKind::Rook => m3,
                PieceKind::Queen => m3 + m2,
                _ => 0,
            };
            assert(sq_term(c, t, ms) == crate::eval::csign(col) * w * cnt);
            assert(sq_term(mc, t, s) == crate::eval::csign(fc) * w * cnt);
            if col == Color::White {
                assert(crate::eval::csign(fc) * w * cnt == -(crate::eval::csign(col) * w * cnt)) by (nonlinear_arith)
                    requires crate::eval::csign(fc) == -1, crate::eval::csign(col) == 1;
            } else {
                assert(crate::eval::csign(fc) * w * cnt == -(crate::eval::csign(col) * w * cnt)) by (nonlinear_arith)
                    requires crate::eval::csign(fc) == 1, crate::eval::csign(col) == -1;
            }
        }
        match t {
            Term::Passed => {
                if k == PieceKind::Pawn {
                    lemma_passed_mirror(c, s, col);
                }
            },
            Term::KingShield => {
                lemma_shield_mirror(c, s, col);
            },
            Term::RookFiles => {
                let f = spec_file(s);
                lemma_pawn_files_mirror(c, fc, f);
                lemma_pawn_files_mirror(c, col, f);
                assert(fc.spec_flip() == col);
                assert(rook_file_bonus_spec(mc, fc, f) == rook_file_bonus_spec(c, col, f));
            },
            _ => {},
        }
    }
}

/// The phase and bishop counts of a square move to its reflection, the
/// bishops to the other color.
proof fn lemma_count_mirror(c: Seq<Piece>, s: int, x: Color)
    requires
        c.len() == 128,
        valid(s),
    ensures
        sq_term(mirror_cells(c), Term::Phase, s) == sq_term(c, Term::Phase, mirror_sq(s)),
        sq_term(mirror_cells(c), Term::Bishops(x), s) == sq_term(c, Term::Bishops(x.spec_flip()), mirror_sq(s)),
{
    lemma_mirror_square(s);
    let y = c[mirror_sq(s)];
    assert(mirror_cells(c)[s] == flip_piece(y));
}

/// Summed over the board, an antisymmetric term changes sign.
proof fn lemma_sum_term_mirror(c: Seq<Piece>, t: Term)
    requires
        c.len() == 128,
        !(t is Phase),
        !(t is Bishops),
    ensures
        sum_sq(mirror_cells(c), t, 64) == -sum_sq(c, t, 64),
{
    let mc = mirror_cells(c);
    let g1 = |s: int| sq_term(mc, t, s);
    let g2 = |s: int| sq_term(c, t, s);
    let g3 = |s: int| g2(mirror_sq(s));
    lemma_sum_sq_over(mc, t, 64);
    lemma_sum_sq_over(c, t, 64);
    lemma_sq_enum();
    assert forall|i: int| 0 <= i < 64 implies #[trigger] g1(sq_at(i)) == -1 * g3(sq_at(i)) by {
        lemma_term_mirror(c, t, sq_at(i));
    }
    lemma_sum_scaled(g1, g3, -1, 64);
    lemma_sum_mirror(g2);
}

/// Summed over the board, the phase is unchanged and the bishop counts swap
/// colors.
proof fn lemma_sum_count_mirror(c: Seq<Piece>, t: Term, x: Color)
    requires
        c.len() == 128,
        t == Term::Phase || t == Term::Bishops(x),
    ensures
        sum_sq(mirror_cells(c), t, 64) == sum_sq(c, if t is Phase { t } else { Term::Bishops(x.spec_flip()) }, 64),
{
    let mc = mirror_cells(c);
    let t2 = if t is Phase { t } else { Term::Bishops(x.spec_flip()) };
    let g1 = |s: int| sq_term(mc, t, s);
    let g2 = |s: int| sq_term(c, t2, s);
    let g3 = |s: int| g2(mirror_sq(s));
    lemma_sum_sq_over(mc, t, 64);
    lemma_sum_sq_over(c, t2, 64);
    lemma_sq_enum();
    assert forall|i: int| 0 <= i < 64 implies #[trigger] g1(sq_at(i)) == 1 * g3(sq_at(i)) by {
        lemma_count_mirror(c, sq_at(i), x);
    }
    lemma_sum_scaled(g1, g3, 1, 64);
    lemma_sum_mirror(g2);
}

/// The doubled-pawn term changes sign on the mirror.
proof fn lemma_doubled_mirror(c: Seq<Piece>, n: int)
    requires
        c.len() == 128,
    ensures
        doubled_sum(mirror_cells(c), n) == -doubled_sum(c, n),
    decreases n,
{
    if n > 0 {
        lemma_doubled_mirror(c, n - 1);
        lemma_pawn_files_mirror(c, Color::White, n - 1);
        lemma_pawn_files_mirror(c, Color::Black, n - 1);
    }
}

/// Mirroring a position negates each evaluation term that
/// [`eval_terms`](crate::eval::eval_terms) reports (see
/// [`terms_spec`](crate::eval::terms_spec)): material, placement, pawn
/// structure, bishop pair, mobility, king safety, and rook files.
pub proof fn lemma_terms_mirror(p: Pos)
    requires
        p.wf(),
    ensures
        sum_sq(mirror_pos(p).cells, Term::Material, 64) == -sum_sq(p.cells, Term::Material, 64),
        sum_sq(mirror_pos(p).cells, Term::Positional, 64) == -sum_sq(p.cells, Term::Positional, 64),
        pawns_spec(mirror_pos(p).cells) == -pawns_spec(p.cells),
        bishop_pair_spec(mirror_pos(p).cells) == -bishop_pair_spec(p.cells),
        sum_sq(mirror_pos(p).cells, Term::Mobility, 64) == -sum_sq(p.cells, Term::Mobility, 64),
        sum_sq(mirror_pos(p).cells, Term::KingShield, 64) == -sum_sq(p.cells, Term::KingShield, 64),
        sum_sq(mirror_pos(p).cells, Term::RookFiles, 64) == -sum_sq(p.cells, Term::RookFiles, 64),
{
    let c = p.cells;
    let mc = mirror_cells(c);
    assert(mirror_pos(p).cells =~= mc);
    lemma_sum_term_mirror(c, Term::Material);
    lemma_sum_term_mirror(c, Term::Positional);
    lemma_sum_term_mirror(c, Term::Passed);
    lemma_sum_term_mirror(c, Term::Mobility);
    lemma_sum_term_mirror(c, Term::KingShield);
    lemma_sum_term_mirror(c, Term::RookFiles);
    lemma_sum_count_mirror(c, Term::Bishops(Color::White), Color::White);
    lemma_sum_count_mirror(c, Term::Bishops(Color::Black), Color::Black);
    lemma_doubled_mirror(c, 8);
    assert(bishop_pair_spec(mc) == -bishop_pair_spec(c));
    assert(pawns_spec(mc) == -pawns_spec(c));
}

/// Mirroring a position (colors swapped, ranks reflected) negates its
/// White-relative evaluation, and so leaves the score for the side to move
/// unchanged: no evaluation term favors either color.
pub proof fn lemma_eval_mirror(p: Pos)
    requires
        p.wf(),
    ensures
        total_spec(mirror_pos(p).cells) == -total_spec(p.cells),
        evaluate_spec(mirror_pos(p)) == evaluate_spec(p),
{
    let c = p.cells;
    let mc = mirror_cells(c);
    assert(mirror_pos(p).cells =~= mc);
    lemma_sum_term_mirror(c, Term::Mg);
    lemma_sum_term_mirror(c, Term::Eg);
    lemma_sum_term_mirror(c, Term::Passed);
    lemma_sum_term_mirror(c, Term::Mobility);
    lemma_sum_term_mirror(c, Term::KingShield);
    lemma_sum_term_mirror(c, Term::RookFiles);
    lemma_sum_count_mirror(c, Term::Phase, Color::White);
    lemma_sum_count_mirror(c, Term::Bishops(Color::White), Color::White);
    lemma_sum_count_mirror(c, Term::Bishops(Color::Black), Color::Black);
    lemma_doubled_mirror(c, 8);
    assert(bishop_pair_spec(mc) == -bishop_pair_spec(c));
    assert(pawns_spec(mc) == -pawns_spec(c));
    assert(phase_spec(mc) == phase_spec(c));
    let extra = bishop_pair_spec(c) + pawns_spec(c) + sum_sq(c, Term::Mobility, 64) + sum_sq(c, Term::KingShield, 64)
        + sum_sq(c, Term::RookFiles, 64);
    let mg = sum_sq(c, Term::Mg, 64) + extra;
    let eg = sum_sq(c, Term::Eg, 64) + extra;
    let ph = phase_spec(c);
    let n = mg * ph + eg * (24 - ph);
    assert((-mg) * ph + (-eg) * (24 - ph) == -n) by (nonlinear_arith)
        requires
            n == mg * ph + eg * (24 - ph),
    ;
    assert(total_spec(c) == tdiv(n, 24));
    assert(total_spec(mc) == tdiv(-n, 24));
    assert(mirror_pos(p).side_white == !p.side_white);
}

} // verus!
