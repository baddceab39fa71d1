//! Attack detection on the `0x88` board: "is square `s` attacked by
//! `color`?", the primitive under check detection, legal-move filtering,
//! and castling legality. Arithmetic is on signed indices guarded by
//! [`square::on_board_i32`], so nothing wraps or panics.

use crate::board::{king_sq, Board, Pos};
use crate::types::square::{self, valid};
use crate::types::{Color, Piece, PieceKind, Sq};
use vstd::prelude::*;

verus! {

/// `0x88` step deltas for a knight (two-then-one in every direction).
pub const KNIGHT_DELTAS: [i32; 8] = [33, 31, 18, 14, -33, -31, -18, -14];

/// `0x88` step deltas for a king (and the eight directions a queen radiates).
pub const KING_DELTAS: [i32; 8] = [16, -16, 1, -1, 17, 15, -17, -15];

/// Orthogonal slider deltas (rook, queen).
pub const ROOK_DELTAS: [i32; 4] = [16, -16, 1, -1];

/// Diagonal slider deltas (bishop, queen).
pub const BISHOP_DELTAS: [i32; 4] = [17, 15, -17, -15];

pub open spec fn knight_d(i: int) -> int {
    if i == 0 {
        33
    } else if i == 1 {
        31
    } else if i == 2 {
        18
    } else if i == 3 {
        14
    } else if i == 4 {
        -33
    } else if i == 5 {
        -31
    } else if i == 6 {
        -18
    } else {
        -14
    }
}

pub open spec fn king_d(i: int) -> int {
    if i == 0 {
        16
    } else if i == 1 {
        -16
    } else if i == 2 {
        1
    } else if i == 3 {
        -1
    } else if i == 4 {
        17
    } else if i == 5 {
        15
    } else if i == 6 {
        -17
    } else {
        -15
    }
}

pub open spec fn rook_d(i: int) -> int {
    if i == 0 {
        16
    } else if i == 1 {
        -16
    } else if i == 2 {
        1
    } else {
        -1
    }
}

pub open spec fn bishop_d(i: int) -> int {
    if i == 0 {
        17
    } else if i == 1 {
        15
    } else if i == 2 {
        -17
    } else {
        -15
    }
}

/// The `i`-th knight delta.
pub fn knight_delta(i: usize) -> (d: i32)
    requires
        i < 8,
    ensures
        d == knight_d(i as int),
{
    if i == 0 {
        33
    } else if i == 1 {
        31
    } else if i == 2 {
        18
    } else if i == 3 {
        14
    } else if i == 4 {
        -33
    } else if i == 5 {
        -31
    } else if i == 6 {
        -18
    } else {
        -14
    }
}

/// The `i`-th king delta.
pub fn king_delta(i: usize) -> (d: i32)
    requires
        i < 8,
    ensures
        d == king_d(i as int),
{
    if i == 0 {
        16
    } else if i == 1 {
        -16
    } else if i == 2 {
        1
    } else if i == 3 {
        -1
    } else if i == 4 {
        17
    } else if i == 5 {
        15
    } else if i == 6 {
        -17
    } else {
        -15
    }
}

/// The `i`-th orthogonal delta.
pub fn rook_delta(i: usize) -> (d: i32)
    requires
        i < 4,
    ensures
        d == rook_d(i as int),
{
    if i == 0 {
        16
    } else if i == 1 {
        -16
    } else if i == 2 {
        1
    } else {
        -1
    }
}

/// The `i`-th diagonal delta.
pub fn bishop_delta(i: usize) -> (d: i32)
    requires
        i < 4,
    ensures
        d == bishop_d(i as int),
{
    if i == 0 {
        17
    } else if i == 1 {
        15
    } else if i == 2 {
        -17
    } else {
        -15
    }
}

/// The first piece met walking from `pos` (inclusive) in steps of `d`
/// while on the board, if any.
pub open spec fn ray_first(cells: Seq<Piece>, pos: int, d: int) -> Option<Piece>
    decreases (if d > 0 {
        128 - pos
    } else {
        pos
    }),
{
    if d == 0 || !valid(pos) {
        None
    } else if !cells[pos].spec_is_empty() {
        Some(cells[pos])
    } else if 0 <= pos + d < 128 {
        ray_first(cells, pos + d, d)
    } else {
        None
    }
}

/// The square of that first piece.
pub open spec fn ray_first_sq(cells: Seq<Piece>, pos: int, d: int) -> Option<int>
    decreases (if d > 0 {
        128 - pos
    } else {
        pos
    }),
{
    if d == 0 || !valid(pos) {
        None
    } else if !cells[pos].spec_is_empty() {
        Some(pos)
    } else if 0 <= pos + d < 128 {
        ray_first_sq(cells, pos + d, d)
    } else {
        None
    }
}

/// A piece `p` stands a leaper's step `d` away from `s`.
pub open spec fn leaper_hit(cells: Seq<Piece>, s: int, d: int, p: Piece) -> bool {
    valid(s + d) && cells[s + d] == p
}

/// Looking from `s` along `d`, the first piece is `a` or `b`.
pub open spec fn slider_hit(cells: Seq<Piece>, s: int, d: int, a: Piece, b: Piece) -> bool {
    match ray_first(cells, s + d, d) {
        Some(q) => q == a || q == b,
        None => false,
    }
}

/// A pawn of `color` attacks `s` (from one rank behind, diagonally).
pub open spec fn pawn_attack(cells: Seq<Piece>, s: int, color: Color) -> bool {
    match color {
        Color::White => leaper_hit(cells, s, -17, Piece::WP) || leaper_hit(cells, s, -15, Piece::WP),
        Color::Black => leaper_hit(cells, s, 17, Piece::BP) || leaper_hit(cells, s, 15, Piece::BP),
    }
}

/// `color` attacks square `s`: a piece of `color` could capture onto `s` if
/// an enemy piece were there (pins and check ignored).
pub open spec fn attacked(cells: Seq<Piece>, s: int, color: Color) -> bool {
    let knight = Piece::spec_make(color, PieceKind::Knight);
    let king = Piece::spec_make(color, PieceKind::King);
    let rook = Piece::spec_make(color, PieceKind::Rook);
    let bishop = Piece::spec_make(color, PieceKind::Bishop);
    let queen = Piece::spec_make(color, PieceKind::Queen);
    ||| pawn_attack(cells, s, color)
    ||| exists|i: int| 0 <= i < 8 && leaper_hit(cells, s, knight_d(i), knight)
    ||| exists|i: int| 0 <= i < 8 && leaper_hit(cells, s, king_d(i), king)
    ||| exists|i: int| 0 <= i < 4 && slider_hit(cells, s, rook_d(i), rook, queen)
    ||| exists|i: int| 0 <= i < 4 && slider_hit(cells, s, bishop_d(i), bishop, queen)
}

/// The king of `color` is attacked (a missing king counts as in check).
pub open spec fn in_check_spec(p: Pos, color: Color) -> bool {
    match king_sq(p, color) {
        Some(k) => attacked(p.cells, k as int, color.spec_flip()),
        None => true,
    }
}

/// `true` if piece `p` stands on `s + d` (a real square).
fn leaper_at(cells: &[Piece; 128], si: i32, d: i32, p: Piece) -> (r: bool)
    requires
        0 <= si < 128,
        -40 <= d <= 40,
    ensures
        r == leaper_hit(cells@, si as int, d as int, p),
{
    let cand = si + d;
    square::on_board_i32(cand) && cells[cand as usize] == p
}

/// The first piece along the ray from `si + d`, and its square.
pub fn ray_scan(cells: &[Piece; 128], si: i32, d: i32) -> (r: Option<(Piece, Sq)>)
    requires
        0 <= si < 128,
        -20 <= d <= 20,
    ensures
        r is Some == ray_first(cells@, si + d, d as int) is Some,
        r is Some == ray_first_sq(cells@, si + d, d as int) is Some,
        r matches Some((p, t)) ==> ray_first(cells@, si + d, d as int) == Some(p)
            && ray_first_sq(cells@, si + d, d as int) == Some(t as int),
{
    if d == 0 {
        return None;
    }
    let mut cand = si + d;
    while square::on_board_i32(cand)
        invariant
            -20 <= d <= 20,
            d != 0,
            -40 <= cand < 160,
            ray_first(cells@, si + d, d as int) == ray_first(cells@, cand as int, d as int),
            ray_first_sq(cells@, si + d, d as int) == ray_first_sq(cells@, cand as int, d as int),
        decreases (if d > 0 {
            160 - cand
        } else {
            cand + 40
        }),
    {
        let p = cells[cand as usize];
        if !p.is_empty() {
            return Some((p, cand as usize));
        }
        if !(0 <= cand + d && cand + d < 128) {
            return None;
        }
        cand = cand + d;
    }
    None
}

fn slider_at(cells: &[Piece; 128], si: i32, d: i32, a: Piece, b: Piece) -> (r: bool)
    requires
        0 <= si < 128,
        -20 <= d <= 20,
    ensures
        r == slider_hit(cells@, si as int, d as int, a, b),
{
    match ray_scan(cells, si, d) {
        Some((p, _)) => p == a || p == b,
        None => false,
    }
}

/// `true` if `color` attacks square `s` in the given position.
pub fn is_square_attacked(board: &Board, s: Sq, color: Color) -> (r: bool)
    requires
        s < 128,
    ensures
        r == attacked(board.cells@, s as int, color),
{
    let si = s as i32;
    let cells = &board.cells;
    let pawn_hit = match color {
        Color::White => leaper_at(cells, si, -17, Piece::WP) || leaper_at(cells, si, -15, Piece::WP),
        Color::Black => leaper_at(cells, si, 17, Piece::BP) || leaper_at(cells, si, 15, Piece::BP),
    };
    if pawn_hit {
        return true;
    }
    let knight = Piece::make(color, PieceKind::Knight);
    let mut i: usize = 0;
    while i < 8
        invariant
            0 <= si < 128,
            cells@ == board.cells@,
            si as int == s as int,
            i <= 8,
            knight == Piece::spec_make(color, PieceKind::Knight),
            forall|j: int| 0 <= j < i ==> !leaper_hit(cells@, si as int, #[trigger] knight_d(j), knight),
        decreases 8 - i,
    {
        if leaper_at(cells, si, knight_delta(i), knight) {
            assert(leaper_hit(cells@, si as int, knight_d(i as int), knight));
            return true;
        }
        i = i + 1;
    }
    let king = Piece::make(color, PieceKind::King);
    let mut i: usize = 0;
    while i < 8
        invariant
            0 <= si < 128,
            cells@ == board.cells@,
            si as int == s as int,
            i <= 8,
            king == Piece::spec_make(color, PieceKind::King),
            forall|j: int| 0 <= j < i ==> !leaper_hit(cells@, si as int, #[trigger] king_d(j), king),
        decreases 8 - i,
    {
        if leaper_at(cells, si, king_delta(i), king) {
            assert(leaper_hit(cells@, si as int, king_d(i as int), king));
            return true;
        }
        i = i + 1;
    }
    let rook = Piece::make(color, PieceKind::Rook);
    let queen = Piece::make(color, PieceKind::Queen);
    let mut i: usize = 0;
    while i < 4
        invariant
            0 <= si < 128,
            cells@ == board.cells@,
            si as int == s as int,
            i <= 4,
            rook == Piece::spec_make(color, PieceKind::Rook),
            queen == Piece::spec_make(color, PieceKind::Queen),
            forall|j: int| 0 <= j < i ==> !slider_hit(cells@, si as int, #[trigger] rook_d(j), rook, queen),
        decreases 4 - i,
    {
        if slider_at(cells, si, rook_delta(i), rook, queen) {
            assert(slider_hit(cells@, si as int, rook_d(i as int), rook, queen));
            return true;
        }
        i = i + 1;
    }
    let bishop = Piece::make(color, PieceKind::Bishop);
    let mut i: usize = 0;
    while i < 4
        invariant
            0 <= si < 128,
            cells@ == board.cells@,
            si as int == s as int,
            i <= 4,
            bishop == Piece::spec_make(color, PieceKind::Bishop),
            queen == Piece::spec_make(color, PieceKind::Queen),
            forall|j: int| 0 <= j < i ==> !slider_hit(cells@, si as int, #[trigger] bishop_d(j), bishop, queen),
        decreases 4 - i,
    {
        if slider_at(cells, si, bishop_delta(i), bishop, queen) {
            assert(slider_hit(cells@, si as int, bishop_d(i as int), bishop, queen));
            return true;
        }
        i = i + 1;
    }
    false
}

/// `true` if the king of `color` is currently in check (a missing king
/// counts as in check, so that lines losing it are pruned).
pub fn in_check(board: &Board, color: Color) -> (r: bool)
    ensures
        r == in_check_spec(board.pos(), color),
{
    match board.king_square(color) {
        Some(k) => {
            proof {
                crate::types::square::lemma_sq_enum();
            }
            is_square_attacked(board, k, color.flip())
        },
        None => true,
    }
}

} // verus!
