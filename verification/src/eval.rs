//! Static evaluation.
//!
//! A tapered evaluation on the PeSTO piece-square tables: a middlegame and an
//! endgame score are accumulated and blended by the material left (the game
//! phase). On top come a bishop-pair bonus, doubled- and passed-pawn terms,
//! mobility, a king pawn shield, rook file bonuses, and a tempo bonus.
//! Scores are centipawns; [`evaluate`] is relative to the side to move.

pub mod pst;
pub mod symmetry;

use crate::attacks::{bishop_d, bishop_delta, knight_d, knight_delta, rook_d, rook_delta};
use crate::board::Board;
use crate::movegen::target_ok;
use crate::types::square::{self, idx_of, sq_at, spec_file, spec_rank, valid};
use crate::types::{Color, Piece, PieceKind, Sq};
use pst::{eg_pst, eg_table, mg_pst, mg_table};
use vstd::prelude::*;

verus! {

/// Bonus for holding both bishops.
pub const BISHOP_PAIR: i32 = 30;
/// Penalty per extra pawn on a file.
pub const DOUBLED_PAWN: i32 = 12;
/// Base bonus for a passed pawn (plus 8 per rank advanced).
pub const PASSED_PAWN_BASE: i32 = 15;
/// Bonus for having the move.
pub const TEMPO: i32 = 10;
/// The phase of the full starting material.
pub const TOTAL_PHASE: i32 = 24;
/// Bonus per friendly pawn shielding the king.
pub const KING_SHIELD: i32 = 9;
/// Bonus for a rook on a file without pawns.
pub const ROOK_OPEN_FILE: i32 = 18;
/// Bonus for a rook on a file without friendly pawns.
pub const ROOK_SEMI_OPEN_FILE: i32 = 9;

/// Score of a checkmate (shortened by the distance in the search).
pub const MATE: i32 = 30_000;
/// Scores beyond this are forced mates.
pub const MATE_THRESHOLD: i32 = 29_000;

pub open spec fn mg_value(k: PieceKind) -> int {
    match k {
        PieceKind::Pawn => 82,
        PieceKind::Knight => 337,
        PieceKind::Bishop => 365,
        PieceKind::Rook => 477,
        PieceKind::Queen => 1025,
        PieceKind::King => 0,
    }
}

pub open spec fn eg_value(k: PieceKind) -> int {
    match k {
        PieceKind::Pawn => 94,
        PieceKind::Knight => 281,
        PieceKind::Bishop => 297,
        PieceKind::Rook => 512,
        PieceKind::Queen => 936,
        PieceKind::King => 0,
    }
}

pub open spec fn phase_weight(k: PieceKind) -> int {
    match k {
        PieceKind::Knight | PieceKind::Bishop => 1,
        PieceKind::Rook => 2,
        PieceKind::Queen => 4,
        _ => 0,
    }
}

/// Mobility weight per reachable square.
pub open spec fn mobility_weight(k: PieceKind) -> int {
    match k {
        PieceKind::Knight | PieceKind::Bishop => 4,
        PieceKind::Rook => 2,
        PieceKind::Queen => 1,
        _ => 0,
    }
}

fn mg_value_of(k: PieceKind) -> (r: i32)
    ensures
        r == mg_value(k),
{
    match k {
        PieceKind::Pawn => 82,
        PieceKind::Knight => 337,
        PieceKind::Bishop => 365,
        PieceKind::Rook => 477,
        PieceKind::Queen => 1025,
        PieceKind::King => 0,
    }
}

fn eg_value_of(k: PieceKind) -> (r: i32)
    ensures
        r == eg_value(k),
{
    match k {
        PieceKind::Pawn => 94,
        PieceKind::Knight => 281,
        PieceKind::Bishop => 297,
        PieceKind::Rook => 512,
        PieceKind::Queen => 936,
        PieceKind::King => 0,
    }
}

fn phase_weight_of(k: PieceKind) -> (r: i32)
    ensures
        r == phase_weight(k),
{
    match k {
        PieceKind::Knight | PieceKind::Bishop => 1,
        PieceKind::Rook => 2,
        PieceKind::Queen => 4,
        _ => 0,
    }
}

/// The table index of a piece of color `c` on square `s`: the square's
/// `0..64` index, flipped vertically for White.
pub open spec fn pst_idx(s: int, c: Color) -> int {
    match c {
        Color::White => (7 - spec_rank(s)) * 8 + spec_file(s),
        Color::Black => spec_rank(s) * 8 + spec_file(s),
    }
}

/// The `0..64` index of a real square.
fn sq64(s: Sq) -> (r: usize)
    requires
        valid(s as int),
    ensures
        r == idx_of(s as int),
        r < 64,
{
    (square::rank(s) * 8 + square::file(s)) as usize
}

/// The table index of a piece of color `c` on the `0..64` square `i`.
fn pst_index(i: usize, c: Color, s: Ghost<int>) -> (r: usize)
    requires
        i < 64,
        i == idx_of(s@),
        valid(s@),
    ensures
        r == pst_idx(s@, c),
        r < 64,
{
    match c {
        Color::White => {
            let r = i ^ 56;
            assert(i < 64 ==> i ^ 56 == (7 - i / 8) * 8 + i % 8) by (bit_vector);
            r
        },
        Color::Black => i,
    }
}

/// The quantities summed square by square.
pub enum Term {
    Material,
    Positional,
    Mg,
    Eg,
    Phase,
    Bishops(Color),
    Passed,
    Mobility,
    KingShield,
    RookFiles,
}

/// White counts positive, Black negative.
pub open spec fn csign(c: Color) -> int {
    match c {
        Color::White => 1,
        Color::Black => -1,
    }
}

/// The number of the `n` steps along `d` from `s` that land on real squares
/// empty or held by the enemy of `c` (a knight's targets).
pub open spec fn leaper_count(cells: Seq<Piece>, s: int, c: Color, n: int) -> int
    decreases n,
{
    if n <= 0 {
        0
    } else {
        leaper_count(cells, s, c, n - 1) + if valid(s + knight_d(n - 1)) && target_ok(
            cells,
            s + knight_d(n - 1),
            c,
        ) {
            1int
        } else {
            0int
        }
    }
}

/// The squares a slider of `c` reaches from `pos` on along `d`: the empty
/// ones, plus the first piece if it is an enemy.
pub open spec fn ray_count(cells: Seq<Piece>, pos: int, d: int, c: Color) -> int
    decreases (if d > 0 {
        128 - pos
    } else {
        pos
    }),
{
    if d == 0 || !valid(pos) {
        0
    } else if cells[pos].spec_is_empty() {
        if 0 <= pos + d < 128 {
            1 + ray_count(cells, pos + d, d, c)
        } else {
            1
        }
    } else if cells[pos].spec_is_color(c.spec_flip()) {
        1
    } else {
        0
    }
}

/// The squares reached along the first `n` bishop (or rook) directions.
pub open spec fn slide_count(cells: Seq<Piece>, s: int, c: Color, bishop: bool, n: int) -> int
    decreases n,
{
    if n <= 0 {
        0
    } else {
        let d = if bishop {
            bishop_d(n - 1)
        } else {
            rook_d(n - 1)
        };
        slide_count(cells, s, c, bishop, n - 1) + ray_count(cells, s + d, d, c)
    }
}

/// The rank in front of a king of color `c` (for its pawn shield).
pub open spec fn shield_rank(s: int, c: Color) -> int {
    match c {
        Color::White => spec_rank(s) + 1,
        Color::Black => spec_rank(s) - 1,
    }
}

/// Friendly pawns on the three files around the king, one rank ahead.
pub open spec fn shield_count(cells: Seq<Piece>, s: int, c: Color) -> int {
    let r = shield_rank(s, c);
    let kf = spec_file(s);
    let pawn = Piece::spec_make(c, PieceKind::Pawn);
    if r < 0 || r >= 8 {
        0
    } else {
        (if 0 <= kf - 1 && cells[square::spec_make(r, kf - 1)] == pawn {
            1int
        } else {
            0int
        }) + (if cells[square::spec_make(r, kf)] == pawn {
            1int
        } else {
            0int
        }) + (if kf + 1 < 8 && cells[square::spec_make(r, kf + 1)] == pawn {
            1int
        } else {
            0int
        })
    }
}

/// A pawn of `c` on `s` with no enemy pawn ahead on its own or an adjacent
/// file.
pub open spec fn passed(cells: Seq<Piece>, s: int, c: Color) -> bool {
    let enemy = Piece::spec_make(c.spec_flip(), PieceKind::Pawn);
    forall|rr: int, ff: int|
        0 <= rr < 8 && 0 <= ff < 8 && spec_file(s) - 1 <= ff <= spec_file(s) + 1 && (match c {
            Color::White => rr > spec_rank(s),
            Color::Black => rr < spec_rank(s),
        }) ==> #[trigger] cells[square::spec_make(rr, ff)] != enemy
}

/// The pawns of `c` on file `f` among the first `n` squares in rank-major
/// order.
pub open spec fn file_sum(cells: Seq<Piece>, c: Color, f: int, n: int) -> int
    decreases n,
{
    if n <= 0 {
        0
    } else {
        file_sum(cells, c, f, n - 1) + if cells[sq_at(n - 1)] == Piece::spec_make(c, PieceKind::Pawn)
            && spec_file(sq_at(n - 1)) == f {
            1int
        } else {
            0int
        }
    }
}

/// The pawns of `c` on file `f`.
pub open spec fn pawn_files(cells: Seq<Piece>, c: Color, f: int) -> int {
    file_sum(cells, c, f, 64)
}

/// The rook file bonus of a rook of `c` on file `f`.
pub open spec fn rook_file_bonus_spec(cells: Seq<Piece>, c: Color, f: int) -> int {
    let own = pawn_files(cells, c, f);
    let enemy = pawn_files(cells, c.spec_flip(), f);
    if own == 0 && enemy == 0 {
        18
    } else if own == 0 {
        9
    } else {
        0
    }
}

/// The contribution of square `s` to a summed quantity.
pub open spec fn sq_term(cells: Seq<Piece>, t: Term, s: int) -> int {
    let p = cells[s];
    match (p.spec_color(), p.spec_kind()) {
        (Some(c), Some(k)) => match t {
            Term::Material => csign(c) * mg_value(k),
            Term::Positional => csign(c) * mg_table(k)[pst_idx(s, c)],
            Term::Mg => csign(c) * (mg_value(k) + mg_table(k)[pst_idx(s, c)]),
            Term::Eg => csign(c) * (eg_value(k) + eg_table(k)[pst_idx(s, c)]),
            Term::Phase => phase_weight(k),
            Term::Bishops(bc) => if c == bc && k == PieceKind::Bishop {
                1
            } else {
                0
            },
            Term::Passed => if k == PieceKind::Pawn && passed(cells, s, c) {
                match c {
                    Color::White => 15 + spec_rank(s) * 8,
                    Color::Black => -(15 + (7 - spec_rank(s)) * 8),
                }
            } else {
                0
            },
            Term::Mobility => csign(c) * mobility_weight(k) * match k {
                PieceKind::Knight => leaper_count(cells, s, c, 8),
                PieceKind::Bishop => slide_count(cells, s, c, true, 4),
                PieceKind::Rook => slide_count(cells, s, c, false, 4),
                PieceKind::Queen => slide_count(cells, s, c, false, 4) + slide_count(
                    cells,
                    s,
                    c,
                    true,
                    4,
                ),
                _ => 0,
            },
            Term::KingShield => if k == PieceKind::King {
                csign(c) * shield_count(cells, s, c) * 9
            } else {
                0
            },
            Term::RookFiles => if k == PieceKind::Rook {
                csign(c) * rook_file_bonus_spec(cells, c, spec_file(s))
            } else {
                0
            },
        },
        _ => 0,
    }
}

/// The sum of a quantity over the first `n` squares in rank-major order.
pub open spec fn sum_sq(cells: Seq<Piece>, t: Term, n: int) -> int
    decreases n,
{
    if n <= 0 {
        0
    } else {
        sum_sq(cells, t, n - 1) + sq_term(cells, t, sq_at(n - 1))
    }
}

/// The doubled-pawn penalty over the first `n` files, White's view.
pub open spec fn doubled_sum(cells: Seq<Piece>, n: int) -> int
    decreases n,
{
    if n <= 0 {
        0
    } else {
        let w = pawn_files(cells, Color::White, n - 1);
        let b = pawn_files(cells, Color::Black, n - 1);
        doubled_sum(cells, n - 1) - (if w > 1 {
            (w - 1) * 12
        } else {
            0
        }) + (if b > 1 {
            (b - 1) * 12
        } else {
            0
        })
    }
}

/// The evaluation terms, each from White's view.
#[derive(Clone, Copy, Debug, Default)]
pub struct EvalTerms {
    pub material: i32,
    pub positional: i32,
    pub pawns: i32,
    pub bishop_pair: i32,
    pub mobility: i32,
    pub king_safety: i32,
    pub rook_files: i32,
    pub total: i32,
}

/// Truncating division (as the machine divides), for a positive divisor.
pub open spec fn tdiv(a: int, b: int) -> int {
    if a >= 0 {
        a / b
    } else {
        -((-a) / b)
    }
}

pub open spec fn bishop_pair_spec(cells: Seq<Piece>) -> int {
    (if sum_sq(cells, Term::Bishops(Color::White), 64) >= 2 {
        30int
    } else {
        0int
    }) - (if sum_sq(cells, Term::Bishops(Color::Black), 64) >= 2 {
        30int
    } else {
        0int
    })
}

pub open spec fn pawns_spec(cells: Seq<Piece>) -> int {
    doubled_sum(cells, 8) + sum_sq(cells, Term::Passed, 64)
}

pub open spec fn phase_spec(cells: Seq<Piece>) -> int {
    let ph = sum_sq(cells, Term::Phase, 64);
    if ph < 24 {
        ph
    } else {
        24
    }
}

/// The blended total, White's view.
pub open spec fn total_spec(cells: Seq<Piece>) -> int {
    let extra = bishop_pair_spec(cells) + pawns_spec(cells) + sum_sq(cells, Term::Mobility, 64)
        + sum_sq(cells, Term::KingShield, 64) + sum_sq(cells, Term::RookFiles, 64);
    let mg = sum_sq(cells, Term::Mg, 64) + extra;
    let eg = sum_sq(cells, Term::Eg, 64) + extra;
    let ph = phase_spec(cells);
    tdiv(mg * ph + eg * (24 - ph), 24)
}

/// The terms [`eval_terms`] reports for the cells `cells`.
pub open spec fn terms_spec(cells: Seq<Piece>) -> EvalTerms {
    EvalTerms {
        material: sum_sq(cells, Term::Material, 64) as i32,
        positional: sum_sq(cells, Term::Positional, 64) as i32,
        pawns: pawns_spec(cells) as i32,
        bishop_pair: bishop_pair_spec(cells) as i32,
        mobility: sum_sq(cells, Term::Mobility, 64) as i32,
        king_safety: sum_sq(cells, Term::KingShield, 64) as i32,
        rook_files: sum_sq(cells, Term::RookFiles, 64) as i32,
        total: total_spec(cells) as i32,
    }
}

/// The evaluation relative to the side to move (tempo included).
pub open spec fn evaluate_spec(p: crate::board::Pos) -> int {
    let s = csign(p.side());
    (total_spec(p.cells) + 10 * s) * s
}


/// A ray never counts more than eight squares.
proof fn lemma_ray_bound(cells: Seq<Piece>, pos: int, d: int, c: Color)
    requires
        d == 16 || d == -16 || d == 1 || d == -1 || d == 17 || d == -17 || d == 15 || d == -15,
    ensures
        0 <= ray_count(cells, pos, d, c),
        valid(pos) && (d == 16 || d == 17 || d == 15) ==> ray_count(cells, pos, d, c) <= 8 - spec_rank(pos),
        valid(pos) && (d == -16 || d == -17 || d == -15) ==> ray_count(cells, pos, d, c) <= spec_rank(pos) + 1,
        valid(pos) && d == 1 ==> ray_count(cells, pos, d, c) <= 8 - spec_file(pos),
        valid(pos) && d == -1 ==> ray_count(cells, pos, d, c) <= spec_file(pos) + 1,
        ray_count(cells, pos, d, c) <= 8,
    decreases (if d > 0 {
        128 - pos
    } else {
        pos
    }),
{
    if valid(pos) && cells[pos].spec_is_empty() && 0 <= pos + d < 128 {
        lemma_ray_bound(cells, pos + d, d, c);
        if valid(pos + d) {
            assert(spec_rank(pos + d) == spec_rank(pos) + (if d == 16 || d == 17 || d == 15 { 1int } else if d == 1 || d == -1 { 0int } else { -1int }));
            assert(spec_file(pos + d) == spec_file(pos) + (if d == 1 || d == 17 || d == -15 { 1int } else if d == 16 || d == -16 { 0int } else { -1int }));
        }
    }
}

/// The slide counts are small.
proof fn lemma_slide_bound(cells: Seq<Piece>, s: int, c: Color, bishop: bool, n: int)
    requires
        0 <= n <= 4,
    ensures
        0 <= slide_count(cells, s, c, bishop, n) <= 8 * n,
    decreases n,
{
    if n > 0 {
        lemma_slide_bound(cells, s, c, bishop, n - 1);
        let d = if bishop {
            bishop_d(n - 1)
        } else {
            rook_d(n - 1)
        };
        lemma_ray_bound(cells, s + d, d, c);
    }
}

/// The number of knight targets (empty or enemy squares) from `s`.
fn leaper_mobility(board: &Board, s: Sq, color: Color) -> (r: i32)
    requires
        valid(s as int),
    ensures
        r == leaper_count(board.cells@, s as int, color, 8),
        0 <= r <= 8,
{
    let si = s as i32;
    let mut count: i32 = 0;
    let mut i: usize = 0;
    while i < 8
        invariant
            i <= 8,
            si == s,
            valid(s as int),
            count == leaper_count(board.cells@, s as int, color, i as int),
            0 <= count <= i,
        decreases 8 - i,
    {
        let t = si + knight_delta(i);
        if square::on_board_i32(t) {
            let p = board.cells[t as usize];
            if p.is_empty() || p.is_color(color.flip()) {
                count = count + 1;
            }
        }
        i = i + 1;
    }
    count
}

/// The squares a slider reaches from `s` along `d`.
fn ray_mobility(board: &Board, s: Sq, color: Color, d: i32) -> (r: i32)
    requires
        valid(s as int),
        d == 16 || d == -16 || d == 1 || d == -1 || d == 17 || d == -17 || d == 15 || d == -15,
    ensures
        r == ray_count(board.cells@, s + d, d as int, color),
{
    let mut t = s as i32 + d;
    let mut count: i32 = 0;
    proof {
        lemma_ray_bound(board.cells@, s + d, d as int, color);
    }
    while square::on_board_i32(t)
        invariant
            d == 16 || d == -16 || d == 1 || d == -1 || d == 17 || d == -17 || d == 15 || d == -15,
            -40 <= t < 160,
            0 <= count <= 8,
            count + ray_count(board.cells@, t as int, d as int, color) == ray_count(board.cells@, s + d, d as int, color),
            ray_count(board.cells@, s + d, d as int, color) <= 8,
        decreases (if d > 0 {
            160 - t
        } else {
            t + 40
        }),
    {
        proof {
            lemma_ray_bound(board.cells@, t as int, d as int, color);
        }
        let p = board.cells[t as usize];
        if p.is_empty() {
            count = count + 1;
            t = t + d;
            proof {
                lemma_ray_bound(board.cells@, t as int, d as int, color);
            }
        } else {
            if p.is_color(color.flip()) {
                count = count + 1;
            }
            return count;
        }
    }
    count
}

/// The squares a bishop (or rook) of `color` reaches from `s`.
fn slider_mobility(board: &Board, s: Sq, color: Color, bishop: bool) -> (r: i32)
    requires
        valid(s as int),
    ensures
        r == slide_count(board.cells@, s as int, color, bishop, 4),
        0 <= r <= 32,
{
    let mut count: i32 = 0;
    let mut i: usize = 0;
    while i < 4
        invariant
            i <= 4,
            valid(s as int),
            count == slide_count(board.cells@, s as int, color, bishop, i as int),
            0 <= count <= 8 * i,
        decreases 4 - i,
    {
        let d = if bishop {
            bishop_delta(i)
        } else {
            rook_delta(i)
        };
        proof {
            lemma_ray_bound(board.cells@, s + d, d as int, color);
        }
        count = count + ray_mobility(board, s, color, d);
        i = i + 1;
    }
    count
}

/// The pawn counts per color and file: index `color * 8 + file`.
pub open spec fn files_ok(files: Seq<i32>, cells: Seq<Piece>) -> bool {
    files_upto(files, cells, 64)
}

/// `files` holds the pawn counts per color and file over the first `n`
/// squares: index `color * 8 + file`.
pub open spec fn files_upto(files: Seq<i32>, cells: Seq<Piece>, n: int) -> bool {
    &&& files.len() == 16
    &&& forall|g: int| 0 <= g < 16 ==> #[trigger] files[g] == file_sum(
        cells,
        if g < 8 {
            Color::White
        } else {
            Color::Black
        },
        g % 8,
        n,
    )
}

/// The rook bonus on file `file`: open, semi-open, or none.
fn rook_file_bonus(files: &Vec<i32>, color: Color, file: usize, cells: Ghost<Seq<Piece>>) -> (r: i32)
    requires
        files_ok(files@, cells@),
        file < 8,
    ensures
        r == rook_file_bonus_spec(cells@, color, file as int),
{
    let own = files[color.index() * 8 + file];
    let enemy = files[color.flip().index() * 8 + file];
    assert(files@[file as int] == pawn_files(cells@, Color::White, file as int));
    assert(files@[8 + file as int] == pawn_files(cells@, Color::Black, file as int));
    if own == 0 && enemy == 0 {
        ROOK_OPEN_FILE
    } else if own == 0 {
        ROOK_SEMI_OPEN_FILE
    } else {
        0
    }
}

/// Friendly pawns in front of the king on `king_sq`, times the shield bonus.
fn king_shield(board: &Board, king_sq: Sq, color: Color) -> (r: i32)
    requires
        valid(king_sq as int),
    ensures
        r == shield_count(board.cells@, king_sq as int, color) * 9,
        0 <= r <= 27,
{
    let pawn = Piece::make(color, PieceKind::Pawn);
    let dir: i32 = match color {
        Color::White => 1,
        Color::Black => -1,
    };
    let rank = square::rank(king_sq) + dir;
    if rank < 0 || rank >= 8 {
        return 0;
    }
    let kf = square::file(king_sq);
    let mut count: i32 = 0;
    if kf - 1 >= 0 && board.cells[square::make(rank, kf - 1)] == pawn {
        count = count + 1;
    }
    if board.cells[square::make(rank, kf)] == pawn {
        count = count + 1;
    }
    if kf + 1 < 8 && board.cells[square::make(rank, kf + 1)] == pawn {
        count = count + 1;
    }
    count * KING_SHIELD
}

/// `true` if the pawn of `color` on `s` has no enemy pawn ahead on its own
/// or an adjacent file.
fn is_passed(board: &Board, s: Sq, color: Color) -> (r: bool)
    requires
        valid(s as int),
    ensures
        r == passed(board.cells@, s as int, color),
{
    let file = square::file(s);
    let rank = square::rank(s);
    let enemy = Piece::make(color.flip(), PieceKind::Pawn);
    let (lo, hi): (i32, i32) = match color {
        Color::White => (rank + 1, 8),
        Color::Black => (0, rank),
    };
    let mut rr = lo;
    while rr < hi
        invariant
            lo <= rr <= hi || (lo > hi && rr == lo),
            0 <= lo && hi <= 8,
            file == spec_file(s as int),
            rank == spec_rank(s as int),
            0 <= file < 8,
            enemy == Piece::spec_make(color.spec_flip(), PieceKind::Pawn),
            lo == (match color {
                Color::White => rank + 1,
                Color::Black => 0int,
            }),
            hi == (match color {
                Color::White => 8int,
                Color::Black => rank as int,
            }),
            forall|r2: int, ff: int|
                lo <= r2 < rr && 0 <= ff < 8 && file - 1 <= ff <= file + 1 ==> #[trigger] board.cells@[square::spec_make(r2, ff)] != enemy,
        decreases hi - rr,
    {
        let mut ff = file - 1;
        while ff <= file + 1
            invariant
                file - 1 <= ff <= file + 2,
                0 <= file < 8,
                lo <= rr < hi,
                file == spec_file(s as int),
                rank == spec_rank(s as int),
                enemy == Piece::spec_make(color.spec_flip(), PieceKind::Pawn),
                lo == (match color {
                    Color::White => rank + 1,
                    Color::Black => 0int,
                }),
                hi == (match color {
                    Color::White => 8int,
                    Color::Black => rank as int,
                }),
                0 <= lo && hi <= 8,
                forall|r2: int, f2: int|
                    lo <= r2 < rr && 0 <= f2 < 8 && file - 1 <= f2 <= file + 1 ==> #[trigger] board.cells@[square::spec_make(r2, f2)] != enemy,
                forall|f2: int|
                    file - 1 <= f2 < ff && 0 <= f2 < 8 ==> #[trigger] board.cells@[square::spec_make(rr as int, f2)] != enemy,
            decreases file + 2 - ff,
        {
            if 0 <= ff && ff < 8 && board.cells[square::make(rr, ff)] == enemy {
                proof {
                    assert(board.cells@[square::spec_make(rr as int, ff as int)] == enemy);
                    assert(!passed(board.cells@, s as int, color));
                }
                return false;
            }
            ff = ff + 1;
        }
        rr = rr + 1;
    }
    true
}


proof fn lemma_file_sum_bound(cells: Seq<Piece>, c: Color, f: int, n: int)
    requires
        0 <= n,
    ensures
        0 <= file_sum(cells, c, f, n) <= n,
    decreases n,
{
    if n > 0 {
        lemma_file_sum_bound(cells, c, f, n - 1);
    }
}

/// Doubled-pawn penalty plus passed-pawn bonus, from White's view.
fn pawn_structure(board: &Board, files: &Vec<i32>) -> (r: i32)
    requires
        files_ok(files@, board.cells@),
    ensures
        r == pawns_spec(board.cells@),
        -20000 <= r <= 20000,
{
    let ghost cells = board.cells@;
    let mut score: i32 = 0;
    let mut f: usize = 0;
    while f < 8
        invariant
            f <= 8,
            cells == board.cells@,
            files_ok(files@, cells),
            score == doubled_sum(cells, f as int),
            -1536 * f <= score <= 1536 * f,
        decreases 8 - f,
    {
        let w = files[f];
        let b = files[8 + f];
        assert(files@[f as int] == pawn_files(cells, Color::White, f as int));
        assert(files@[8 + f as int] == pawn_files(cells, Color::Black, f as int));
        proof {
            lemma_file_sum_bound(cells, Color::White, f as int, 64);
            lemma_file_sum_bound(cells, Color::Black, f as int, 64);
        }
        if w > 1 {
            score = score - (w - 1) * DOUBLED_PAWN;
        }
        if b > 1 {
            score = score + (b - 1) * DOUBLED_PAWN;
        }
        f = f + 1;
    }
    let ghost base = score as int;
    let mut i: usize = 0;
    while i < 64
        invariant
            i <= 64,
            cells == board.cells@,
            base == doubled_sum(cells, 8),
            -1536 * 8 <= base <= 1536 * 8,
            score == base + sum_sq(cells, Term::Passed, i as int),
            base - 71 * i <= score <= base + 71 * i,
        decreases 64 - i,
    {
        let s = square::nth_square(i);
        let p = board.cells[s];
        let r = square::rank(s);
        match (p.color(), p.kind()) {
            (Some(Color::White), Some(PieceKind::Pawn)) => {
                if is_passed(board, s, Color::White) {
                    score = score + PASSED_PAWN_BASE + r * 8;
                }
            },
            (Some(Color::Black), Some(PieceKind::Pawn)) => {
                if is_passed(board, s, Color::Black) {
                    score = score - (PASSED_PAWN_BASE + (7 - r) * 8);
                }
            },
            _ => {},
        }
        i = i + 1;
    }
    score
}

/// Mobility, king shield, and rook file terms, from White's view.
fn positional_extras(board: &Board, files: &Vec<i32>) -> (r: (i32, i32, i32))
    requires
        files_ok(files@, board.cells@),
    ensures
        r.0 == sum_sq(board.cells@, Term::Mobility, 64),
        r.1 == sum_sq(board.cells@, Term::KingShield, 64),
        r.2 == sum_sq(board.cells@, Term::RookFiles, 64),
        -8192 <= r.0 <= 8192,
        -1728 <= r.1 <= 1728,
        -1152 <= r.2 <= 1152,
{
    let ghost cells = board.cells@;
    let mut mobility: i32 = 0;
    let mut king_safety: i32 = 0;
    let mut rook_files: i32 = 0;
    let mut i: usize = 0;
    while i < 64
        invariant
            i <= 64,
            cells == board.cells@,
            files_ok(files@, cells),
            mobility == sum_sq(cells, Term::Mobility, i as int),
            king_safety == sum_sq(cells, Term::KingShield, i as int),
            rook_files == sum_sq(cells, Term::RookFiles, i as int),
            -128 * i <= mobility <= 128 * i,
            -27 * i <= king_safety <= 27 * i,
            -18 * i <= rook_files <= 18 * i,
        decreases 64 - i,
    {
        let s = square::nth_square(i);
        let p = board.cells[s];
        match (p.color(), p.kind()) {
            (Some(c), Some(k)) => {
                let white = match c {
                    Color::White => true,
                    Color::Black => false,
                };
                match k {
                    PieceKind::Knight => {
                        let n = leaper_mobility(board, s, c);
                        let m = 4 * n;
                        assert(sq_term(cells, Term::Mobility, s as int) == csign(c) * 4 * n);
                        assert(csign(c) * 4 * n == if white { m as int } else { -m }) by (nonlinear_arith)
                            requires
                                white ==> csign(c) == 1,
                                !white ==> csign(c) == -1,
                                m == 4 * n;
                        mobility = if white {
                            mobility + m
                        } else {
                            mobility - m
                        };
                    },
                    PieceKind::Bishop => {
                        let n = slider_mobility(board, s, c, true);
                        let m = 4 * n;
                        assert(sq_term(cells, Term::Mobility, s as int) == csign(c) * 4 * n);
                        assert(csign(c) * 4 * n == if white { m as int } else { -m }) by (nonlinear_arith)
                            requires
                                white ==> csign(c) == 1,
                                !white ==> csign(c) == -1,
                                m == 4 * n;
                        mobility = if white {
                            mobility + m
                        } else {
                            mobility - m
                        };
                    },
                    PieceKind::Rook => {
                        let n = slider_mobility(board, s, c, false);
                        let m = 2 * n;
                        assert(sq_term(cells, Term::Mobility, s as int) == csign(c) * 2 * n);
                        assert(csign(c) * 2 * n == if white { m as int } else { -m }) by (nonlinear_arith)
                            requires
                                white ==> csign(c) == 1,
                                !white ==> csign(c) == -1,
                                m == 2 * n;
                        mobility = if white {
                            mobility + m
                        } else {
                            mobility - m
                        };
                        let bonus = rook_file_bonus(files, c, square::file(s) as usize, Ghost(cells));
                        rook_files = if white {
                            rook_files + bonus
                        } else {
                            rook_files - bonus
                        };
                    },
                    PieceKind::Queen => {
                        let m = slider_mobility(board, s, c, false) + slider_mobility(board, s, c, true);
                        assert(sq_term(cells, Term::Mobility, s as int) == csign(c) * 1 * m);
                        assert(csign(c) * 1 * m == if white { m as int } else { -m }) by (nonlinear_arith)
                            requires
                                white ==> csign(c) == 1,
                                !white ==> csign(c) == -1;
                        mobility = if white {
                            mobility + m
                        } else {
                            mobility - m
                        };
                    },
                    PieceKind::King => {
                        let ks = king_shield(board, s, c);
                        assert(sq_term(cells, Term::KingShield, s as int) == csign(c) * shield_count(cells, s as int, c) * 9);
                        assert(csign(c) * shield_count(cells, s as int, c) * 9 == if white { ks as int } else { -ks }) by (nonlinear_arith)
                            requires
                                white ==> csign(c) == 1,
                                !white ==> csign(c) == -1,
                                ks == shield_count(cells, s as int, c) * 9;
                        king_safety = if white {
                            king_safety + ks
                        } else {
                            king_safety - ks
                        };
                    },
                    PieceKind::Pawn => {},
                }
            },
            _ => {},
        }
        i = i + 1;
    }
    (mobility, king_safety, rook_files)
}

/// The per-square terms of `s`: material, positional, middlegame,
/// endgame, phase, and the white and black bishop counts.
fn square_terms(board: &Board, s: Sq) -> (r: (i32, i32, i32, i32, i32, i32, i32))
    requires
        valid(s as int),
    ensures
        r.0 == sq_term(board.cells@, Term::Material, s as int),
        r.1 == sq_term(board.cells@, Term::Positional, s as int),
        r.2 == sq_term(board.cells@, Term::Mg, s as int),
        r.3 == sq_term(board.cells@, Term::Eg, s as int),
        r.4 == sq_term(board.cells@, Term::Phase, s as int),
        r.5 == sq_term(board.cells@, Term::Bishops(Color::White), s as int),
        r.6 == sq_term(board.cells@, Term::Bishops(Color::Black), s as int),
        -1025 <= r.0 <= 1025,
        -200 <= r.1 <= 200,
        -1225 <= r.2 <= 1225,
        -1136 <= r.3 <= 1136,
        0 <= r.4 <= 4,
        0 <= r.5 <= 1,
        0 <= r.6 <= 1,
{
    let p = board.cells[s];
    match (p.color(), p.kind()) {
        (Some(c), Some(k)) => {
            proof {
                square::lemma_sq_enum();
            }
            let idx = pst_index(sq64(s), c, Ghost(s as int));
            let mv = mg_value_of(k);
            let ps = mg_pst(k, idx);
            let mgv = mv + ps;
            let egv = eg_value_of(k) + eg_pst(k, idx);
            let ph = phase_weight_of(k);
            let is_bishop = match k {
                PieceKind::Bishop => true,
                _ => false,
            };
            match c {
                Color::White => (mv, ps, mgv, egv, ph, if is_bishop { 1 } else { 0 }, 0),
                Color::Black => (-mv, -ps, -mgv, -egv, ph, 0, if is_bishop { 1 } else { 0 }),
            }
        },
        _ => (0, 0, 0, 0, 0, 0, 0),
    }
}

/// Counts the pawn on `s` (the `i`-th square) into the per-file counts.
fn count_pawn(board: &Board, s: Sq, files: &mut Vec<i32>, i: Ghost<int>)
    requires
        0 <= i@ < 64,
        s == sq_at(i@),
        valid(s as int),
        files_upto(old(files)@, board.cells@, i@),
    ensures
        files_upto(final(files)@, board.cells@, i@ + 1),
{
    let ghost cells = board.cells@;
    let ghost fi = files@;
    let p = board.cells[s];
    match (p.color(), p.kind()) {
        (Some(c), Some(PieceKind::Pawn)) => {
            let f = square::file(s) as usize;
            let fidx = c.index() * 8 + f;
            proof {
                lemma_file_sum_bound(cells, c, f as int, i@);
                assert(fi[fidx as int] == file_sum(cells, c, f as int, i@));
            }
            let cur = files[fidx];
            files.set(fidx, cur + 1);
        },
        _ => {},
    }
    proof {
        assert forall|g: int| 0 <= g < 16 implies #[trigger] files@[g] == file_sum(
            cells,
            if g < 8 {
                Color::White
            } else {
                Color::Black
            },
            g % 8,
            i@ + 1,
        ) by {
            assert(fi[g] == file_sum(
                cells,
                if g < 8 {
                    Color::White
                } else {
                    Color::Black
                },
                g % 8,
                i@,
            ));
        }
    }
}

/// The full evaluation breakdown, every term from White's view.
pub fn eval_terms(board: &Board) -> (r: EvalTerms)
    ensures
        r == terms_spec(board.cells@),
        r.total == total_spec(board.cells@),
        -110000 <= r.total <= 110000,
{
    let ghost cells = board.cells@;
    let mut material: i32 = 0;
    let mut positional: i32 = 0;
    let mut mg: i32 = 0;
    let mut eg: i32 = 0;
    let mut phase: i32 = 0;
    let mut white_bishops: i32 = 0;
    let mut black_bishops: i32 = 0;
    let mut files: Vec<i32> = vec![0i32; 16];
    proof {
        assert forall|g: int| 0 <= g < 16 implies #[trigger] files@[g] == file_sum(
            cells,
            if g < 8 {
                Color::White
            } else {
                Color::Black
            },
            g % 8,
            0,
        ) by {
            assert(files@[g] == 0);
        }
    }
    let mut i: usize = 0;
    while i < 64
        invariant
            i <= 64,
            cells == board.cells@,
            files_upto(files@, cells, i as int),
            material == sum_sq(cells, Term::Material, i as int),
            positional == sum_sq(cells, Term::Positional, i as int),
            mg == sum_sq(cells, Term::Mg, i as int),
            eg == sum_sq(cells, Term::Eg, i as int),
            phase == sum_sq(cells, Term::Phase, i as int),
            white_bishops == sum_sq(cells, Term::Bishops(Color::White), i as int),
            black_bishops == sum_sq(cells, Term::Bishops(Color::Black), i as int),
            -1025 * i <= material <= 1025 * i,
            -200 * i <= positional <= 200 * i,
            -1225 * i <= mg <= 1225 * i,
            -1136 * i <= eg <= 1136 * i,
            0 <= phase <= 4 * i,
            0 <= white_bishops <= i,
            0 <= black_bishops <= i,
        decreases 64 - i,
    {
        let s = square::nth_square(i);
        let (mv, ps, mgv, egv, ph, wb, bb) = square_terms(board, s);
        material = material + mv;
        positional = positional + ps;
        mg = mg + mgv;
        eg = eg + egv;
        phase = phase + ph;
        white_bishops = white_bishops + wb;
        black_bishops = black_bishops + bb;
        count_pawn(board, s, &mut files, Ghost(i as int));
        i = i + 1;
    }
    let mut bishop_pair: i32 = 0;
    if white_bishops >= 2 {
        bishop_pair = bishop_pair + BISHOP_PAIR;
    }
    if black_bishops >= 2 {
        bishop_pair = bishop_pair - BISHOP_PAIR;
    }
    let pawn_struct = pawn_structure(board, &files);
    let (mobility, king_safety, rook_files) = positional_extras(board, &files);
    let ph = if phase < TOTAL_PHASE {
        phase
    } else {
        TOTAL_PHASE
    };
    let extra = mobility + king_safety + rook_files;
    let mg_score = mg + bishop_pair + pawn_struct + extra;
    let eg_score = eg + bishop_pair + pawn_struct + extra;
    assert(-110000 <= mg_score <= 110000 && -110000 <= eg_score <= 110000 && 0 <= ph <= 24);
    assert(-110000 * 24 <= mg_score * ph + eg_score * (TOTAL_PHASE - ph) <= 110000 * 24
        && -110000 * 24 <= mg_score * ph <= 110000 * 24
        && -110000 * 24 <= eg_score * (TOTAL_PHASE - ph) <= 110000 * 24) by (nonlinear_arith)
        requires
            -110000 <= mg_score <= 110000,
            -110000 <= eg_score <= 110000,
            0 <= ph <= 24,
            TOTAL_PHASE == 24,
    ;
    let a = mg_score * ph;
    let b = eg_score * (TOTAL_PHASE - ph);
    let total = (a + b) / TOTAL_PHASE;
    EvalTerms {
        material,
        positional,
        pawns: pawn_struct,
        bishop_pair,
        mobility,
        king_safety,
        rook_files,
        total,
    }
}

/// The static evaluation in centipawns relative to the side to move: the
/// White-view total plus the tempo bonus for the mover, negated for Black.
pub fn evaluate(board: &Board) -> (r: i32)
    ensures
        r == evaluate_spec(board.pos()),
        -110010 <= r <= 110010,
{
    let terms = eval_terms(board);
    let sign = board.side_to_move().sign();
    let white_pov = terms.total + TEMPO * sign;
    if board.side_white {
        assert(sign == 1 && csign(board.pos().side()) == 1);
        assert(white_pov * sign == white_pov);
    } else {
        assert(sign == -1 && csign(board.pos().side()) == -1);
        assert(white_pov * sign == -white_pov);
    }
    white_pov * sign
}

} // verus!
