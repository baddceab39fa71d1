//! Static exchange evaluation (SEE): the material a capture nets if both
//! sides then trade off on the destination square, each always recapturing
//! with its least valuable attacker and free to stop when that pays.
//!
//! X-ray attackers (a slider behind the piece that just captured) come into
//! play because each step looks again at the updated occupancy. SEE only
//! orders and prunes captures; it never decides legality.

use crate::attacks::{bishop_d, bishop_delta, king_d, king_delta, knight_d, knight_delta, ray_first_sq, ray_scan, rook_d, rook_delta};
use crate::board::Board;
use crate::moves::Move;
use crate::types::square::{self, spec_file, spec_rank, valid};
use crate::types::{Color, Piece, PieceKind, Sq};
use vstd::prelude::*;

verus! {

/// Material values used by SEE; the king is effectively infinite.
pub open spec fn see_value(k: PieceKind) -> int {
    match k {
        PieceKind::Pawn => 100,
        PieceKind::Knight => 320,
        PieceKind::Bishop => 330,
        PieceKind::Rook => 500,
        PieceKind::Queen => 900,
        PieceKind::King => 10_000,
    }
}

/// The material value of a piece kind in exchange counting.
pub fn value(k: PieceKind) -> (r: i32)
    ensures
        r == see_value(k),
        100 <= r <= 10_000,
{
    match k {
        PieceKind::Pawn => 100,
        PieceKind::Knight => 320,
        PieceKind::Bishop => 330,
        PieceKind::Rook => 500,
        PieceKind::Queen => 900,
        PieceKind::King => 10_000,
    }
}

/// The first of the two squares a pawn of `c` would capture onto `t` from
/// that holds such a pawn.
pub open spec fn pawn_src(occ: Seq<Piece>, t: int, c: Color) -> Option<int> {
    let pawn = Piece::spec_make(c, PieceKind::Pawn);
    let (a, b) = match c {
        Color::White => (t - 15, t - 17),
        Color::Black => (t + 15, t + 17),
    };
    if valid(a) && occ[a] == pawn {
        Some(a)
    } else if valid(b) && occ[b] == pawn {
        Some(b)
    } else {
        None
    }
}

/// The first knight (or king) step from `t`, trying the steps from `i` on,
/// that lands on `piece`.
pub open spec fn leaper_src(occ: Seq<Piece>, t: int, piece: Piece, knight: bool, i: int) -> Option<int>
    decreases 8 - i,
{
    if i >= 8 || i < 0 {
        None
    } else {
        let d = if knight {
            knight_d(i)
        } else {
            king_d(i)
        };
        if valid(t + d) && occ[t + d] == piece {
            Some(t + d)
        } else {
            leaper_src(occ, t, piece, knight, i + 1)
        }
    }
}

/// The first piece met on the bishop (or rook) rays from `t`, trying the
/// rays from `i` on, that is `a` or `b`.
pub open spec fn slider_src(occ: Seq<Piece>, t: int, bishop: bool, a: Piece, b: Piece, i: int) -> Option<int>
    decreases 4 - i,
{
    if i >= 4 || i < 0 {
        None
    } else {
        let d = if bishop {
            bishop_d(i)
        } else {
            rook_d(i)
        };
        match ray_first_sq(occ, t + d, d) {
            Some(q) => if occ[q] == a || occ[q] == b {
                Some(q)
            } else {
                slider_src(occ, t, bishop, a, b, i + 1)
            },
            None => slider_src(occ, t, bishop, a, b, i + 1),
        }
    }
}

/// The least valuable attacker of `t` for `c`, searched in a fixed order:
/// pawns, knights, bishops, rooks, queens (diagonal rays first), the king.
pub open spec fn lva(occ: Seq<Piece>, t: int, c: Color) -> Option<(int, PieceKind)> {
    let bishop = Piece::spec_make(c, PieceKind::Bishop);
    let rook = Piece::spec_make(c, PieceKind::Rook);
    let queen = Piece::spec_make(c, PieceKind::Queen);
    match pawn_src(occ, t, c) {
        Some(s) => Some((s, PieceKind::Pawn)),
        None => match leaper_src(occ, t, Piece::spec_make(c, PieceKind::Knight), true, 0) {
            Some(s) => Some((s, PieceKind::Knight)),
            None => {
                let bs = slider_src(occ, t, true, bishop, queen, 0);
                let rs = slider_src(occ, t, false, rook, queen, 0);
                if bs is Some && occ[bs->0] == bishop {
                    Some((bs->0, PieceKind::Bishop))
                } else if rs is Some && occ[rs->0] == rook {
                    Some((rs->0, PieceKind::Rook))
                } else {
                    match slider_src(occ, t, true, queen, queen, 0) {
                        Some(q) => Some((q, PieceKind::Queen)),
                        None => match slider_src(occ, t, false, queen, queen, 0) {
                            Some(q) => Some((q, PieceKind::Queen)),
                            None => match leaper_src(
                                occ,
                                t,
                                Piece::spec_make(c, PieceKind::King),
                                false,
                                0,
                            ) {
                                Some(s) => Some((s, PieceKind::King)),
                                None => None,
                            },
                        },
                    }
                }
            },
        },
    }
}

pub open spec fn max0(x: int) -> int {
    if x > 0 {
        x
    } else {
        0
    }
}

/// What `side` gains at best from the exchange on `t`, where a piece worth
/// `p` stands and `lvl` captures have been made: it recaptures with its
/// least valuable attacker if that pays, or stops. The exchange is cut off
/// after thirty captures.
pub open spec fn exchange(occ: Seq<Piece>, t: int, side: Color, p: int, lvl: int) -> int
    decreases 31 - lvl,
{
    if lvl >= 31 {
        0
    } else {
        match lva(occ, t, side) {
            None => 0,
            Some((s, k)) => max0(
                p - exchange(occ.update(s, Piece::Empty), t, side.spec_flip(), see_value(k), lvl + 1),
            ),
        }
    }
}

/// The static exchange value of `mv`: the victim's value (a pawn for an en
/// passant capture) less what the opponent then gains at best.
pub open spec fn see_spec(cells: Seq<Piece>, mv: Move) -> int {
    let from = mv.from as int;
    let to = mv.to as int;
    let mover = cells[from];
    let pawn = mover.spec_kind() == Some(PieceKind::Pawn);
    match (mover.spec_color(), mover.spec_kind()) {
        (Some(c), Some(k)) => {
            let victim = if cells[to].spec_is_empty() {
                if pawn && from % 8 != to % 8 {
                    100
                } else {
                    0
                }
            } else {
                match cells[to].spec_kind() {
                    Some(vk) => see_value(vk),
                    None => 0,
                }
            };
            let occ1 = cells.update(from, Piece::Empty);
            let occ = if cells[to].spec_is_empty() && pawn {
                occ1.update(square::spec_make(spec_rank(from), (to % 8) as int), Piece::Empty)
            } else {
                occ1
            };
            victim - exchange(occ, to, c.spec_flip(), see_value(k), 1)
        },
        _ => 0,
    }
}

proof fn lemma_exchange_bound(occ: Seq<Piece>, t: int, side: Color, p: int, lvl: int)
    requires
        p <= 10_000,
    ensures
        0 <= exchange(occ, t, side, p, lvl) <= max0(p),
    decreases 31 - lvl,
{
    if lvl < 31 {
        match lva(occ, t, side) {
            None => {},
            Some((s, k)) => {
                lemma_exchange_bound(occ.update(s, Piece::Empty), t, side.spec_flip(), see_value(k), lvl + 1);
            },
        }
    }
}

/// The first of the rays from `t` whose first piece is `a` or `b`: that
/// piece's square.
fn first_slider_on_rays(occ: &[Piece; 128], t: Sq, bishop: bool, a: Piece, b: Piece) -> (r: Option<Sq>)
    requires
        t < 128,
    ensures
        match r {
            Some(q) => slider_src(occ@, t as int, bishop, a, b, 0) == Some(q as int) && q < 128,
            None => slider_src(occ@, t as int, bishop, a, b, 0) is None,
        },
{
    let mut i: usize = 0;
    while i < 4
        invariant
            i <= 4,
            t < 128,
            slider_src(occ@, t as int, bishop, a, b, 0) == slider_src(occ@, t as int, bishop, a, b, i as int),
        decreases 4 - i,
    {
        let d = if bishop {
            bishop_delta(i)
        } else {
            rook_delta(i)
        };
        match ray_scan(occ, t as i32, d) {
            Some((_, q)) => {
                proof {
                    lemma_ray_sq_valid(occ@, t + d, d as int);
                }
                let pq = occ[q];
                if pq == a || pq == b {
                    return Some(q);
                }
            },
            None => {},
        }
        i = i + 1;
    }
    None
}

/// The first occupied square of a ray is a real square.
proof fn lemma_ray_sq_valid(cells: Seq<Piece>, pos: int, d: int)
    ensures
        ray_first_sq(cells, pos, d) matches Some(q) ==> valid(q),
    decreases (if d > 0 {
        128 - pos
    } else {
        pos
    }),
{
    if d != 0 && valid(pos) && cells[pos].spec_is_empty() && 0 <= pos + d < 128 {
        lemma_ray_sq_valid(cells, pos + d, d);
    }
}

/// The first knight (or king) step from `t` that lands on `piece`.
fn leaper_on(occ: &[Piece; 128], t: Sq, piece: Piece, knight: bool) -> (r: Option<Sq>)
    requires
        t < 128,
    ensures
        match r {
            Some(q) => leaper_src(occ@, t as int, piece, knight, 0) == Some(q as int) && q < 128,
            None => leaper_src(occ@, t as int, piece, knight, 0) is None,
        },
{
    let ti = t as i32;
    let mut i: usize = 0;
    while i < 8
        invariant
            i <= 8,
            ti == t,
            t < 128,
            leaper_src(occ@, t as int, piece, knight, 0) == leaper_src(occ@, t as int, piece, knight, i as int),
        decreases 8 - i,
    {
        let d = if knight {
            knight_delta(i)
        } else {
            king_delta(i)
        };
        let s = ti + d;
        if square::on_board_i32(s) && occ[s as usize] == piece {
            return Some(s as usize);
        }
        i = i + 1;
    }
    None
}

/// The least valuable attacker of `to` for `color` on the occupancy `occ`:
/// its square and kind.
fn least_valuable_attacker(occ: &[Piece; 128], to: Sq, color: Color) -> (r: Option<(Sq, PieceKind)>)
    requires
        to < 128,
    ensures
        match r {
            Some((s, k)) => lva(occ@, to as int, color) == Some((s as int, k)) && s < 128,
            None => lva(occ@, to as int, color) is None,
        },
{
    let ti = to as i32;
    let pawn = Piece::make(color, PieceKind::Pawn);
    let (a, b) = match color {
        Color::White => (ti - 15, ti - 17),
        Color::Black => (ti + 15, ti + 17),
    };
    if square::on_board_i32(a) && occ[a as usize] == pawn {
        return Some((a as usize, PieceKind::Pawn));
    }
    if square::on_board_i32(b) && occ[b as usize] == pawn {
        return Some((b as usize, PieceKind::Pawn));
    }
    match leaper_on(occ, to, Piece::make(color, PieceKind::Knight), true) {
        Some(s) => {
            return Some((s, PieceKind::Knight));
        },
        None => {},
    }
    let bishop = Piece::make(color, PieceKind::Bishop);
    let rook = Piece::make(color, PieceKind::Rook);
    let queen = Piece::make(color, PieceKind::Queen);
    match first_slider_on_rays(occ, to, true, bishop, queen) {
        Some(s) => {
            if occ[s] == bishop {
                return Some((s, PieceKind::Bishop));
            }
        },
        None => {},
    }
    match first_slider_on_rays(occ, to, false, rook, queen) {
        Some(s) => {
            if occ[s] == rook {
                return Some((s, PieceKind::Rook));
            }
        },
        None => {},
    }
    match first_slider_on_rays(occ, to, true, queen, queen) {
        Some(s) => {
            return Some((s, PieceKind::Queen));
        },
        None => {},
    }
    match first_slider_on_rays(occ, to, false, queen, queen) {
        Some(s) => {
            return Some((s, PieceKind::Queen));
        },
        None => {},
    }
    match leaper_on(occ, to, Piece::make(color, PieceKind::King), false) {
        Some(s) => Some((s, PieceKind::King)),
        None => None,
    }
}

/// The best gain for `side` in the exchange on `to` (see [`exchange`]).
fn exchange_gain(occ: [Piece; 128], to: Sq, side: Color, p: i32, lvl: u32) -> (r: i32)
    requires
        to < 128,
        0 <= p <= 10_000,
        lvl <= 31,
    ensures
        r == exchange(occ@, to as int, side, p as int, lvl as int),
    decreases 31 - lvl,
{
    if lvl >= 31 {
        return 0;
    }
    match least_valuable_attacker(&occ, to, side) {
        None => 0,
        Some((s, k)) => {
            let mut next = occ;
            next[s] = Piece::Empty;
            let v = value(k);
            let rest = exchange_gain(next, to, side.flip(), v, lvl + 1);
            proof {
                assert(next@ =~= occ@.update(s as int, Piece::Empty));
                lemma_exchange_bound(next@, to as int, side.spec_flip(), v as int, lvl + 1);
            }
            let g = p - rest;
            if g > 0 {
                g
            } else {
                0
            }
        },
    }
}

/// The net centipawn gain of `mv` for the side making it, if both sides then
/// trade off on the destination square with their least valuable attackers
/// (positive: a good capture).
pub fn see(board: &Board, mv: Move) -> (r: i32)
    requires
        mv.from < 128,
        mv.to < 128,
    ensures
        r == see_spec(board.cells@, mv),
{
    let to = mv.to;
    let mover = board.cells[mv.from];
    let (side, mk) = match (mover.color(), mover.kind()) {
        (Some(c), Some(k)) => (c, k),
        _ => {
            return 0;
        },
    };
    let is_pawn = match mk {
        PieceKind::Pawn => true,
        _ => false,
    };
    let victim_val: i32 = if board.cells[to].is_empty() {
        if is_pawn && square::file(mv.from) != square::file(to) {
            100
        } else {
            0
        }
    } else {
        match board.cells[to].kind() {
            Some(vk) => value(vk),
            None => 0,
        }
    };
    let mut occ = board.cells;
    occ[mv.from] = Piece::Empty;
    proof {
        assert(occ@ =~= board.cells@.update(mv.from as int, Piece::Empty));
    }
    if board.cells[to].is_empty() && is_pawn {
        let cap_sq = square::make(square::rank(mv.from), square::file(to));
        let ghost o1 = occ@;
        occ[cap_sq] = Piece::Empty;
        proof {
            assert(occ@ =~= o1.update(cap_sq as int, Piece::Empty));
            assert(occ@ == board.cells@.update(mv.from as int, Piece::Empty).update(square::spec_make(spec_rank(mv.from as int), (to % 8) as int), Piece::Empty));
        }
    } else {
        assert(occ@ == board.cells@.update(mv.from as int, Piece::Empty));
    }
    let pv = value(mk);
    proof {
        let from = mv.from as int;
        let occ1 = board.cells@.update(from, Piece::Empty);
        let spec_occ = if board.cells@[to as int].spec_is_empty() && is_pawn {
            occ1.update(square::spec_make(spec_rank(from), (to % 8) as int), Piece::Empty)
        } else {
            occ1
        };
        assert(occ@ == spec_occ);
        assert(is_pawn == (mover.spec_kind() == Some(PieceKind::Pawn)));
    }
    let rest = exchange_gain(occ, to, side.flip(), pv, 1);
    proof {
        lemma_exchange_bound(occ@, to as int, side.spec_flip(), pv as int, 1);
    }
    victim_val - rest
}

/// `true` if the capture does not lose material (SEE at least zero).
pub fn see_ge_zero(board: &Board, mv: Move) -> (r: bool)
    requires
        mv.from < 128,
        mv.to < 128,
    ensures
        r == (see_spec(board.cells@, mv) >= 0),
{
    see(board, mv) >= 0
}


/// The static exchange value lies between minus the mover's value and the
/// victim's value.
pub proof fn lemma_see_bound(cells: Seq<Piece>, mv: Move)
    ensures
        -10_000 <= see_spec(cells, mv) <= 10_000,
{
    let mover = cells[mv.from as int];
    match (mover.spec_color(), mover.spec_kind()) {
        (Some(c), Some(k)) => {
            let from = mv.from as int;
            let to = mv.to as int;
            let occ1 = cells.update(from, Piece::Empty);
            let pawn = mover.spec_kind() == Some(PieceKind::Pawn);
            let occ = if cells[to].spec_is_empty() && pawn {
                occ1.update(square::spec_make(spec_rank(from), (to % 8) as int), Piece::Empty)
            } else {
                occ1
            };
            lemma_exchange_bound(occ, to, c.spec_flip(), see_value(k), 1);
        },
        _ => {},
    }
}

} // verus!
