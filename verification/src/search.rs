//! Alpha-beta search.
//!
//! A negamax search with iterative deepening and aspiration windows,
//! principal variation search, a transposition table, quiescence search
//! ordered by static exchange, null-move pruning, late-move reductions,
//! killer moves and a history heuristic, and a deadline polled every 2048
//! nodes. Scores are centipawns from the side to move's view; positions
//! drawn by repetition, the fifty-move rule, or insufficient material score
//! 0 below the root.

use crate::attacks::in_check;
use crate::board::{Board, Pos};
use crate::eval::{evaluate, MATE, MATE_THRESHOLD};
use crate::log::SearchTelemetry;
use crate::movegen::{ep_sane, gen_captures, legal, legal_moves, lemma_legal_sane, loud};
use crate::moves::{Move, MoveList};
use crate::see::see;
use crate::text::{decimal, push_decimal, push_decimal_u128, push_signed_decimal, signed_decimal, string_from_chars};
use crate::transposition::{NodeType, PackedMove, ProbeResult, TranspositionTable};
use crate::types::square::{self, valid};
use crate::types::{Color, Piece, PieceKind};
use crate::zobrist::{ep_key_of, side_key_of};
use std::time::{Duration, Instant};
use vstd::prelude::*;

mod alphabeta;
mod deepening;
mod tables;

use tables::{clear_killers, copy_row, sort_by_keys, zero_history};

pub use deepening::{ai_move, info_text, pv_text, result_ok, search, search_outcome};

verus! {

/// `std::time::Instant`, carried through the search opaquely.
#[verifier::external_type_specification]
#[verifier::external_body]
pub struct ExInstant(Instant);

/// Calls `Instant::now`. Nothing is stated of the instant it returns.
#[verifier::external_body]
pub(crate) fn instant_now() -> Instant {
    Instant::now()
}

/// Calls `Instant::elapsed`: the time since `start`. It depends on the
/// clock, so nothing is stated of it.
#[verifier::external_body]
fn instant_elapsed(start: &Instant) -> Duration {
    start.elapsed()
}

/// Calls `Duration::as_millis`: the whole milliseconds in `d`. Nothing is
/// stated, as the duration itself is opaque here.
#[verifier::external_body]
fn duration_millis(d: &Duration) -> u128 {
    d.as_millis()
}

/// Milliseconds since `start`.
pub(crate) fn elapsed_ms(start: &Instant) -> u128 {
    let d = instant_elapsed(start);
    duration_millis(&d)
}

/// The deepest ply the search reaches.
pub const MAX_PLY: usize = 64;
/// A score beyond every real score.
pub const INF: i32 = 1_000_000;

/// What bounds a search: a maximum depth and an optional time budget.
#[derive(Clone, Copy, Debug)]
pub struct SearchLimits {
    /// Depth ceiling in plies.
    pub max_depth: i32,
    /// Optional time budget in milliseconds.
    pub movetime_ms: Option<u64>,
    /// Record a UCI `info` line for each completed depth.
    pub verbose: bool,
}

impl Default for SearchLimits {
    fn default() -> (r: SearchLimits)
        ensures
            r.max_depth == 64 && r.movetime_ms == Some(2000u64) && !r.verbose,
    {
        SearchLimits { max_depth: 64, movetime_ms: Some(2000), verbose: false }
    }
}

impl SearchLimits {
    /// Search to a fixed depth with no time limit.
    pub fn depth(d: i32) -> (r: SearchLimits)
        ensures
            r.max_depth == d && r.movetime_ms is None && !r.verbose,
    {
        SearchLimits { max_depth: d, movetime_ms: None, verbose: false }
    }

    /// Search for a fixed time (at most [`MAX_PLY`] deep).
    pub fn movetime(ms: u64) -> (r: SearchLimits)
        ensures
            r.max_depth == MAX_PLY && r.movetime_ms == Some(ms) && !r.verbose,
    {
        SearchLimits { max_depth: MAX_PLY as i32, movetime_ms: Some(ms), verbose: false }
    }
}

/// The outcome of a search.
#[derive(Clone, Debug, Default)]
pub struct SearchResult {
    pub best_move: Option<Move>,
    pub score: i32,
    pub depth: i32,
    pub nodes: u64,
    pub pv: Vec<Move>,
    pub time_ms: u128,
    /// Aggregated search counters.
    pub telemetry: SearchTelemetry,
    /// One UCI `info` line per completed depth, when the limits ask for them.
    pub info: Vec<String>,
}

/// `x / 2` truncated toward zero.
pub open spec fn half(x: int) -> int {
    if x >= 0 {
        x / 2
    } else {
        -((-x) / 2)
    }
}

/// The score as a mate distance (`#N`, `#-N`) or as pawns with a sign and
/// two decimals (`+0.35`).
pub open spec fn score_text(score: int) -> Seq<char> {
    if score >= MATE_THRESHOLD {
        seq!['#'] + signed_decimal(half(MATE - score + 1))
    } else if score <= -MATE_THRESHOLD {
        seq!['#', '-'] + signed_decimal(half(MATE + score + 1))
    } else {
        let a = if score < 0 {
            -score
        } else {
            score
        };
        let frac = a % 100;
        seq![if score < 0 {
            '-'
        } else {
            '+'
        }] + decimal((a / 100) as nat) + seq!['.'] + decimal((frac / 10) as nat) + decimal(
            (frac % 10) as nat,
        )
    }
}

impl SearchResult {
    /// The score as a mate distance (`#N` / `#-N`) or in pawns (`+0.35`).
#[verifier::spinoff_prover]
    pub fn score_string(&self) -> (s: String)
        requires
            -INF <= self.score <= INF,
        ensures
            s@ == score_text(self.score as int),
    {
        let mut out: Vec<char> = Vec::new();
        let score = self.score;
        if score >= MATE_THRESHOLD {
            out.push('#');
            let x = MATE - score + 1;
            let h = x / 2;
            assert(h == half(x as int));
            push_signed_decimal(&mut out, h as i64);
        } else if score <= -MATE_THRESHOLD {
            out.push('#');
            out.push('-');
            let x = MATE + score + 1;
            let h = x / 2;
            assert(h == half(x as int));
            push_signed_decimal(&mut out, h as i64);
        } else {
            let a: i32 = if score < 0 {
                -score
            } else {
                score
            };
            out.push(if score < 0 {
                '-'
            } else {
                '+'
            });
            push_decimal(&mut out, (a / 100) as u64);
            out.push('.');
            let frac = a % 100;
            push_decimal(&mut out, (frac / 10) as u64);
            push_decimal(&mut out, (frac % 10) as u64);
        }
        proof {
            let sc = self.score as int;
            if sc >= MATE_THRESHOLD {
                assert(out@ =~= score_text(sc));
            } else if sc <= -MATE_THRESHOLD {
                assert(out@ =~= score_text(sc));
            } else {
                assert(out@ =~= score_text(sc));
            }
        }
        string_from_chars(out.as_slice())
    }
}

/// Material values for move ordering.
pub open spec fn piece_value_spec(k: PieceKind) -> int {
    match k {
        PieceKind::Pawn => 100,
        PieceKind::Knight => 320,
        PieceKind::Bishop => 330,
        PieceKind::Rook => 500,
        PieceKind::Queen => 900,
        PieceKind::King => 20000,
    }
}

fn piece_value(k: PieceKind) -> (r: i32)
    ensures
        r == piece_value_spec(k),
        100 <= r <= 20000,
{
    match k {
        PieceKind::Pawn => 100,
        PieceKind::Knight => 320,
        PieceKind::Bishop => 330,
        PieceKind::Rook => 500,
        PieceKind::Queen => 900,
        PieceKind::King => 20000,
    }
}

/// The value of the kind of `p`, 0 for an empty cell.
pub open spec fn kind_value(p: Piece) -> int {
    match p.spec_kind() {
        Some(k) => piece_value_spec(k),
        None => 0,
    }
}

/// MVV-LVA: sixteen times the victim's value, less the attacker's, plus the
/// promotion piece's value.
pub open spec fn mvv_lva_spec(cells: Seq<Piece>, m: Move) -> int {
    kind_value(cells[m.to as int]) * 16 - kind_value(cells[m.from as int]) + match m.promotion {
        Some(p) => kind_value(p),
        None => 0,
    }
}

/// The ordering key of `m` (lower first): the table move, then captures
/// and promotions by MVV-LVA, then the two killers, then by history score.
pub open spec fn move_key_spec(cells: Seq<Piece>, history: Seq<i32>, m: Move, tt_move: Option<Move>, k0: Option<Move>, k1: Option<Move>) -> int {
    if tt_move == Some(m) {
        -1_000_000
    } else if !cells[m.to as int].spec_is_empty() || m.promotion is Some {
        -(500_000 + mvv_lva_spec(cells, m))
    } else if k0 == Some(m) {
        -400_000
    } else if k1 == Some(m) {
        -399_000
    } else {
        -history[m.from * 128 + m.to]
    }
}

/// The ordering key of a loud move in quiescence (lower first): best
/// static exchange first, promotions counted as a queen's gain.
pub open spec fn capture_key_spec(cells: Seq<Piece>, m: Move) -> int {
    if m.promotion is Some {
        -900
    } else {
        -crate::see::see_spec(cells, m)
    }
}

/// The position has a legal move.
#[verifier::opaque]
pub open spec fn some_legal(p: Pos) -> bool {
    exists|m: Move| legal(p, m)
}

fn kind_value_of(p: Piece) -> (r: i32)
    ensures
        r == kind_value(p),
        0 <= r <= 20000,
{
    match p.kind() {
        Some(k) => piece_value(k),
        None => 0,
    }
}

fn mvv_lva(board: &Board, m: Move) -> (r: i32)
    requires
        m.from < 128,
        m.to < 128,
    ensures
        r == mvv_lva_spec(board.cells@, m),
        -20000 <= r <= 340000,
{
    let attacker = kind_value_of(board.cells[m.from]);
    let victim = kind_value_of(board.cells[m.to]);
    let promo = match m.promotion {
        Some(p) => kind_value_of(p),
        None => 0,
    };
    victim * 16 - attacker + promo
}

/// The history-table index of a move.
fn hist_idx(m: Move) -> (r: usize)
    requires
        m.from < 128,
        m.to < 128,
    ensures
        r == m.from * 128 + m.to,
        r < 16384,
{
    m.from * 128 + m.to
}

/// The side to move has a knight, bishop, rook, or queen.
pub open spec fn non_pawn_material(p: Pos) -> bool {
    exists|i: int|
        0 <= i < 64 && (#[trigger] p.cells[square::sq_at(i)]).spec_is_color(p.side())
            && match p.cells[square::sq_at(i)].spec_kind() {
            Some(PieceKind::Knight) | Some(PieceKind::Bishop) | Some(PieceKind::Rook) | Some(
                PieceKind::Queen,
            ) => true,
            _ => false,
        }
}

/// `true` if the side to move has a piece other than pawns and the king
/// (null-move pruning is unsafe in pawn endgames).
fn has_non_pawn_material(board: &Board) -> (r: bool)
    ensures
        r == non_pawn_material(board.pos()),
{
    let color = board.side_to_move();
    let mut i: usize = 0;
    while i < 64
        invariant
            i <= 64,
            color == board.pos().side(),
            forall|j: int|
                0 <= j < i ==> !((#[trigger] board.cells@[square::sq_at(j)]).spec_is_color(color)
                    && match board.cells@[square::sq_at(j)].spec_kind() {
                    Some(PieceKind::Knight) | Some(PieceKind::Bishop) | Some(PieceKind::Rook) | Some(
                        PieceKind::Queen,
                    ) => true,
                    _ => false,
                }),
        decreases 64 - i,
    {
        let p = board.cells[square::nth_square(i)];
        if p.is_color(color) {
            match p.kind() {
                Some(PieceKind::Knight) | Some(PieceKind::Bishop) | Some(PieceKind::Rook) | Some(
                    PieceKind::Queen,
                ) => {
                    return true;
                },
                _ => {},
            }
        }
        i = i + 1;
    }
    false
}

/// The promotion code of a promotion piece: 1 queen, 2 rook, 3 bishop,
/// 4 knight, 0 otherwise.
pub open spec fn promo_code(p: Option<Piece>) -> u8 {
    match p {
        Some(q) => match q.spec_kind() {
            Some(PieceKind::Queen) => 1,
            Some(PieceKind::Rook) => 2,
            Some(PieceKind::Bishop) => 3,
            Some(PieceKind::Knight) => 4,
            _ => 0,
        },
        None => 0,
    }
}

fn promo_id(p: Option<Piece>) -> (r: u8)
    ensures
        r == promo_code(p),
{
    match p {
        Some(q) => match q.kind() {
            Some(PieceKind::Queen) => 1,
            Some(PieceKind::Rook) => 2,
            Some(PieceKind::Bishop) => 3,
            Some(PieceKind::Knight) => 4,
            _ => 0,
        },
        None => 0,
    }
}

/// The (white) promotion piece of a code.
pub open spec fn promo_of_code(id: u8) -> Option<Piece> {
    if id == 1 {
        Some(Piece::WQ)
    } else if id == 2 {
        Some(Piece::WR)
    } else if id == 3 {
        Some(Piece::WB)
    } else if id == 4 {
        Some(Piece::WN)
    } else {
        None
    }
}

fn promo_from_id(id: u8) -> (r: Option<Piece>)
    ensures
        r == promo_of_code(id),
{
    if id == 1 {
        Some(Piece::WQ)
    } else if id == 2 {
        Some(Piece::WR)
    } else if id == 3 {
        Some(Piece::WB)
    } else if id == 4 {
        Some(Piece::WN)
    } else {
        None
    }
}

fn pack(m: Move) -> (r: (usize, usize, u8))
    ensures
        r == (m.from, m.to, promo_code(m.promotion)),
{
    (m.from, m.to, promo_id(m.promotion))
}

/// The move a packed move stands for (`None` for the empty one).
pub open spec fn unpack_spec(pm: PackedMove) -> Option<Move> {
    if pm == (PackedMove { from: 0, to: 0, promo: 0 }) {
        None
    } else {
        Some(Move { from: pm.from as usize, to: pm.to as usize, promotion: promo_of_code(pm.promo) })
    }
}

fn unpack(pm: PackedMove) -> (r: Option<Move>)
    ensures
        r == unpack_spec(pm),
{
    if pm == PackedMove::none() {
        return None;
    }
    let (from, to, id) = pm.unpack();
    Some(Move { from, to, promotion: promo_from_id(id) })
}

/// A mate score made relative to this node for storage (distance from the
/// node instead of from the root), kept within `±INF`.
pub open spec fn to_tt_spec(score: int, ply: int) -> int {
    if score >= MATE_THRESHOLD {
        if score + ply > INF {
            INF as int
        } else {
            score + ply
        }
    } else if score <= -MATE_THRESHOLD {
        if score - ply < -INF {
            -INF
        } else {
            score - ply
        }
    } else {
        score
    }
}

/// The inverse of [`to_tt_spec`] when reading a score back.
pub open spec fn from_tt_spec(score: int, ply: int) -> int {
    if score >= MATE_THRESHOLD {
        score - ply
    } else if score <= -MATE_THRESHOLD {
        score + ply
    } else {
        score
    }
}

pub fn to_tt(score: i32, ply: usize) -> (r: i32)
    requires
        -INF <= score <= INF,
        ply < MAX_PLY,
    ensures
        r == to_tt_spec(score as int, ply as int),
        -INF <= r <= INF,
{
    if score >= MATE_THRESHOLD {
        let v = score + ply as i32;
        if v > INF {
            INF
        } else {
            v
        }
    } else if score <= -MATE_THRESHOLD {
        let v = score - ply as i32;
        if v < -INF {
            -INF
        } else {
            v
        }
    } else {
        score
    }
}

pub fn from_tt(score: i32, ply: usize) -> (r: i32)
    requires
        ply < MAX_PLY,
    ensures
        r == from_tt_spec(score as int, ply as int),
        -INF <= score <= INF ==> -INF <= r <= INF,
{
    if score >= MATE_THRESHOLD {
        score - ply as i32
    } else if score <= -MATE_THRESHOLD {
        score + ply as i32
    } else {
        score
    }
}


/// Every move of `moves` has real squares.
pub open spec fn squares_ok(moves: Seq<Move>) -> bool {
    forall|i: int| 0 <= i < moves.len() ==> (#[trigger] moves[i]).from < 128 && moves[i].to < 128
}

/// Every move in the principal-variation table has real squares.
#[verifier::opaque]
pub open spec fn pv_ok(table: Seq<Move>) -> bool {
    squares_ok(table)
}

/// Reusable search state: the transposition table (kept across moves),
/// killer and history tables for move ordering, and per-search counters.
pub struct Searcher {
    tt: TranspositionTable,
    /// Two killer moves per ply: index `ply * 2 + slot`.
    killers: Vec<Option<Move>>,
    /// History scores indexed by `from * 128 + to`.
    history: Vec<i32>,
    nodes: u64,
    qnodes: u64,
    beta_cutoffs: u64,
    first_move_cutoffs: u64,
    start: Instant,
    deadline_ms: Option<u64>,
    stop: bool,
    /// The triangular principal-variation table: row `ply` at `ply * 64`.
    pv_table: Vec<Move>,
    pv_len: Vec<usize>,
}

impl Searcher {
    /// The table sizes and value ranges the search relies on.
    pub closed spec fn inv(&self) -> bool {
        &&& self.tt.wf()
        &&& forall|i: int| 0 <= i < self.tt.entries@.len() ==> -INF <= #[trigger] self.tt.entries@[i].score <= INF
        &&& self.killers@.len() == 2 * MAX_PLY
        &&& self.history@.len() == 16384
        &&& forall|i: int| 0 <= i < 16384 ==> #[trigger] self.history@[i] >= 0
        &&& self.pv_table@.len() == MAX_PLY * MAX_PLY
        &&& self.pv_len@.len() == MAX_PLY
        &&& forall|i: int| 0 <= i < MAX_PLY ==> #[trigger] self.pv_len@[i] <= MAX_PLY
        &&& pv_ok(self.pv_table@)
    }

    /// No table entry, killer, or history score remains.
    pub closed spec fn learned_nothing(&self) -> bool {
        &&& forall|i: int| 0 <= i < self.tt.entries@.len() ==> #[trigger] self.tt.entries@[i] == crate::transposition::empty_entry()
        &&& forall|i: int| 0 <= i < 16384 ==> #[trigger] self.history@[i] == 0
        &&& forall|i: int| 0 <= i < 2 * MAX_PLY ==> #[trigger] self.killers@[i] is None
    }

    /// The first move of the principal variation.
    pub closed spec fn pv_head(&self) -> (usize, Move) {
        (self.pv_len@[0], self.pv_table@[0])
    }

    /// A searcher with a transposition table of about `tt_mb` megabytes
    /// (at least one).
    pub fn new(tt_mb: usize) -> (s: Searcher)
        requires
            tt_mb <= 2048,
        ensures
            s.inv(),
    {
        let mb = if tt_mb > 1 {
            tt_mb
        } else {
            1
        };
        let null = Move::new(0, 0);
        let s = Searcher {
            tt: TranspositionTable::new_strict_size_mb(mb),
            killers: vec![None; 2 * MAX_PLY],
            history: vec![0i32; 16384],
            nodes: 0,
            qnodes: 0,
            beta_cutoffs: 0,
            first_move_cutoffs: 0,
            start: instant_now(),
            deadline_ms: None,
            stop: false,
            pv_table: vec![null; MAX_PLY * MAX_PLY],
            pv_len: vec![0usize; MAX_PLY],
        };
        proof {
            reveal(pv_ok);
        }
        s
    }

    /// Forget what was learned: the table's entries, the killers, and the
    /// history scores.
    pub fn reset(&mut self)
        requires
            old(self).inv(),
        ensures
            final(self).inv(),
            final(self).learned_nothing(),
    {
        self.tt.clear();
        clear_killers(&mut self.killers);
        zero_history(&mut self.history);
    }

    /// The deadline has passed.
    fn time_up(&self) -> (r: bool)
        ensures
            r ==> self.deadline_ms is Some,
    {
        match self.deadline_ms {
            Some(d) => elapsed_ms(&self.start) >= d as u128,
            None => false,
        }
    }

    /// Polls the clock every 2048 nodes and raises the stop flag when time
    /// is up.
    fn check_time(&mut self)
        ensures
            final(self).tt == old(self).tt,
            final(self).killers == old(self).killers,
            final(self).history == old(self).history,
            final(self).pv_table == old(self).pv_table,
            final(self).pv_len == old(self).pv_len,
            final(self).nodes == old(self).nodes,
            final(self).qnodes == old(self).qnodes,
            final(self).deadline_ms == old(self).deadline_ms,
            final(self).start == old(self).start,
            final(self).beta_cutoffs == old(self).beta_cutoffs,
            final(self).first_move_cutoffs == old(self).first_move_cutoffs,
            old(self).stop ==> final(self).stop,
            final(self).stop ==> old(self).stop || (old(self).nodes & 2047 == 0 && old(self).deadline_ms is Some),
    {
        if self.nodes & 2047 == 0 && self.time_up() {
            self.stop = true;
        }
    }

    /// The ordering key of `m` (lower first): the table move, then
    /// captures and promotions by MVV-LVA, then the two killers, then by
    /// history score.
    #[verifier::spinoff_prover]
    fn move_key(&self, board: &Board, m: Move, tt_move: Option<Move>, k0: Option<Move>, k1: Option<Move>) -> (key: i32)
        requires
            self.inv(),
            m.from < 128,
            m.to < 128,
        ensures
            key == move_key_spec(board.cells@, self.history@, m, tt_move, k0, k1),
    {
        let is_tt = match tt_move {
            Some(t) => t == m,
            None => false,
        };
        if is_tt {
            -1_000_000
        } else if !board.cells[m.to].is_empty() || m.is_promotion() {
            -(500_000 + mvv_lva(board, m))
        } else if match k0 {
            Some(k) => k == m,
            None => false,
        } {
            -400_000
        } else if match k1 {
            Some(k) => k == m,
            None => false,
        } {
            -399_000
        } else {
            let idx = hist_idx(m);
            proof {
                assert(self.history@[idx as int] >= 0);
            }
            -self.history[idx]
        }
    }

    /// Orders moves best first: the table move, then captures and
    /// promotions by MVV-LVA, then the two killers, then by history score.
#[verifier::spinoff_prover]
    fn order_moves(&self, board: &Board, moves: &mut MoveList, tt_move: Option<Move>, ply: usize)
        requires
            self.inv(),
            ply < MAX_PLY,
            squares_ok(old(moves)@),
        ensures
            final(moves)@.len() == old(moves)@.len(),
            forall|m: Move| #[trigger] final(moves)@.contains(m) <==> old(moves)@.contains(m),
            forall|a: int, b: int|
                0 <= a < b < final(moves)@.len() ==> move_key_spec(board.cells@, self.history@, #[trigger] final(moves)@[a], tt_move,
                    self.killers@[ply * 2], self.killers@[ply * 2 + 1]) <= move_key_spec(board.cells@, self.history@,
                    #[trigger] final(moves)@[b], tt_move, self.killers@[ply * 2], self.killers@[ply * 2 + 1]),
    {
        let k0 = self.killers[ply * 2];
        let k1 = self.killers[ply * 2 + 1];
        let mut keys: Vec<i32> = Vec::new();
        let mut i: usize = 0;
        while i < moves.len()
            invariant
                i <= moves@.len(),
                keys@.len() == i,
                self.inv(),
                squares_ok(moves@),
                k0 == self.killers@[ply * 2],
                k1 == self.killers@[ply * 2 + 1],
                forall|t: int| 0 <= t < i ==> #[trigger] keys@[t] == move_key_spec(board.cells@, self.history@, moves@[t], tt_move, k0, k1),
            decreases moves@.len() - i,
        {
            let m = moves[i];
            proof {
                assert(moves@[i as int].from < 128);
            }
            let key = self.move_key(board, m, tt_move, k0, k1);
            keys.push(key);
            i = i + 1;
        }
        let ghost om = moves@;
        let ghost ok = keys@;
        sort_by_keys(moves, &mut keys);
        proof {
            assert forall|t: int| 0 <= t < moves@.len() implies #[trigger] keys@[t] == move_key_spec(board.cells@, self.history@, moves@[t], tt_move, k0, k1) by {
                assert(tables::has_pair(moves@, keys@, om, ok, t));
                let u = choose|u: int| 0 <= u < om.len() && #[trigger] tables::pair_at(moves@, keys@, om, ok, t, u);
            }
            assert forall|a: int, b: int| 0 <= a < b < moves@.len() implies move_key_spec(board.cells@, self.history@, #[trigger] moves@[a], tt_move, k0, k1)
                <= move_key_spec(board.cells@, self.history@, #[trigger] moves@[b], tt_move, k0, k1) by {
                assert(keys@[a] <= keys@[b]);
            }
        }
    }

    /// Orders captures by static exchange value, best first (promotions
    /// count as 900).
    fn order_captures(&self, board: &Board, moves: &mut MoveList)
        requires
            squares_ok(old(moves)@),
        ensures
            final(moves)@.len() == old(moves)@.len(),
            forall|m: Move| #[trigger] final(moves)@.contains(m) <==> old(moves)@.contains(m),
            forall|a: int, b: int|
                0 <= a < b < final(moves)@.len() ==> capture_key_spec(board.cells@, #[trigger] final(moves)@[a]) <= capture_key_spec(
                    board.cells@,
                    #[trigger] final(moves)@[b],
                ),
    {
        let mut keys: Vec<i32> = Vec::new();
        let mut i: usize = 0;
        while i < moves.len()
            invariant
                i <= moves@.len(),
                keys@.len() == i,
                squares_ok(moves@),
                forall|t: int| 0 <= t < i ==> #[trigger] keys@[t] == capture_key_spec(board.cells@, moves@[t]),
            decreases moves@.len() - i,
        {
            let m = moves[i];
            let v = if m.is_promotion() {
                900
            } else {
                see(board, m)
            };
            proof {
                crate::see::lemma_see_bound(board.cells@, m);
            }
            keys.push(-v);
            i = i + 1;
        }
        let ghost om = moves@;
        let ghost ok = keys@;
        sort_by_keys(moves, &mut keys);
        proof {
            assert forall|t: int| 0 <= t < moves@.len() implies #[trigger] keys@[t] == capture_key_spec(board.cells@, moves@[t]) by {
                assert(tables::has_pair(moves@, keys@, om, ok, t));
                let u = choose|u: int| 0 <= u < om.len() && #[trigger] tables::pair_at(moves@, keys@, om, ok, t, u);
            }
            assert forall|a: int, b: int| 0 <= a < b < moves@.len() implies capture_key_spec(board.cells@, #[trigger] moves@[a])
                <= capture_key_spec(board.cells@, #[trigger] moves@[b]) by {
                assert(keys@[a] <= keys@[b]);
            }
        }
    }

    /// Remembers a quiet move that caused a cutoff at `ply`.
    fn record_killer(&mut self, ply: usize, mv: Move)
        requires
            old(self).inv(),
            ply < MAX_PLY,
        ensures
            final(self).inv(),
            final(self).pv_table == old(self).pv_table,
            final(self).pv_len == old(self).pv_len,
            final(self).tt == old(self).tt,
            final(self).history == old(self).history,
            final(self).stop == old(self).stop,
            final(self).nodes == old(self).nodes,
            final(self).deadline_ms == old(self).deadline_ms,
            final(self).killers@ == if old(self).killers@[ply * 2] == Some(mv) {
                old(self).killers@
            } else {
                old(self).killers@.update(ply * 2 + 1, old(self).killers@[ply * 2]).update(ply * 2, Some(mv))
            },
    {
        let same = match self.killers[ply * 2] {
            Some(k) => k == mv,
            None => false,
        };
        if !same {
            let prev = self.killers[ply * 2];
            self.killers.set(ply * 2 + 1, prev);
            self.killers.set(ply * 2, Some(mv));
        }
    }

    /// Makes `mv` followed by the child's line the line of `ply`.
#[verifier::spinoff_prover]
    fn update_pv(&mut self, ply: usize, mv: Move)
        requires
            old(self).inv(),
            ply + 1 < MAX_PLY,
            mv.from < 128 && mv.to < 128,
        ensures
            final(self).inv(),
            final(self).tt == old(self).tt,
            final(self).killers == old(self).killers,
            final(self).history == old(self).history,
            final(self).stop == old(self).stop,
            final(self).nodes == old(self).nodes,
            final(self).deadline_ms == old(self).deadline_ms,
            ply > 0 ==> final(self).pv_head() == old(self).pv_head(),
            ply == 0 ==> final(self).pv_len@[0] > 0 && final(self).pv_table@[0] == mv,
    {
        proof {
            reveal(pv_ok);
        }
        self.pv_table.set(ply * MAX_PLY + ply, mv);
        let child_len = self.pv_len[ply + 1];
        copy_row(&mut self.pv_table, ply, child_len, Ghost(mv));
        let len = if child_len > ply + 1 {
            child_len
        } else {
            ply + 1
        };
        self.pv_len.set(ply, len);
    }

    /// The principal variation from the root.
#[verifier::spinoff_prover]
    fn collect_pv(&self) -> (r: Vec<Move>)
        requires
            self.inv(),
        ensures
            r@.len() == self.pv_len@[0],
            squares_ok(r@),
            r@.len() > 0 ==> r@[0] == self.pv_table@[0],
            r@ == self.pv_table@.subrange(0, self.pv_len@[0] as int),
    {
        proof {
            reveal(pv_ok);
        }
        let len = self.pv_len[0];
        let mut out: Vec<Move> = Vec::new();
        let mut i: usize = 0;
        while i < len
            invariant
                i <= len,
                len <= MAX_PLY,
                self.inv(),
                out@.len() == i,
                squares_ok(out@),
                squares_ok(self.pv_table@),
                i > 0 ==> out@[0] == self.pv_table@[0],
                len == self.pv_len@[0],
                out@ == self.pv_table@.subrange(0, i as int),
            decreases len - i,
        {
            out.push(self.pv_table[i]);
            i = i + 1;
        }
        out
    }
}


/// Legal moves have real squares.
proof fn lemma_legal_squares(p: Pos, moves: Seq<Move>)
    requires
        p.wf(),
        ep_sane(p),
        forall|m: Move| #[trigger] moves.contains(m) ==> legal(p, m),
    ensures
        squares_ok(moves),
{
    assert forall|i: int| 0 <= i < moves.len() implies (#[trigger] moves[i]).from < 128 && moves[i].to < 128 by {
        assert(moves.contains(moves[i]));
        lemma_legal_sane(p, moves[i]);
    }
}

/// `x + y`, or `i32::MAX` when that overflows (`y` non-negative).
fn sat_add(x: i32, y: i32) -> (r: i32)
    requires
        x >= 0,
        y >= 0,
    ensures
        r >= 0,
        r == if x + y > i32::MAX { i32::MAX as int } else { x + y },
{
    if x > i32::MAX - y {
        i32::MAX
    } else {
        x + y
    }
}

} // verus!
