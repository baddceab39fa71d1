//! Iterative deepening: the driver that runs the search depth by depth
//! and reports each completed depth.

use super::{elapsed_ms, instant_now, score_text, some_legal, squares_ok, SearchLimits, SearchResult, Searcher, INF, MAX_PLY};
use crate::board::{Board, Pos};
use crate::eval::MATE_THRESHOLD;
use crate::log::SearchTelemetry;
use crate::movegen::{ep_sane, legal, lemma_legal_sane};
use crate::moves::Move;
use crate::text::{decimal, push_decimal, push_decimal_u128, push_signed_decimal, signed_decimal, string_from_chars};
use vstd::prelude::*;

verus! {

/// The UCI words of a line of moves, separated by spaces.
pub open spec fn pv_text(pv: Seq<Move>) -> Seq<char>
    decreases pv.len(),
{
    if pv.len() == 0 {
        seq![]
    } else if pv.len() == 1 {
        crate::moves::uci_text(pv[0])
    } else {
        pv_text(pv.drop_last()) + seq![' '] + crate::moves::uci_text(pv.last())
    }
}

/// The `info` line reported for a completed depth.
pub open spec fn info_text(depth: int, score: int, nodes: u64, time: u128, pv: Seq<Move>) -> Seq<char> {
    "info depth "@ + signed_decimal(depth) + " score "@ + score_text(score) + " nodes "@ + decimal(
        nodes as nat,
    ) + " time "@ + decimal(time as nat) + " pv "@ + pv_text(pv)
}

fn push_str(out: &mut Vec<char>, s: &str)
    ensures
        final(out)@ == old(out)@ + s@,
{
    crate::text::extend_str(out, s);
}

/// The `info` line for a completed depth.
#[verifier::spinoff_prover]
fn info_line(result: &SearchResult) -> (s: String)
    requires
        -INF <= result.score <= INF,
        squares_ok(result.pv@),
    ensures
        s@ == info_text(result.depth as int, result.score as int, result.nodes, result.time_ms, result.pv@),
{
    let mut out: Vec<char> = Vec::new();
    push_str(&mut out, "info depth ");
    push_signed_decimal(&mut out, result.depth as i64);
    push_str(&mut out, " score ");
    let sc = result.score_string();
    crate::text::extend_str(&mut out, sc.as_str());
    push_str(&mut out, " nodes ");
    push_decimal(&mut out, result.nodes);
    push_str(&mut out, " time ");
    push_decimal_u128(&mut out, result.time_ms);
    push_str(&mut out, " pv ");
    let ghost head = out@;
    let mut i: usize = 0;
    while i < result.pv.len()
        invariant
            i <= result.pv@.len(),
            squares_ok(result.pv@),
            out@ == head + pv_text(result.pv@.subrange(0, i as int)),
        decreases result.pv@.len() - i,
    {
        let ghost before = out@;
        if i > 0 {
            out.push(' ');
        }
        let m = result.pv[i];
        m.push_uci(&mut out);
        proof {
            let sub = result.pv@.subrange(0, i as int + 1);
            assert(sub.drop_last() =~= result.pv@.subrange(0, i as int));
            assert(sub.last() == m);
            if i == 0 {
                assert(out@ =~= head + pv_text(sub));
            } else {
                assert(out@ =~= head + pv_text(sub));
            }
        }
        i = i + 1;
    }
    proof {
        assert(result.pv@.subrange(0, result.pv@.len() as int) =~= result.pv@);
        assert(out@ =~= info_text(result.depth as int, result.score as int, result.nodes, result.time_ms, result.pv@));
    }
    string_from_chars(out.as_slice())
}

/// What a search result promises: its best move is legal in `p`, it is the
/// first move of the principal variation (none without one), and its score
/// is in range.
pub open spec fn result_ok(res: SearchResult, p: Pos) -> bool {
    &&& (res.best_move matches Some(m) ==> legal(p, m))
    &&& (res.pv@.len() > 0 ==> res.best_move == Some(res.pv@[0]))
    &&& (res.pv@.len() == 0 ==> res.best_move is None)
    &&& -INF <= res.score <= INF
    &&& squares_ok(res.pv@)
}

/// What a search of `p` within `limits` gives: a well-formed result; a
/// best move exactly when `p` has a legal move, if no time limit can cut
/// the search short; and, with no time limit, the depth asked for, unless
/// a proven mate ended the deepening earlier. Its telemetry counts the
/// same nodes as the result.
pub open spec fn search_outcome(res: SearchResult, p: Pos, limits: SearchLimits) -> bool {
    &&& result_ok(res, p)
    &&& (limits.movetime_ms is None && limits.max_depth >= 1 && some_legal(p) ==> res.best_move is Some)
    &&& (!some_legal(p) ==> res.best_move is None)
    &&& (limits.movetime_ms is None && limits.max_depth >= 1 ==> 1 <= res.depth <= limits.max_depth && (res.depth
        == limits.max_depth || res.score >= MATE_THRESHOLD || res.score <= -MATE_THRESHOLD))
    &&& res.telemetry.nodes == res.nodes
}

/// An empty result.
fn empty_result() -> (r: SearchResult)
    ensures
        r.best_move is None,
        r.pv@.len() == 0,
        r.score == 0,
        r.depth == 0,
        r.nodes == 0,
        r.time_ms == 0,
        r.info@.len() == 0,
        r.telemetry == (SearchTelemetry {
            nodes: 0,
            qnodes: 0,
            tt_hits: 0,
            tt_probes: 0,
            beta_cutoffs: 0,
            first_move_cutoffs: 0,
            elapsed_ms: 0,
        }),
{
    SearchResult {
        best_move: None,
        score: 0,
        depth: 0,
        nodes: 0,
        pv: Vec::new(),
        time_ms: 0,
        telemetry: SearchTelemetry {
            nodes: 0,
            qnodes: 0,
            tt_hits: 0,
            tt_probes: 0,
            beta_cutoffs: 0,
            first_move_cutoffs: 0,
            elapsed_ms: 0,
        },
        info: Vec::new(),
    }
}

fn halve_history(history: &mut Vec<i32>)
    requires
        old(history)@.len() == 16384,
        forall|i: int| 0 <= i < 16384 ==> #[trigger] old(history)@[i] >= 0,
    ensures
        final(history)@.len() == 16384,
        forall|i: int| 0 <= i < 16384 ==> #[trigger] final(history)@[i] == old(history)@[i] / 2,
{
    let mut h: usize = 0;
    while h < 16384
        invariant
            h <= 16384,
            history@.len() == 16384,
            forall|j: int| 0 <= j < h ==> #[trigger] history@[j] == old(history)@[j] / 2,
            forall|j: int| h <= j < 16384 ==> #[trigger] history@[j] == old(history)@[j],
            forall|j: int| 0 <= j < 16384 ==> #[trigger] old(history)@[j] >= 0,
        decreases 16384 - h,
    {
        let v = history[h];
        history.set(h, v / 2);
        h = h + 1;
    }
}

fn zero_lens(pv_len: &mut Vec<usize>)
    requires
        old(pv_len)@.len() == MAX_PLY,
    ensures
        final(pv_len)@.len() == MAX_PLY,
        forall|i: int| 0 <= i < MAX_PLY ==> #[trigger] final(pv_len)@[i] == 0,
{
    let mut i: usize = 0;
    while i < MAX_PLY
        invariant
            i <= MAX_PLY,
            pv_len@.len() == MAX_PLY,
            forall|j: int| 0 <= j < i ==> #[trigger] pv_len@[j] == 0,
        decreases MAX_PLY - i,
    {
        pv_len.set(i, 0);
        i = i + 1;
    }
}

impl Searcher {
    /// One iteration: search `depth` plies with an aspiration window of
    /// ±50 around `prev_score` (from depth 4; the full window before),
    /// widened by 200 on the side that failed, and opened fully once both
    /// sides reach the limits.
    #[verifier::spinoff_prover]
    fn aspiration(&mut self, board: &mut Board, depth: i32, prev_score: i32) -> (score: i32)
        requires
            old(self).inv(),
            old(board).wf(),
            ep_sane(old(board).pos()),
            1 <= depth <= 46340,
            -INF <= prev_score <= INF,
            old(self).pv_len@[0] == 0,
        ensures
            final(self).inv(),
            final(board).wf(),
            final(board).same_state(old(board)),
            -INF < score < INF,
            final(self).pv_len@[0] > 0 ==> legal(old(board).pos(), final(self).pv_table@[0]),
            final(self).deadline_ms == old(self).deadline_ms,
            old(self).stop ==> final(self).stop,
            !old(self).stop && old(self).deadline_ms is None ==> !final(self).stop,
            !final(self).stop && some_legal(old(board).pos()) ==> final(self).pv_len@[0] > 0,
    {
        let ghost b0 = *board;
        let ghost p0 = board.pos();
        let mut alpha: i32 = if depth >= 4 {
            if prev_score - 50 > -INF {
                prev_score - 50
            } else {
                -INF
            }
        } else {
            -INF
        };
        let mut beta: i32 = if depth >= 4 {
            if prev_score + 50 < INF {
                prev_score + 50
            } else {
                INF
            }
        } else {
            INF
        };
        let mut score: i32 = 0;
        let mut settled = false;
        while !settled
            invariant
                self.inv(),
                board.wf(),
                board.same_state(&b0),
                p0 == b0.pos(),
                b0 == *old(board),
                p0.wf(),
                ep_sane(p0),
                1 <= depth <= 46340,
                -INF <= alpha < beta <= INF,
                beta - alpha > 1,
                -INF < score < INF,
                self.pv_len@[0] > 0 ==> legal(p0, self.pv_table@[0]),
                self.deadline_ms == old(self).deadline_ms,
                old(self).stop ==> self.stop,
                !old(self).stop && old(self).deadline_ms is None ==> !self.stop,
                settled && !self.stop && some_legal(p0) ==> self.pv_len@[0] > 0,
            decreases (alpha + INF) + (INF - beta), if settled { 0int } else { 1int },
        {
            let s = self.negamax(board, depth, 0, alpha, beta, true);
            score = s;
            if self.stop {
                settled = true;
            } else if s > alpha && s < beta {
                settled = true;
            } else {
                let a0 = alpha;
                let b0w = beta;
                if s <= alpha {
                    alpha = if alpha - 200 > -INF {
                        alpha - 200
                    } else {
                        -INF
                    };
                } else {
                    beta = if beta + 200 < INF {
                        beta + 200
                    } else {
                        INF
                    };
                }
                if alpha <= -INF + 1 && beta >= INF - 1 {
                    score = self.negamax(board, depth, 0, -INF, INF, true);
                    settled = true;
                } else if alpha == a0 && beta == b0w {
                    settled = true;
                }
            }
        }
        score
    }

    /// The result of a completed depth: the principal variation found, its
    /// score, and the counters, with an `info` line added when `verbose`.
    fn depth_result(&self, prev: SearchResult, score: i32, depth: i32, tt_hits0: u64, tt_probes0: u64, verbose: bool, Ghost(p0): Ghost<Pos>) -> (r: SearchResult)
        requires
            self.inv(),
            p0.wf(),
            ep_sane(p0),
            -INF <= score <= INF,
            self.pv_len@[0] > 0 ==> legal(p0, self.pv_table@[0]),
        ensures
            result_ok(r, p0),
            r.score == score,
            r.depth == depth,
            r.nodes == self.nodes,
            r.pv@ == self.pv_table@.subrange(0, self.pv_len@[0] as int),
            r.best_move == if self.pv_len@[0] > 0 {
                Some(self.pv_table@[0])
            } else {
                None
            },
            r.time_ms == r.telemetry.elapsed_ms,
            r.telemetry.nodes == self.nodes,
            r.telemetry.qnodes == self.qnodes,
            r.telemetry.beta_cutoffs == self.beta_cutoffs,
            r.telemetry.first_move_cutoffs == self.first_move_cutoffs,
            r.telemetry.tt_hits == self.tt.hits.wrapping_sub(tt_hits0),
            r.telemetry.tt_probes == self.tt.probes.wrapping_sub(tt_probes0),
            r.info@.len() == prev.info@.len() + if verbose {
                1int
            } else {
                0int
            },
            forall|i: int| 0 <= i < prev.info@.len() ==> #[trigger] r.info@[i] == prev.info@[i],
    {
        let pv = self.collect_pv();
        let elapsed = elapsed_ms(&self.start);
        let best_move = if pv.len() > 0 {
            Some(pv[0])
        } else {
            None
        };
        proof {
            if pv@.len() > 0 {
                lemma_legal_sane(p0, pv@[0]);
            }
        }
        let mut result = SearchResult {
            best_move,
            score,
            depth,
            nodes: self.nodes,
            pv,
            time_ms: elapsed,
            telemetry: SearchTelemetry {
                nodes: self.nodes,
                qnodes: self.qnodes,
                tt_hits: self.tt.hits.wrapping_sub(tt_hits0),
                tt_probes: self.tt.probes.wrapping_sub(tt_probes0),
                beta_cutoffs: self.beta_cutoffs,
                first_move_cutoffs: self.first_move_cutoffs,
                elapsed_ms: elapsed,
            },
            info: prev.info,
        };
        if verbose {
            let line = info_line(&result);
            result.info.push(line);
        }
        result
    }

    /// Iterative deepening from depth 1 up to `limits.max_depth`, with an
    /// aspiration window around the previous score from depth 4. Stops on a
    /// proven mate, when time is up, or when a deeper iteration is cut short
    /// (keeping the last complete one). The best move, when there is one, is
    /// legal, and the board ends as it started.
    #[verifier::spinoff_prover]
    pub fn think(&mut self, board: &mut Board, limits: SearchLimits) -> (res: SearchResult)
        requires
            old(self).inv(),
            old(board).wf(),
            ep_sane(old(board).pos()),
            limits.max_depth <= 46340,
        ensures
            final(self).inv(),
            final(board).wf(),
            final(board).same_state(old(board)),
            search_outcome(res, old(board).pos(), limits),
    {
        let ghost b0 = *board;
        let ghost p0 = board.pos();
        self.nodes = 0;
        self.qnodes = 0;
        self.beta_cutoffs = 0;
        self.first_move_cutoffs = 0;
        let tt_probes0 = self.tt.probes;
        let tt_hits0 = self.tt.hits;
        self.stop = false;
        self.start = instant_now();
        self.deadline_ms = limits.movetime_ms;
        self.tt.new_search();
        halve_history(&mut self.history);
        let mut result = empty_result();
        let mut prev_score: i32 = 0;
        let mut depth: i32 = 1;
        let mut done = false;
        while depth <= limits.max_depth && !done
            invariant
                self.inv(),
                board.wf(),
                board.same_state(&b0),
                p0 == b0.pos(),
                b0 == *old(board),
                p0.wf(),
                ep_sane(p0),
                1 <= depth,
                limits.max_depth <= 46340,
                -INF <= prev_score <= INF,
                result_ok(result, p0),
                self.deadline_ms == limits.movetime_ms,
                limits.movetime_ms is None ==> !self.stop,
                depth > 1 && limits.movetime_ms is None && some_legal(p0) ==> result.best_move is Some,
                done ==> depth > 1,
                depth == 1 || depth <= limits.max_depth + 1,
                depth > 1 && limits.movetime_ms is None ==> result.depth == depth - 1,
                done && limits.movetime_ms is None ==> result.score >= MATE_THRESHOLD || result.score <= -MATE_THRESHOLD,
                result.telemetry.nodes == result.nodes,
            decreases limits.max_depth + 1 - depth,
        {
            zero_lens(&mut self.pv_len);
            let score = self.aspiration(board, depth, prev_score);
            if self.stop && result.best_move.is_some() {
                done = true;
            } else {
                prev_score = score;
                result = self.depth_result(result, score, depth, tt_hits0, tt_probes0, limits.verbose, Ghost(p0));
                if score >= MATE_THRESHOLD || score <= -MATE_THRESHOLD {
                    done = true;
                } else if self.time_up() {
                    done = true;
                }
            }
            depth = depth + 1;
        }
        proof {
            if result.best_move is Some {
                reveal(some_legal);
                assert(legal(p0, result.best_move->0));
            }
        }
        result
    }
}


impl Default for Searcher {
    /// A searcher with a 64 MB table.
    fn default() -> (s: Searcher)
        ensures
            s.inv(),
    {
        Searcher::new(64)
    }
}

/// The best move for the side to move, searching `depth` plies (at least
/// one) within an optional time budget. Any move returned is legal, and the
/// board ends as it started.
pub fn ai_move(board: &mut Board, depth: i32, time_ms: Option<u64>) -> (r: Option<Move>)
    requires
        old(board).wf(),
        ep_sane(old(board).pos()),
        depth <= 46340,
    ensures
        final(board).wf(),
        final(board).same_state(old(board)),
        r matches Some(m) ==> legal(old(board).pos(), m),
        time_ms is None && some_legal(old(board).pos()) ==> r is Some,
        !some_legal(old(board).pos()) ==> r is None,
{
    let mut searcher = Searcher::new(64);
    let limits = SearchLimits {
        max_depth: if depth > 1 {
            depth
        } else {
            1
        },
        movetime_ms: time_ms,
        verbose: false,
    };
    searcher.think(board, limits).best_move
}

/// Runs a search with a fresh searcher and returns the full result.
pub fn search(board: &mut Board, limits: SearchLimits) -> (res: SearchResult)
    requires
        old(board).wf(),
        ep_sane(old(board).pos()),
        limits.max_depth <= 46340,
    ensures
        final(board).wf(),
        final(board).same_state(old(board)),
        search_outcome(res, old(board).pos(), limits),
{
    let mut searcher = Searcher::new(64);
    searcher.think(board, limits)
}

} // verus!
