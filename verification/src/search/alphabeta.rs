//! The alpha-beta search proper: quiescence, null-move pruning, the moves
//! of a node, and negamax.

use super::{
    from_tt, has_non_pawn_material, hist_idx, lemma_legal_squares, mvv_lva, pack, sat_add, some_legal, squares_ok, to_tt,
    unpack, Searcher, INF, MAX_PLY,
};
use crate::attacks::{in_check, in_check_spec};
use crate::board::{capped, insufficient_spec, repetition_spec, Board, Pos};
use crate::eval::{evaluate, evaluate_spec, MATE, MATE_THRESHOLD};
use crate::movegen::{ep_sane, gen_captures, legal, legal_moves, lemma_legal_sane, loud};
use crate::moves::{Move, MoveList};
use crate::see::see;
use crate::transposition::{settles, NodeType, ProbeResult};
use crate::zobrist::{ep_key_of, side_key_of};
use vstd::prelude::*;

verus! {

/// A position below the root that the search scores as a draw: repeated
/// once already, fifty moves without progress, or too little material.
pub open spec fn search_draw(b: Board) -> bool {
    capped(repetition_spec(b.key_line(), b.halfmove_clock, b.key)) >= 2 || b.halfmove_clock >= 100
        || insufficient_spec(b.cells@)
}

/// The depth searched at a node: one ply more when the side to move is in
/// check (below the ply limit).
pub open spec fn extended_depth(p: Pos, depth: int) -> int {
    if in_check_spec(p, p.side()) && depth < MAX_PLY - 1 {
        depth + 1
    } else {
        depth
    }
}

impl Searcher {
    /// Quiescence search: stand pat on the static evaluation, then try the
    /// loud moves, skipping captures that lose material by SEE.
#[verifier::spinoff_prover]
    #[verifier::rlimit(100)]
    fn quiescence(&mut self, board: &mut Board, alpha: i32, beta: i32, ply: usize) -> (r: i32)
        requires
            old(self).inv(),
            old(board).wf(),
            ep_sane(old(board).pos()),
            ply < MAX_PLY,
            -INF <= alpha < beta <= INF,
        ensures
            final(self).inv(),
            final(board).wf(),
            final(board).same_state(old(board)),
            final(self).pv_head() == old(self).pv_head(),
            -INF < r < INF,
            final(self).deadline_ms == old(self).deadline_ms,
            old(self).stop ==> final(self).stop,
            !old(self).stop && old(self).deadline_ms is None ==> !final(self).stop,
            !final(self).stop ==> alpha <= r <= beta,
            !final(self).stop && evaluate_spec(old(board).pos()) >= beta ==> r == beta,
            !final(self).stop ==> r == beta || r >= evaluate_spec(old(board).pos()),
        decreases MAX_PLY - ply,
    {
        let ghost b0 = *board;
        let ghost p0 = board.pos();
        let ghost head = self.pv_head();
        let ghost a_in = alpha;
        let ghost dl = self.deadline_ms;
        let mut al = alpha;
        self.nodes = self.nodes.wrapping_add(1);
        self.qnodes = self.qnodes.wrapping_add(1);
        self.check_time();
        if self.stop {
            return 0;
        }
        let stand = evaluate(board);
        if stand >= beta {
            return beta;
        }
        if stand > al {
            al = stand;
        }
        if ply + 1 >= MAX_PLY {
            return al;
        }
        let mut caps: MoveList = Vec::new();
        gen_captures(board, &mut caps);
        proof {
            lemma_legal_squares(p0, caps@);
        }
        self.order_captures(board, &mut caps);
        proof {
            lemma_legal_squares(p0, caps@);
        }
        let ghost alpha0 = al;
        let mut i: usize = 0;
        while i < caps.len()
            invariant
                self.inv(),
                board.wf(),
                board.same_state(&b0),
                p0 == b0.pos(),
                b0 == *old(board),
                head == old(self).pv_head(),
                p0.wf(),
                ep_sane(p0),
                self.pv_head() == head,
                ply + 1 < MAX_PLY,
                -INF <= al < beta <= INF,
                forall|m: Move| #[trigger] caps@.contains(m) ==> legal(p0, m),
                squares_ok(caps@),
                i <= caps@.len(),
                self.deadline_ms == dl,
                !old(self).stop,
                dl == old(self).deadline_ms,
                !self.stop,
                al >= alpha,
                al >= stand,
                stand == evaluate_spec(p0),
                -110010 <= stand <= 110010,
            decreases caps@.len() - i,
        {
            let mv = caps[i];
            proof {
                assert(caps@.contains(mv));
                lemma_legal_sane(p0, mv);
            }
            let skip = !mv.is_promotion() && !board.cells[mv.to].is_empty() && see(board, mv) < 0;
            if !skip {
                board.make_move_struct(mv);
                let child = self.quiescence(board, -beta, -al, ply + 1);
                let score = -child;
                let _ = board.unmake_move();
                proof {
                    assert(board.line() =~= b0.line());
                    assert(board.line_before() =~= b0.line_before());
                    assert(board.line_after() =~= b0.line_after());
                    assert(board.key_line() =~= b0.key_line());
                }
                if self.stop {
                    return 0;
                }
                if score >= beta {
                    return beta;
                }
                if score > al {
                    al = score;
                }
            }
            i = i + 1;
        }
        al
    }
}


/// Removing the en-passant key and flipping the side key gives the key of
/// the null-move position.
proof fn lemma_null_key(hc: u64, ck: u64, ek: u64, z: u64)
    ensures
        ((((hc ^ ck) ^ ek) ^ 0u64) ^ ek) ^ z == ((hc ^ ck) ^ 0u64) ^ z,
        ((((hc ^ ck) ^ ek) ^ z) ^ ek) ^ z == ((hc ^ ck) ^ 0u64) ^ 0u64,
{
    assert(((((hc ^ ck) ^ ek) ^ 0u64) ^ ek) ^ z == ((hc ^ ck) ^ 0u64) ^ z) by (bit_vector);
    assert(((((hc ^ ck) ^ ek) ^ z) ^ ek) ^ z == ((hc ^ ck) ^ 0u64) ^ 0u64) by (bit_vector);
}

/// The position with the other side to move and no en-passant target (a
/// null move).
pub open spec fn null_pos(p: Pos) -> Pos {
    Pos {
        side_white: !p.side_white,
        ep: None,
        key: crate::zobrist::hash_features(p.cells, !p.side_white, p.castling, None),
        ..p
    }
}

impl Searcher {
    /// The score of passing the move: the opponent moves twice, searched
    /// `2 + depth / 4` plies shallower with a null window at `beta`.
#[verifier::spinoff_prover]
    fn null_move_score(&mut self, board: &mut Board, depth: i32, ply: usize, beta: i32) -> (r: i32)
        requires
            old(self).inv(),
            old(board).wf(),
            ep_sane(old(board).pos()),
            ply + 1 < MAX_PLY,
            -INF < beta <= INF,
            3 <= depth <= 46340,
        ensures
            final(self).inv(),
            final(board).wf(),
            final(board).same_state(old(board)),
            -INF < r < INF,
            final(self).pv_head() == old(self).pv_head(),
            final(self).deadline_ms == old(self).deadline_ms,
            old(self).stop ==> final(self).stop,
            !old(self).stop && old(self).deadline_ms is None ==> !final(self).stop,
        decreases 4 * (MAX_PLY - ply) + 0,
    {
        let ghost p0 = board.pos();
        let r = 2 + depth / 4;
        let saved_ep = board.ep;
        let saved_key = board.key;
        proof {
            let hc = crate::zobrist::hash_cells(board.cells@, 128);
            let ck = crate::zobrist::castling_key(board.castling);
            lemma_null_key(hc, ck, crate::zobrist::ep_key(board.ep), crate::zobrist::zkey(crate::zobrist::SIDE_INDEX));
        }
        board.key = board.key ^ ep_key_of(board.ep);
        board.ep = None;
        board.side_white = !board.side_white;
        board.key = board.key ^ side_key_of(false);
        proof {
            assert(board.pos() == null_pos(p0));
        }
        let child = self.negamax(board, depth - 1 - r, ply + 1, -beta, -beta + 1, false);
        board.side_white = !board.side_white;
        board.ep = saved_ep;
        board.key = saved_key;
        assert(board.pos() == p0);
        -child
    }

    /// Plays `mv`, searches it (the first move with the full window, later
    /// ones with a null window, reduced when quiet and late, re-searched on a
    /// fail high), and takes it back.
    #[verifier::spinoff_prover]
    #[verifier::rlimit(60)]
    fn search_move(&mut self, board: &mut Board, mv: Move, depth: i32, ply: usize, alpha: i32, beta: i32, searched: usize, in_chk: bool, is_capture: bool) -> (r: i32)
        requires
            old(self).inv(),
            old(board).wf(),
            ep_sane(old(board).pos()),
            legal(old(board).pos(), mv),
            ply + 1 < MAX_PLY,
            -INF <= alpha < beta <= INF,
            1 <= depth <= 46340,
        ensures
            final(self).inv(),
            final(board).wf(),
            final(board).same_state(old(board)),
            -INF < r < INF,
            final(self).pv_head() == old(self).pv_head(),
            final(self).deadline_ms == old(self).deadline_ms,
            old(self).stop ==> final(self).stop,
            !old(self).stop && old(self).deadline_ms is None ==> !final(self).stop,
        decreases 4 * (MAX_PLY - ply) + 0,
    {
        let ghost b0 = *board;
        let ghost p0 = board.pos();
        proof {
            lemma_legal_sane(p0, mv);
        }
        board.make_move_struct(mv);
        let gives_check = in_check(board, board.side_to_move());
        let mut score: i32;
        if searched == 0 {
            let c = self.negamax(board, depth - 1, ply + 1, -beta, -alpha, true);
            score = -c;
        } else {
            let mut reduction: i32 = 0;
            if depth >= 3 && !is_capture && !in_chk && !gives_check && searched >= 4 {
                reduction = 1 + if searched >= 8 {
                    1
                } else {
                    0
                };
            }
            let c = self.negamax(board, depth - 1 - reduction, ply + 1, -alpha - 1, -alpha, true);
            score = -c;
            if score > alpha && (reduction > 0 || score < beta) {
                let c2 = self.negamax(board, depth - 1, ply + 1, -beta, -alpha, true);
                score = -c2;
            }
        }
        let _ = board.unmake_move();
        proof {
            assert(board.line() =~= b0.line());
            assert(board.line_before() =~= b0.line_before());
            assert(board.line_after() =~= b0.line_after());
            assert(board.key_line() =~= b0.key_line());
        }
        score
    }

    /// Searches the ordered `moves` of the node in turn, raising `alpha`,
    /// until one fails high. Returns the best score and move; at the root,
    /// each move that raises `alpha` becomes the head of the principal
    /// variation.
    #[verifier::spinoff_prover]
    #[verifier::rlimit(60)]
    fn search_moves(&mut self, board: &mut Board, moves: &MoveList, depth: i32, ply: usize, alpha: i32, beta: i32, in_chk: bool) -> (r: (i32, Move))
        requires
            old(self).inv(),
            old(board).wf(),
            ep_sane(old(board).pos()),
            moves@.len() > 0,
            forall|m: Move| #[trigger] moves@.contains(m) ==> legal(old(board).pos(), m),
            squares_ok(moves@),
            ply + 1 < MAX_PLY,
            -INF <= alpha < beta <= INF,
            1 <= depth <= 46340,
        ensures
            final(self).inv(),
            final(board).wf(),
            final(board).same_state(old(board)),
            -INF < r.0 < INF,
            legal(old(board).pos(), r.1),
            ply > 0 ==> final(self).pv_head() == old(self).pv_head(),
            ply == 0 && !final(self).stop && r.0 > alpha ==> final(self).pv_len@[0] > 0,
            final(self).deadline_ms == old(self).deadline_ms,
            old(self).stop ==> final(self).stop,
            !old(self).stop && old(self).deadline_ms is None ==> !final(self).stop,
            ply == 0 ==> (old(self).pv_len@[0] > 0 ==> legal(old(board).pos(), old(self).pv_table@[0]))
                ==> (final(self).pv_len@[0] > 0 ==> legal(old(board).pos(), final(self).pv_table@[0])),
        decreases 4 * (MAX_PLY - ply) + 1,
    {
        let ghost b0 = *board;
        let ghost p0 = board.pos();
        let ghost head = self.pv_head();
        let ghost root_ok = old(self).pv_len@[0] > 0 ==> legal(p0, old(self).pv_table@[0]);
        let mut al = alpha;
        proof {
            assert(moves@.contains(moves@[0]));
        }
        let mut best: i32 = -INF;
        let mut best_move = moves[0];
        let mut searched: usize = 0;
        let mut cut = false;
        let mut i: usize = 0;
        while i < moves.len() && !cut
            invariant
                self.inv(),
                board.wf(),
                board.same_state(&b0),
                p0 == b0.pos(),
                b0 == *old(board),
                head == old(self).pv_head(),
                root_ok == (old(self).pv_len@[0] > 0 ==> legal(p0, old(self).pv_table@[0])),
                p0.wf(),
                ep_sane(p0),
                ply + 1 < MAX_PLY,
                1 <= depth <= 46340,
                -INF <= al <= INF,
                !cut ==> al < beta,
                al < beta || cut,
                beta <= INF,
                -INF <= best <= INF,
                searched == i,
                i <= moves@.len(),
                forall|m: Move| #[trigger] moves@.contains(m) ==> legal(p0, m),
                squares_ok(moves@),
                legal(p0, best_move),
                ply > 0 ==> self.pv_head() == head,
                ply == 0 ==> root_ok ==> (self.pv_len@[0] > 0 ==> legal(p0, self.pv_table@[0])),
                self.deadline_ms == old(self).deadline_ms,
                old(self).stop ==> self.stop,
                i > 0 ==> !self.stop,
                !old(self).stop && old(self).deadline_ms is None ==> !self.stop,
                i > 0 ==> -INF < best < INF,
                cut ==> i > 0,
                i == 0 ==> best == -INF,
                al >= alpha,
                ply == 0 && (best > alpha || al > alpha) ==> self.pv_len@[0] > 0,
                moves@.len() > 0,
            decreases moves@.len() - i,
        {
            let mv = moves[i];
            proof {
                assert(moves@.contains(mv));
                assert(mv.from < 128 && mv.to < 128);
            }
            let is_capture = !board.cells[mv.to].is_empty() || mv.is_promotion();
            let score = self.search_move(board, mv, depth, ply, al, beta, searched, in_chk, is_capture);
            searched = searched + 1;
            if self.stop {
                return (0, best_move);
            }
            assert(-INF < score < INF);
            if score > best {
                best = score;
                best_move = mv;
                if score > al {
                    al = score;
                    self.update_pv(ply, mv);
                }
            }
            if al >= beta {
                self.beta_cutoffs = self.beta_cutoffs.wrapping_add(1);
                if searched == 1 {
                    self.first_move_cutoffs = self.first_move_cutoffs.wrapping_add(1);
                }
                if !is_capture {
                    self.record_killer(ply, mv);
                    let idx = hist_idx(mv);
                    let h = self.history[idx];
                    assert(0 <= depth * depth <= 2147395600) by (nonlinear_arith)
                        requires
                            1 <= depth <= 46340,
                    ;
                    self.history.set(idx, sat_add(h, depth * depth));
                }
                cut = true;
            }
            i = i + 1;
        }
        (best, best_move)
    }

    /// Probes the table for a node; only the table's counters change.
    fn probe_node(&mut self, key: u64, depth: i32, alpha: i32, beta: i32) -> (r: ProbeResult)
        requires
            old(self).inv(),
        ensures
            final(self).inv(),
            final(self).pv_len == old(self).pv_len,
            final(self).pv_table == old(self).pv_table,
            final(self).killers == old(self).killers,
            final(self).history == old(self).history,
            final(self).nodes == old(self).nodes,
            final(self).stop == old(self).stop,
            final(self).deadline_ms == old(self).deadline_ms,
            r matches ProbeResult::Usable(s, _) ==> -INF <= s <= INF,
            ({
                let e = old(self).tt.entries@[old(self).tt.slot(key)];
                match r {
                    ProbeResult::Usable(score, best) => e.used && e.key == key && settles(e, depth as int, alpha as int, beta as int)
                        && score == e.score && best == e.best,
                    ProbeResult::Found(f) => e.used && e.key == key && !settles(e, depth as int, alpha as int, beta as int) && f == e,
                    ProbeResult::Miss => !(e.used && e.key == key),
                }
            }),
    {
        let ghost tt0 = self.tt.entries@;
        let ghost k = self.tt.slot(key);
        let n_slots = self.tt.entries.len();
        proof {
            assert(n_slots > 0);
            let len = n_slots as u64;
            assert(key % len < len);
            assert(0 <= k < tt0.len());
            assert(-INF <= tt0[k].score <= INF);
        }
        self.tt.probe(key, depth, alpha, beta)
    }

    /// The moves of a node: generates and orders them, searches them, and
    /// stores the result; mate or stalemate when there are none.
    #[verifier::spinoff_prover]
    #[verifier::rlimit(60)]
    fn expand(&mut self, board: &mut Board, depth: i32, ply: usize, alpha: i32, beta: i32, in_chk: bool, tt_move: Option<Move>) -> (r: i32)
        requires
            old(self).inv(),
            old(board).wf(),
            ep_sane(old(board).pos()),
            ply + 1 < MAX_PLY,
            -INF <= alpha < beta <= INF,
            1 <= depth <= 46340,
        ensures
            final(self).inv(),
            final(board).wf(),
            final(board).same_state(old(board)),
            -INF < r < INF,
            ply > 0 ==> final(self).pv_head() == old(self).pv_head(),
            ply == 0 ==> (old(self).pv_len@[0] > 0 ==> legal(old(board).pos(), old(self).pv_table@[0]))
                ==> (final(self).pv_len@[0] > 0 ==> legal(old(board).pos(), final(self).pv_table@[0])),
            !some_legal(old(board).pos()) ==> r == if in_chk {
                -MATE + ply
            } else {
                0
            },
            ply == 0 && !final(self).stop && r > alpha && some_legal(old(board).pos()) ==> final(self).pv_len@[0] > 0,
            final(self).deadline_ms == old(self).deadline_ms,
            old(self).stop ==> final(self).stop,
            !old(self).stop && old(self).deadline_ms is None ==> !final(self).stop,
        decreases 4 * (MAX_PLY - ply) + 2,
    {
        let ghost p0 = board.pos();
        let mut moves: MoveList = Vec::new();
        legal_moves(board, &mut moves);
        if moves.len() == 0 {
            proof {
                reveal(some_legal);
                if exists|m: Move| legal(p0, m) {
                    let m = choose|m: Move| legal(p0, m);
                    assert(moves@.contains(m));
                }
            }
            return if in_chk {
                -MATE + ply as i32
            } else {
                0
            };
        }
        proof {
            lemma_legal_squares(p0, moves@);
        }
        self.order_moves(board, &mut moves, tt_move, ply);
        proof {
            lemma_legal_squares(p0, moves@);
            assert(moves@.contains(moves@[0]));
            reveal(some_legal);
            assert(legal(p0, moves@[0]));
        }

        let orig_alpha = alpha;
        let (best, best_move) = self.search_moves(board, &moves, depth, ply, alpha, beta, in_chk);
        proof {
            lemma_legal_sane(p0, best_move);
        }

        // Store the result with the mate distance made node-relative.
        let node_type = if best <= orig_alpha {
            NodeType::UpperBound
        } else if best >= beta {
            NodeType::LowerBound
        } else {
            NodeType::Exact
        };
        let stored = to_tt(best, ply);
        self.tt.store(board.key, depth, stored, node_type, Some(pack(best_move)));
        best
    }

    /// Negamax alpha-beta search of `depth` plies at distance `ply` from the
    /// root, with the window `(alpha, beta)`. At the root it leaves the best
    /// move found as the first move of the principal variation.
    #[verifier::spinoff_prover]
    #[verifier::rlimit(15)]
    pub(in crate::search) fn negamax(&mut self, board: &mut Board, depth: i32, ply: usize, alpha: i32, beta: i32, do_null: bool) -> (r: i32)
        requires
            old(self).inv(),
            old(board).wf(),
            ep_sane(old(board).pos()),
            ply < MAX_PLY,
            -INF <= alpha < beta <= INF,
            -8 <= depth <= 46340,
        ensures
            final(self).inv(),
            final(board).wf(),
            final(board).same_state(old(board)),
            -INF <= r <= INF,
            ply > 0 || beta - alpha > 1 ==> -INF < r < INF,
            ply > 0 ==> final(self).pv_head() == old(self).pv_head(),
            ply == 0 ==> (final(self).pv_len@[0] > 0 ==> legal(old(board).pos(), final(self).pv_table@[0])),
            ply == 0 && depth >= 1 && beta - alpha > 1 && !final(self).stop && r > alpha && some_legal(old(board).pos())
                ==> final(self).pv_len@[0] > 0,
            final(self).deadline_ms == old(self).deadline_ms,
            old(self).stop ==> final(self).stop,
            !old(self).stop && old(self).deadline_ms is None ==> !final(self).stop,
            ({
                let p = old(board).pos();
                let live = !old(self).stop && old(self).deadline_ms is None;
                let inner = ply + 1 < MAX_PLY && !(ply > 0 && search_draw(*old(board)));
                let d = extended_depth(p, depth as int);
                &&& live && ply + 1 >= MAX_PLY ==> r == evaluate_spec(p)
                &&& live && ply + 1 < MAX_PLY && ply > 0 && search_draw(*old(board)) ==> r == 0
                &&& live && inner && d <= 0 ==> alpha <= r <= beta && (evaluate_spec(p) >= beta ==> r == beta)
                    && (r == beta || r >= evaluate_spec(p))
                &&& live && inner && d >= 1 && beta - alpha > 1 && !some_legal(p) ==> r == if in_check_spec(
                    p,
                    p.side(),
                ) {
                    -MATE + ply
                } else {
                    0
                }
            }),
        decreases 4 * (MAX_PLY - ply) + 3,
    {
        let ghost b0 = *board;
        let ghost p0 = board.pos();
        let ghost head = self.pv_head();
        let mut alpha = alpha;
        self.pv_len.set(ply, ply);
        self.nodes = self.nodes.wrapping_add(1);
        self.check_time();
        if self.stop {
            return 0;
        }
        if ply + 1 >= MAX_PLY {
            return evaluate(board);
        }
        let color = board.side_to_move();
        let in_chk = in_check(board, color);
        if ply > 0 && (board.repetition_count() >= 2 || board.is_fifty_move_draw()
            || board.is_insufficient_material()) {
            return 0;
        }
        let depth = if in_chk && depth < MAX_PLY as i32 - 1 {
            depth + 1
        } else {
            depth
        };
        if depth <= 0 {
            return self.quiescence(board, alpha, beta, ply);
        }
        let is_pv = beta - alpha > 1;

        // Transposition table probe.
        let mut tt_move: Option<Move> = None;
        match self.probe_node(board.key, depth, alpha, beta) {
            ProbeResult::Usable(score, _) => {
                if !is_pv {
                    return from_tt(score, ply);
                }
            },
            ProbeResult::Found(entry) => {
                tt_move = unpack(entry.best);
            },
            ProbeResult::Miss => {},
        }

        // Null-move pruning.
        if do_null && !is_pv && depth >= 3 && !in_chk && has_non_pawn_material(board) {
            let score = self.null_move_score(board, depth, ply, beta);
            if self.stop {
                return 0;
            }
            if score >= beta && score < MATE_THRESHOLD && score > -MATE_THRESHOLD {
                return beta;
            }
        }

        self.expand(board, depth, ply, alpha, beta, in_chk, tt_move)
    }
}


} // verus!
