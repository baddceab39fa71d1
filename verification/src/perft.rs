//! Perft: the number of leaf nodes of the legal-move tree to a given depth,
//! the move generator's correctness oracle, and its breakdown by root move.

use crate::board::{Board, Pos};
use crate::movegen::{ep_sane, legal, legal_moves, lemma_legal_sane};
use crate::moves::{uci_text, Move, MoveList};
use crate::text::string_from_chars;
use vstd::prelude::*;

verus! {

/// The legal moves of `p`, each once, in some fixed order.
pub open spec fn legal_seq(p: Pos) -> Seq<Move> {
    choose|s: Seq<Move>| s.no_duplicates() && forall|m: Move| #[trigger] s.contains(m) <==> legal(p, m)
}

/// The number of leaf nodes `d` plies below `p`: one at depth 0, and
/// otherwise the sum over the legal moves of `p` of the count below the
/// position each one leads to.
pub open spec fn perft_spec(p: Pos, d: nat) -> nat
    decreases d, 1int, 0int,
{
    if d == 0 {
        1
    } else {
        perft_sum(p, legal_seq(p), d)
    }
}

/// The sum over the moves `ms` of the counts `d - 1` plies below the
/// positions they lead to from `p`.
pub open spec fn perft_sum(p: Pos, ms: Seq<Move>, d: nat) -> nat
    decreases d, 0int, ms.len(),
{
    if ms.len() == 0 || d == 0 {
        0
    } else {
        perft_sum(p, ms.drop_last(), d) + perft_spec(p.after(ms.last()), (d - 1) as nat)
    }
}

/// Taking one move out of the sum takes out its count.
proof fn lemma_sum_remove(p: Pos, b: Seq<Move>, k: int, d: nat)
    requires
        0 <= k < b.len(),
        d > 0,
    ensures
        perft_sum(p, b, d) == perft_sum(p, b.remove(k), d) + perft_spec(p.after(b[k]), (d - 1) as nat),
    decreases b.len(),
{
    if k == b.len() - 1 {
        assert(b.remove(k) =~= b.drop_last());
    } else {
        lemma_sum_remove(p, b.drop_last(), k, d);
        assert(b.remove(k).drop_last() =~= b.drop_last().remove(k));
        assert(b.remove(k).last() == b.last());
    }
}

/// The sum does not depend on the order of the moves.
pub proof fn lemma_sum_perm(p: Pos, a: Seq<Move>, b: Seq<Move>, d: nat)
    requires
        a.no_duplicates(),
        b.no_duplicates(),
        forall|m: Move| #[trigger] a.contains(m) <==> b.contains(m),
    ensures
        perft_sum(p, a, d) == perft_sum(p, b, d),
    decreases a.len(),
{
    if d == 0 {
    } else if a.len() == 0 {
        if b.len() > 0 {
            assert(b.contains(b[0]));
            assert(a.contains(b[0]));
        }
    } else {
        let x = a.last();
        assert(a.contains(x));
        let k = choose|k: int| 0 <= k < b.len() && b[k] == x;
        lemma_sum_remove(p, b, k, d);
        let a2 = a.drop_last();
        let b2 = b.remove(k);
        assert forall|i: int, j: int| 0 <= i < b2.len() && 0 <= j < b2.len() && i != j implies b2[i] != b2[j] by {
            let ii = if i < k { i } else { i + 1 };
            let jj = if j < k { j } else { j + 1 };
            assert(b2[i] == b[ii] && b2[j] == b[jj]);
        }
        assert forall|i: int, j: int| 0 <= i < a2.len() && 0 <= j < a2.len() && i != j implies a2[i] != a2[j] by {
            assert(a2[i] == a[i] && a2[j] == a[j]);
        }
        assert forall|m: Move| #[trigger] a2.contains(m) <==> b2.contains(m) by {
            if a2.contains(m) {
                let i = choose|i: int| 0 <= i < a2.len() && a2[i] == m;
                assert(a[i] == m);
                assert(a.contains(m));
                let j = choose|j: int| 0 <= j < b.len() && b[j] == m;
                assert(m != x);
                assert(j != k);
                if j < k {
                    assert(b2[j] == m);
                } else {
                    assert(b2[j - 1] == m);
                }
            }
            if b2.contains(m) {
                let j = choose|j: int| 0 <= j < b2.len() && b2[j] == m;
                let jj = if j < k { j } else { j + 1 };
                assert(b[jj] == m);
                assert(jj != k);
                assert(m != x);
                assert(b.contains(m));
                assert(a.contains(m));
                let i = choose|i: int| 0 <= i < a.len() && a[i] == m;
                assert(i != a.len() - 1);
                assert(a2[i] == m);
            }
        }
        lemma_sum_perm(p, a2, b2, d);
        assert(perft_sum(p, a, d) == perft_sum(p, a2, d) + perft_spec(p.after(x), (d - 1) as nat));
    }
}

/// A list of the legal moves without repetition sums to the perft count.
proof fn lemma_perft_by_list(p: Pos, ms: Seq<Move>, d: nat)
    requires
        d > 0,
        ms.no_duplicates(),
        forall|m: Move| #[trigger] ms.contains(m) <==> legal(p, m),
    ensures
        perft_spec(p, d) == perft_sum(p, ms, d),
{
    let s = legal_seq(p);
    assert(s.no_duplicates() && forall|m: Move| #[trigger] s.contains(m) <==> legal(p, m));
    lemma_sum_perm(p, s, ms, d);
}

/// At depth one the sum counts the moves.
proof fn lemma_sum_depth_one(p: Pos, ms: Seq<Move>)
    ensures
        perft_sum(p, ms, 1) == ms.len(),
    decreases ms.len(),
{
    if ms.len() > 0 {
        lemma_sum_depth_one(p, ms.drop_last());
        assert(perft_spec(p.after(ms.last()), 0) == 1);
    }
}

/// A prefix sums to no more than the whole.
proof fn lemma_sum_prefix(p: Pos, ms: Seq<Move>, i: int, d: nat)
    requires
        0 <= i <= ms.len(),
    ensures
        perft_sum(p, ms.subrange(0, i), d) <= perft_sum(p, ms, d),
    decreases ms.len() - i,
{
    if i < ms.len() {
        lemma_sum_prefix(p, ms, i + 1, d);
        assert(ms.subrange(0, i + 1).drop_last() =~= ms.subrange(0, i));
    } else {
        assert(ms.subrange(0, i) =~= ms);
    }
}

/// Counts the leaf nodes of the legal-move tree `depth` plies below the
/// position of `board`, which ends as it started.
pub fn perft(board: &mut Board, depth: u32) -> (r: u64)
    requires
        old(board).wf(),
        ep_sane(old(board).pos()),
        perft_spec(old(board).pos(), depth as nat) <= u64::MAX,
    ensures
        final(board).wf(),
        final(board).same_state(old(board)),
        r == perft_spec(old(board).pos(), depth as nat),
    decreases depth,
{
    if depth == 0 {
        return 1;
    }
    let ghost b0 = *board;
    let ghost p = board.pos();
    let mut moves: MoveList = Vec::new();
    legal_moves(board, &mut moves);
    proof {
        lemma_perft_by_list(p, moves@, depth as nat);
    }
    if depth == 1 {
        proof {
            lemma_sum_depth_one(p, moves@);
        }
        return moves.len() as u64;
    }
    let mut nodes: u64 = 0;
    let mut i: usize = 0;
    proof {
        assert(moves@.subrange(0, 0).len() == 0);
    }
    while i < moves.len()
        invariant
            i <= moves@.len(),
            depth >= 2,
            board.wf(),
            board.same_state(&b0),
            p == b0.pos(),
            p.wf(),
            ep_sane(p),
            forall|m: Move| #[trigger] moves@.contains(m) <==> legal(p, m),
            perft_spec(p, depth as nat) == perft_sum(p, moves@, depth as nat),
            perft_spec(p, depth as nat) <= u64::MAX,
            nodes == perft_sum(p, moves@.subrange(0, i as int), depth as nat),
        decreases moves@.len() - i,
    {
        let mv = moves[i];
        proof {
            assert(moves@.contains(mv));
            lemma_legal_sane(p, mv);
            lemma_sum_prefix(p, moves@, i as int + 1, depth as nat);
            assert(moves@.subrange(0, i as int + 1).drop_last() =~= moves@.subrange(0, i as int));
            assert(moves@.subrange(0, i as int + 1).last() == mv);
        }
        board.make_move_struct(mv);
        let n = perft(board, depth - 1);
        let _ = board.unmake_move();
        proof {
            assert(board.line() =~= b0.line());
            assert(board.line_before() =~= b0.line_before());
            assert(board.line_after() =~= b0.line_after());
            assert(board.key_line() =~= b0.key_line());
        }
        nodes = nodes + n;
        i = i + 1;
    }
    proof {
        assert(moves@.subrange(0, moves@.len() as int) =~= moves@);
    }
    nodes
}

/// `a` comes no later than `b` in lexicographic order of characters (the
/// order of `String` comparison).
pub open spec fn lex_le(a: Seq<char>, b: Seq<char>) -> bool
    decreases a.len(),
{
    if a.len() == 0 {
        true
    } else if b.len() == 0 {
        false
    } else if a[0] != b[0] {
        (a[0] as int) < (b[0] as int)
    } else {
        lex_le(a.drop_first(), b.drop_first())
    }
}

/// Any two texts are ordered one way or the other.
proof fn lemma_lex_total(a: Seq<char>, b: Seq<char>)
    ensures
        lex_le(a, b) || lex_le(b, a),
    decreases a.len(),
{
    if a.len() > 0 && b.len() > 0 && a[0] == b[0] {
        lemma_lex_total(a.drop_first(), b.drop_first());
    }
}

/// The order is transitive.
proof fn lemma_lex_trans(a: Seq<char>, b: Seq<char>, c: Seq<char>)
    requires
        lex_le(a, b),
        lex_le(b, c),
    ensures
        lex_le(a, c),
    decreases a.len(),
{
    if a.len() > 0 && b.len() > 0 && c.len() > 0 && a[0] == b[0] && b[0] == c[0] {
        lemma_lex_trans(a.drop_first(), b.drop_first(), c.drop_first());
    }
}

/// `true` if `a` comes no later than `b` (see [`lex_le`]).
fn lex_le_exec(a: &[char], b: &[char]) -> (r: bool)
    ensures
        r == lex_le(a@, b@),
{
    let mut i: usize = 0;
    proof {
        assert(a@.subrange(0, a@.len() as int) =~= a@);
        assert(b@.subrange(0, b@.len() as int) =~= b@);
    }
    while i < a.len() && i < b.len() && a[i] == b[i]
        invariant
            i <= a@.len(),
            i <= b@.len(),
            lex_le(a@, b@) == lex_le(a@.subrange(i as int, a@.len() as int), b@.subrange(i as int, b@.len() as int)),
        decreases a@.len() - i,
    {
        proof {
            let sa = a@.subrange(i as int, a@.len() as int);
            let sb = b@.subrange(i as int, b@.len() as int);
            assert(sa.drop_first() =~= a@.subrange(i as int + 1, a@.len() as int));
            assert(sb.drop_first() =~= b@.subrange(i as int + 1, b@.len() as int));
        }
        i = i + 1;
    }
    proof {
        let sa = a@.subrange(i as int, a@.len() as int);
        let sb = b@.subrange(i as int, b@.len() as int);
        if i < a@.len() {
            assert(sa[0] == a@[i as int]);
        }
        if i < b@.len() {
            assert(sb[0] == b@[i as int]);
        }
    }
    if i == a.len() {
        true
    } else if i == b.len() {
        false
    } else {
        a[i] < b[i]
    }
}

/// The count below root move `m` in a divide of depth `d`: one at depth
/// one or less, the perft count of the position it leads to otherwise.
pub open spec fn divide_count(p: Pos, m: Move, d: nat) -> nat {
    if d <= 1 {
        1
    } else {
        perft_spec(p.after(m), (d - 1) as nat)
    }
}

/// The depth at least one.
pub open spec fn at_least_one(d: nat) -> nat {
    if d >= 1 {
        d
    } else {
        1
    }
}

/// One root move, in UCI text, and the count below it.
#[derive(Clone, Debug)]
pub struct DivideEntry {
    pub mv: String,
    pub nodes: u64,
}

/// Inserts index `i` into `order` after the indices whose key comes no
/// later than key `i`, keeping `order` sorted by key.
fn insert_index(order: &mut Vec<usize>, keys: &Vec<Vec<char>>, i: usize)
    requires
        i < keys@.len(),
        forall|t: int| 0 <= t < old(order)@.len() ==> #[trigger] old(order)@[t] < keys@.len(),
        forall|a: int, b: int| 0 <= a < b < old(order)@.len() ==> lex_le(keys@[#[trigger] old(order)@[a] as int]@, keys@[#[trigger] old(order)@[b] as int]@),
    ensures
        final(order)@.len() == old(order)@.len() + 1,
        forall|t: int| 0 <= t < final(order)@.len() ==> #[trigger] final(order)@[t] < keys@.len(),
        forall|j: usize| #[trigger] final(order)@.contains(j) <==> old(order)@.contains(j) || j == i,
        forall|a: int, b: int| 0 <= a < b < final(order)@.len() ==> lex_le(keys@[#[trigger] final(order)@[a] as int]@, keys@[#[trigger] final(order)@[b] as int]@),
        old(order)@.no_duplicates() && !old(order)@.contains(i) ==> final(order)@.no_duplicates(),
{
    let ghost o = order@;
    let mut pos: usize = 0;
    while pos < order.len() && lex_le_exec(keys[order[pos]].as_slice(), keys[i].as_slice())
        invariant
            pos <= order@.len(),
            order@ == o,
            i < keys@.len(),
            forall|t: int| 0 <= t < o.len() ==> #[trigger] o[t] < keys@.len(),
            forall|k: int| 0 <= k < pos ==> lex_le(keys@[#[trigger] o[k] as int]@, keys@[i as int]@),
        decreases order@.len() - pos,
    {
        pos = pos + 1;
    }
    let ghost nv = o.insert(pos as int, i);
    proof {
        if pos < o.len() {
            lemma_lex_total(keys@[o[pos as int] as int]@, keys@[i as int]@);
        }
        assert forall|a: int, b: int| 0 <= a < b < nv.len() implies lex_le(keys@[#[trigger] nv[a] as int]@, keys@[#[trigger] nv[b] as int]@) by {
            if b < pos {
                assert(nv[a] == o[a] && nv[b] == o[b]);
            } else if b == pos {
                assert(nv[a] == o[a]);
            } else if a == pos {
                assert(nv[b] == o[b - 1]);
                if b - 1 > pos {
                    lemma_lex_trans(keys@[i as int]@, keys@[o[pos as int] as int]@, keys@[o[b - 1] as int]@);
                }
            } else if a < pos {
                assert(nv[a] == o[a] && nv[b] == o[b - 1]);
            } else {
                assert(nv[a] == o[a - 1] && nv[b] == o[b - 1]);
            }
        }
        assert forall|j: usize| #[trigger] nv.contains(j) <==> o.contains(j) || j == i by {
            if o.contains(j) {
                let k = choose|k: int| 0 <= k < o.len() && o[k] == j;
                if k < pos {
                    assert(nv[k] == j);
                } else {
                    assert(nv[k + 1] == j);
                }
            }
            if j == i {
                assert(nv[pos as int] == j);
            }
            if nv.contains(j) {
                let k = choose|k: int| 0 <= k < nv.len() && nv[k] == j;
                if k < pos {
                    assert(o[k] == j);
                } else if k > pos {
                    assert(o[k - 1] == j);
                }
            }
        }
        assert forall|t: int| 0 <= t < nv.len() implies #[trigger] nv[t] < keys@.len() by {
            if t < pos {
                assert(nv[t] == o[t]);
            } else if t > pos {
                assert(nv[t] == o[t - 1]);
            }
        }
        if o.no_duplicates() && !o.contains(i) {
            assert forall|a: int, b: int| 0 <= a < nv.len() && 0 <= b < nv.len() && a != b implies nv[a] != nv[b] by {
                let oa = if a < pos { a } else { a - 1 };
                let ob = if b < pos { b } else { b - 1 };
                if a == pos {
                    assert(nv[b] == o[ob]);
                    assert(o.contains(o[ob]));
                } else if b == pos {
                    assert(nv[a] == o[oa]);
                    assert(o.contains(o[oa]));
                } else {
                    assert(nv[a] == o[oa] && nv[b] == o[ob]);
                }
            }
        }
    }
    order.insert(pos, i);
}

/// The entries in the order `order`: entry `u` holds the key and count at
/// index `order[u]`.
fn build_entries(order: &Vec<usize>, keys: &Vec<Vec<char>>, counts: &Vec<u64>) -> (es: Vec<DivideEntry>)
    requires
        keys@.len() == counts@.len(),
        forall|t: int| 0 <= t < order@.len() ==> #[trigger] order@[t] < keys@.len(),
    ensures
        es@.len() == order@.len(),
        forall|u: int| 0 <= u < es@.len() ==> #[trigger] es@[u].mv@ == keys@[order@[u] as int]@
            && es@[u].nodes == counts@[order@[u] as int],
{
    let mut es: Vec<DivideEntry> = Vec::new();
    let mut u: usize = 0;
    while u < order.len()
        invariant
            u <= order@.len(),
            es@.len() == u,
            keys@.len() == counts@.len(),
            forall|t: int| 0 <= t < order@.len() ==> #[trigger] order@[t] < keys@.len(),
            forall|w: int| 0 <= w < u ==> #[trigger] es@[w].mv@ == keys@[order@[w] as int]@
                && es@[w].nodes == counts@[order@[w] as int],
        decreases order@.len() - u,
    {
        let k = order[u];
        let e = DivideEntry { mv: string_from_chars(keys[k].as_slice()), nodes: counts[k] };
        es.push(e);
        u = u + 1;
    }
    es
}

/// Entry `e` is that of the legal move `m` in a divide of depth `d`.
pub open spec fn entry_for(p: Pos, e: DivideEntry, m: Move, d: nat) -> bool {
    legal(p, m) && e.mv@ == uci_text(m) && e.nodes == divide_count(p, m, d)
}

/// The sum of the counts of the entries `es`.
pub open spec fn node_sum(es: Seq<DivideEntry>) -> int
    decreases es.len(),
{
    if es.len() == 0 {
        0
    } else {
        node_sum(es.drop_last()) + es.last().nodes
    }
}

/// Entries holding, in order, the counts below the moves `ms` sum to the
/// perft sum over `ms`.
proof fn lemma_node_sum(p: Pos, es: Seq<DivideEntry>, ms: Seq<Move>, dd: nat)
    requires
        es.len() == ms.len(),
        dd > 0,
        forall|u: int| 0 <= u < es.len() ==> #[trigger] es[u].nodes == perft_spec(p.after(ms[u]), (dd - 1) as nat),
    ensures
        node_sum(es) == perft_sum(p, ms, dd),
    decreases es.len(),
{
    if es.len() > 0 {
        let e2 = es.drop_last();
        let m2 = ms.drop_last();
        assert forall|u: int| 0 <= u < e2.len() implies #[trigger] e2[u].nodes == perft_spec(p.after(m2[u]), (dd - 1) as nat) by {
            assert(e2[u] == es[u] && m2[u] == ms[u]);
        }
        lemma_node_sum(p, e2, m2, dd);
        assert(es.last() == es[es.len() - 1]);
    }
}

/// Entry `e` is that of some legal move in a divide of depth `d`.
pub open spec fn is_entry(p: Pos, e: DivideEntry, d: nat) -> bool {
    exists|m: Move| #[trigger] entry_for(p, e, m, d)
}

/// What a divide of depth `d` from `p` gives: the total is the perft count
/// (the number of legal moves at depth 0) and the sum of the entries'
/// counts; the entries, sorted by move text, hold each legal move with the
/// count below it, one entry a move.
pub open spec fn divide_ok(p: Pos, d: nat, es: Seq<DivideEntry>, total: u64) -> bool {
    &&& total == perft_spec(p, at_least_one(d))
    &&& total == node_sum(es)
    &&& es.len() == legal_seq(p).len()
    &&& forall|i: int, j: int| 0 <= i < j < es.len() ==> lex_le(#[trigger] es[i].mv@, #[trigger] es[j].mv@)
    &&& forall|i: int| 0 <= i < es.len() ==> #[trigger] is_entry(p, es[i], d)
    &&& forall|m: Move| legal(p, m) ==> exists|i: int| 0 <= i < es.len() && #[trigger] entry_for(p, es[i], m, d)
}

/// Each entry is that of a legal move.
proof fn lemma_entries_sound(p: Pos, d: nat, moves: Seq<Move>, keys: Seq<Seq<char>>, counts: Seq<u64>, order: Seq<usize>, es: Seq<DivideEntry>)
    requires
        forall|m: Move| #[trigger] moves.contains(m) <==> legal(p, m),
        keys.len() == moves.len(),
        counts.len() == moves.len(),
        es.len() == order.len(),
        forall|j: int| 0 <= j < moves.len() ==> #[trigger] keys[j] == uci_text(moves[j]),
        forall|j: int| 0 <= j < moves.len() ==> #[trigger] counts[j] == divide_count(p, moves[j], d),
        forall|t: int| 0 <= t < order.len() ==> #[trigger] order[t] < moves.len(),
        forall|u: int| 0 <= u < es.len() ==> #[trigger] es[u].mv@ == keys[order[u] as int],
        forall|u: int| 0 <= u < es.len() ==> #[trigger] es[u].nodes == counts[order[u] as int],
    ensures
        forall|i: int| 0 <= i < es.len() ==> #[trigger] is_entry(p, es[i], d),
{
    assert forall|i: int| 0 <= i < es.len() implies #[trigger] is_entry(p, es[i], d) by {
        let j = order[i] as int;
        assert(order[i] < moves.len());
        let m = moves[j];
        assert(keys[j] == uci_text(m));
        assert(counts[j] == divide_count(p, m, d));
        assert(es[i].mv@ == keys[order[i] as int]);
        assert(es[i].nodes == counts[order[i] as int]);
        assert(moves.contains(m));
        assert(entry_for(p, es[i], m, d));
    }
}

/// Each legal move has its entry.
proof fn lemma_entries_complete(p: Pos, d: nat, moves: Seq<Move>, keys: Seq<Seq<char>>, counts: Seq<u64>, order: Seq<usize>, es: Seq<DivideEntry>)
    requires
        forall|m: Move| #[trigger] moves.contains(m) <==> legal(p, m),
        moves.len() <= usize::MAX,
        keys.len() == moves.len(),
        counts.len() == moves.len(),
        es.len() == order.len(),
        forall|j: int| 0 <= j < moves.len() ==> #[trigger] keys[j] == uci_text(moves[j]),
        forall|j: int| 0 <= j < moves.len() ==> #[trigger] counts[j] == divide_count(p, moves[j], d),
        forall|j: usize| j < moves.len() ==> #[trigger] order.contains(j),
        forall|u: int| 0 <= u < es.len() ==> #[trigger] es[u].mv@ == keys[order[u] as int],
        forall|u: int| 0 <= u < es.len() ==> #[trigger] es[u].nodes == counts[order[u] as int],
    ensures
        forall|m: Move| legal(p, m) ==> exists|i: int| 0 <= i < es.len() && #[trigger] entry_for(p, es[i], m, d),
{
    assert forall|m: Move| legal(p, m) implies exists|i: int| 0 <= i < es.len() && #[trigger] entry_for(p, es[i], m, d) by {
        assert(moves.contains(m));
        let j = choose|j: int| 0 <= j < moves.len() && moves[j] == m;
        let ju = j as usize;
        assert(order.contains(ju));
        let u = choose|u: int| 0 <= u < order.len() && order[u] == ju;
        assert(keys[j] == uci_text(moves[j]));
        assert(counts[j] == divide_count(p, moves[j], d));
        assert(es[u].mv@ == keys[order[u] as int]);
        assert(es[u].nodes == counts[order[u] as int]);
        assert(entry_for(p, es[u], m, d));
    }
}

/// The rows of a divide table stay right when the next move's row is added.
proof fn lemma_rows_push(
    ok: Seq<Vec<char>>,
    oc: Seq<u64>,
    key: Vec<char>,
    nodes: u64,
    moves: Seq<Move>,
    p: Pos,
    depth: nat,
    i: int,
)
    requires
        ok.len() == i,
        oc.len() == i,
        0 <= i < moves.len(),
        forall|j: int| 0 <= j < i ==> #[trigger] ok[j]@ == uci_text(moves[j]) && oc[j] == divide_count(p, moves[j], depth),
        key@ == uci_text(moves[i]),
        nodes == divide_count(p, moves[i], depth),
    ensures
        forall|j: int| 0 <= j < i + 1 ==> #[trigger] ok.push(key)[j]@ == uci_text(moves[j]) && oc.push(nodes)[j]
            == divide_count(p, moves[j], depth),
{
    assert forall|j: int| 0 <= j < i + 1 implies #[trigger] ok.push(key)[j]@ == uci_text(moves[j]) && oc.push(nodes)[j]
        == divide_count(p, moves[j], depth) by {
        if j < i {
            assert(ok.push(key)[j] == ok[j]);
            assert(oc.push(nodes)[j] == oc[j]);
        }
    }
}

/// Perft broken down by legal root move: the entries, sorted by their move
/// text, hold each legal move with the count below it (see
/// [`divide_count`]); the total is their sum, the perft count (the number
/// of legal moves at depth 0). The board ends as it started.
#[verifier::spinoff_prover]
#[verifier::rlimit(80)]
pub fn divide(board: &mut Board, depth: u32) -> (r: (Vec<DivideEntry>, u64))
    requires
        old(board).wf(),
        ep_sane(old(board).pos()),
        depth >= 1 ==> perft_spec(old(board).pos(), depth as nat) <= u64::MAX,
    ensures
        final(board).wf(),
        final(board).same_state(old(board)),
        divide_ok(old(board).pos(), depth as nat, r.0@, r.1),
{
    let ghost b0 = *board;
    let ghost p = board.pos();
    let ghost dd = at_least_one(depth as nat);
    let mut moves: MoveList = Vec::new();
    legal_moves(board, &mut moves);
    let n_moves = moves.len();
    proof {
        lemma_perft_by_list(p, moves@, dd);
        lemma_perft_by_list(p, moves@, 1);
        lemma_sum_depth_one(p, moves@);
        lemma_sum_depth_one(p, legal_seq(p));
        assert(perft_spec(p, 1) == perft_sum(p, legal_seq(p), 1));
        assert(perft_spec(p, dd) <= u64::MAX);
    }
    let mut keys: Vec<Vec<char>> = Vec::new();
    let mut counts: Vec<u64> = Vec::new();
    let mut order: Vec<usize> = Vec::new();
    let mut total: u64 = 0;
    let mut i: usize = 0;
    proof {
        assert(moves@.subrange(0, 0).len() == 0);
    }
    while i < moves.len()
        invariant
            i <= moves@.len(),
            board.wf(),
            board.same_state(&b0),
            p == b0.pos(),
            p.wf(),
            ep_sane(p),
            dd == at_least_one(depth as nat),
            forall|m: Move| #[trigger] moves@.contains(m) <==> legal(p, m),
            perft_spec(p, dd) == perft_sum(p, moves@, dd),
            perft_spec(p, dd) <= u64::MAX,
            total == perft_sum(p, moves@.subrange(0, i as int), dd),
            keys@.len() == i,
            counts@.len() == i,
            forall|j: int| 0 <= j < i ==> #[trigger] keys@[j]@ == uci_text(moves@[j]) && counts@[j] == divide_count(p, moves@[j], depth as nat),
            order@.len() == i,
            forall|t: int| 0 <= t < order@.len() ==> #[trigger] order@[t] < i,
            forall|j: usize| j < i ==> #[trigger] order@.contains(j),
            forall|a: int, b: int| 0 <= a < b < order@.len() ==> lex_le(keys@[#[trigger] order@[a] as int]@, keys@[#[trigger] order@[b] as int]@),
            order@.no_duplicates(),
            moves@.no_duplicates(),
        decreases moves@.len() - i,
    {
        let mv = moves[i];
        let ghost ok = keys@;
        let ghost oc = counts@;
        proof {
            assert forall|j: int| 0 <= j < i implies #[trigger] ok[j]@ == uci_text(moves@[j]) && oc[j] == divide_count(
                p,
                moves@[j],
                depth as nat,
            ) by {
                assert(keys@[j]@ == uci_text(moves@[j]));
            }
            assert(moves@.contains(mv));
            lemma_legal_sane(p, mv);
            lemma_sum_prefix(p, moves@, i as int + 1, dd);
            assert(moves@.subrange(0, i as int + 1).drop_last() =~= moves@.subrange(0, i as int));
            assert(moves@.subrange(0, i as int + 1).last() == mv);
        }
        board.make_move_struct(mv);
        let nodes = if depth <= 1 {
            1
        } else {
            perft(board, depth - 1)
        };
        let _ = board.unmake_move();
        proof {
            assert(board.line() =~= b0.line());
            assert(board.line_before() =~= b0.line_before());
            assert(board.line_after() =~= b0.line_after());
            assert(board.key_line() =~= b0.key_line());
            assert(perft_spec(p.after(mv), 0) == 1);
            assert(nodes == divide_count(p, mv, depth as nat));
        }
        total = total + nodes;
        let mut key: Vec<char> = Vec::new();
        mv.push_uci(&mut key);
        assert(key@ =~= uci_text(mv));
        let ghost kv = key;
        keys.push(key);
        counts.push(nodes);
        proof {
            lemma_rows_push(ok, oc, kv, nodes, moves@, p, depth as nat, i as int);
            assert(keys@ == ok.push(kv));
            assert(counts@ == oc.push(nodes));
        }
        let ghost o = order@;
        proof {
            if o.contains(i) {
                let t = choose|t: int| 0 <= t < o.len() && o[t] == i;
                assert(o[t] < i);
            }
        }
        insert_index(&mut order, &keys, i);
        proof {
            assert forall|j: usize| j < i + 1 implies #[trigger] order@.contains(j) by {
                if j < i {
                    assert(o.contains(j));
                }
            }
            assert forall|t: int| 0 <= t < order@.len() implies #[trigger] order@[t] < i + 1 by {
                assert(order@[t] < keys@.len());
            }
        }
        i = i + 1;
    }
    proof {
        assert(moves@.subrange(0, moves@.len() as int) =~= moves@);
    }
    let entries = build_entries(&order, &keys, &counts);
    proof {
        let kv = keys@.map_values(|k: Vec<char>| k@);
        assert forall|j: int| 0 <= j < moves@.len() implies #[trigger] kv[j] == uci_text(moves@[j]) by {
            assert(kv[j] == keys@[j]@);
            assert(keys@[j]@ == uci_text(moves@[j]));
        }
        assert forall|j: int| 0 <= j < moves@.len() implies #[trigger] counts@[j] == divide_count(p, moves@[j], depth as nat) by {
            assert(keys@[j]@ == uci_text(moves@[j]));
        }
        assert forall|a: int, b: int| 0 <= a < b < order@.len() implies lex_le(#[trigger] kv[order@[a] as int], #[trigger] kv[order@[b] as int]) by {
            assert(kv[order@[a] as int] == keys@[order@[a] as int]@);
            assert(kv[order@[b] as int] == keys@[order@[b] as int]@);
        }
        assert forall|u: int| 0 <= u < entries@.len() implies #[trigger] entries@[u].mv@ == kv[order@[u] as int]
            && entries@[u].nodes == counts@[order@[u] as int] by {
            assert(entries@[u].mv@ == keys@[order@[u] as int]@);
            assert(kv[order@[u] as int] == keys@[order@[u] as int]@);
        }
        assert(legal_seq(p).len() == moves@.len());
        let es = entries@;
        let ov = order@;
        let cv = counts@;
        assert forall|u: int| 0 <= u < es.len() implies #[trigger] es[u].nodes == cv[ov[u] as int] by {
            assert(es[u].mv@ == keys@[order@[u] as int]@);
        }
        assert forall|u: int| 0 <= u < es.len() implies #[trigger] es[u].mv@ == kv[ov[u] as int] by {
            assert(es[u].mv@ == keys@[order@[u] as int]@);
            assert(kv[order@[u] as int] == keys@[order@[u] as int]@);
        }
        assert(es.len() == moves@.len());
        assert(forall|t: int| 0 <= t < ov.len() ==> #[trigger] ov[t] < moves@.len());
        assert(forall|j: usize| j < moves@.len() ==> #[trigger] ov.contains(j));
        lemma_entries_sound(p, depth as nat, moves@, kv, cv, ov, es);
        lemma_entries_complete(p, depth as nat, moves@, kv, cv, ov, es);
        assert forall|a: int, b: int| 0 <= a < b < es.len() implies lex_le(#[trigger] es[a].mv@, #[trigger] es[b].mv@) by {
            assert(es[a].mv@ == kv[ov[a] as int]);
            assert(es[b].mv@ == kv[ov[b] as int]);
        }
        let ms2 = Seq::new(es.len(), |u: int| moves@[ov[u] as int]);
        assert forall|a: int, b: int| 0 <= a < ms2.len() && 0 <= b < ms2.len() && a != b implies ms2[a] != ms2[b] by {
            assert(ov[a] != ov[b]);
        }
        assert forall|m: Move| #[trigger] ms2.contains(m) <==> moves@.contains(m) by {
            if moves@.contains(m) {
                let j = choose|j: int| 0 <= j < moves@.len() && moves@[j] == m;
                assert(ov.contains(j as usize));
                let u = choose|u: int| 0 <= u < ov.len() && ov[u] == j as usize;
                assert(ms2[u] == m);
            }
        }
        assert forall|u: int| 0 <= u < es.len() implies #[trigger] es[u].nodes == perft_spec(p.after(ms2[u]), (dd - 1) as nat) by {
            assert(es[u].nodes == cv[ov[u] as int]);
            assert(cv[ov[u] as int] == divide_count(p, moves@[ov[u] as int], depth as nat));
            assert(perft_spec(p.after(ms2[u]), 0) == 1);
        }
        lemma_node_sum(p, es, ms2, dd);
        lemma_sum_perm(p, ms2, moves@, dd);
        assert(divide_ok(p, depth as nat, es, total));
    }
    (entries, total)
}


} // verus!
