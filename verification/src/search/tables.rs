//! Table chores of the search: sorting moves by key, clearing the killer
//! and history tables, and copying principal-variation rows.

use super::{squares_ok, MAX_PLY};
use crate::moves::{Move, MoveList};
use vstd::prelude::*;

verus! {

/// Swapping two entries keeps the same elements.
proof fn lemma_swap_contains(s: Seq<Move>, i: int, j: int, m: Move)
    requires
        0 <= i < s.len(),
        0 <= j < s.len(),
    ensures
        s.update(i, s[j]).update(j, s[i]).contains(m) <==> s.contains(m),
{
    let t = s.update(i, s[j]).update(j, s[i]);
    if s.contains(m) {
        let k = choose|k: int| 0 <= k < s.len() && s[k] == m;
        if k == i {
            assert(t[j] == m);
        } else if k == j {
            assert(t[i] == m);
        } else {
            assert(t[k] == m);
        }
    }
    if t.contains(m) {
        let k = choose|k: int| 0 <= k < t.len() && t[k] == m;
        if k == i {
            assert(s[j] == m);
        } else if k == j {
            assert(s[i] == m);
        } else {
            assert(s[k] == m);
        }
    }
}

/// Each move of `ms` sits beside its key of `ks`, as it did in `om`/`ok`.
pub open spec fn paired(ms: Seq<Move>, ks: Seq<i32>, om: Seq<Move>, ok: Seq<i32>) -> bool {
    forall|t: int| 0 <= t < ms.len() ==> #[trigger] has_pair(ms, ks, om, ok, t)
}

/// Place `t` of `ms`/`ks` holds what some place of `om`/`ok` held.
pub open spec fn has_pair(ms: Seq<Move>, ks: Seq<i32>, om: Seq<Move>, ok: Seq<i32>, t: int) -> bool {
    exists|u: int| 0 <= u < om.len() && #[trigger] pair_at(ms, ks, om, ok, t, u)
}

/// Place `t` of `ms`/`ks` holds what place `u` of `om`/`ok` held.
pub open spec fn pair_at(ms: Seq<Move>, ks: Seq<i32>, om: Seq<Move>, ok: Seq<i32>, t: int, u: int) -> bool {
    ms[t] == om[u] && ks[t] == ok[u]
}

/// Swapping the same two places of both sequences keeps the pairs.
proof fn lemma_swap_paired(ms: Seq<Move>, ks: Seq<i32>, om: Seq<Move>, ok: Seq<i32>, i: int, j: int)
    requires
        ms.len() == ks.len(),
        0 <= i < ms.len(),
        0 <= j < ms.len(),
        paired(ms, ks, om, ok),
    ensures
        paired(ms.update(i, ms[j]).update(j, ms[i]), ks.update(i, ks[j]).update(j, ks[i]), om, ok),
{
    let m2 = ms.update(i, ms[j]).update(j, ms[i]);
    let k2 = ks.update(i, ks[j]).update(j, ks[i]);
    assert forall|t: int| 0 <= t < m2.len() implies #[trigger] has_pair(m2, k2, om, ok, t) by {
        let src = if t == j { i } else if t == i { j } else { t };
        assert(m2[t] == ms[src] && k2[t] == ks[src]);
        assert(has_pair(ms, ks, om, ok, src));
        let u = choose|u: int| 0 <= u < om.len() && #[trigger] pair_at(ms, ks, om, ok, src, u);
        assert(pair_at(m2, k2, om, ok, t, u));
    }
    assert(paired(m2, k2, om, ok));
}

/// `perm` sends each place of `ms`/`ks` to the place of `om`/`ok` it came
/// from, one to one, and entries with equal keys keep their order.
pub open spec fn stable_perm(ms: Seq<Move>, ks: Seq<i32>, om: Seq<Move>, ok: Seq<i32>, perm: Seq<int>) -> bool {
    &&& perm.len() == ms.len()
    &&& forall|t: int| 0 <= t < perm.len() ==> 0 <= #[trigger] perm[t] < om.len()
    &&& forall|a: int, b: int| 0 <= a < b < perm.len() ==> #[trigger] perm[a] != #[trigger] perm[b]
    &&& forall|t: int| 0 <= t < perm.len() ==> ms[t] == om[#[trigger] perm[t]] && ks[t] == ok[perm[t]]
    &&& forall|a: int, b: int| 0 <= a < b < perm.len() && ks[a] == ks[b] ==> #[trigger] perm[a] < #[trigger] perm[b]
}

/// Stable insertion sort of `moves` by ascending `keys`: the keys end in
/// ascending order, each move still beside its own key, and moves with
/// equal keys in the order they came in.
pub(in crate::search) fn sort_by_keys(moves: &mut MoveList, keys: &mut Vec<i32>)
    requires
        old(moves)@.len() == old(keys)@.len(),
    ensures
        final(moves)@.len() == old(moves)@.len(),
        final(keys)@.len() == old(keys)@.len(),
        forall|m: Move| #[trigger] final(moves)@.contains(m) <==> old(moves)@.contains(m),
        forall|a: int, b: int| 0 <= a < b < final(keys)@.len() ==> final(keys)@[a] <= final(keys)@[b],
        paired(final(moves)@, final(keys)@, old(moves)@, old(keys)@),
        exists|perm: Seq<int>| stable_perm(final(moves)@, final(keys)@, old(moves)@, old(keys)@, perm),
{
    let n = moves.len();
    let ghost orig = moves@;
    let ghost okeys = keys@;
    let ghost mut perm: Seq<int> = Seq::new(n as nat, |t: int| t);
    proof {
        assert forall|t: int| 0 <= t < moves@.len() implies #[trigger] has_pair(moves@, keys@, orig, okeys, t) by {
            assert(pair_at(moves@, keys@, orig, okeys, t, t));
        }
        assert(paired(moves@, keys@, orig, okeys));
    }
    let mut i: usize = 1;
    while i < n
        invariant
            n == moves@.len(),
            n == keys@.len(),
            n == orig.len(),
            n == okeys.len(),
            forall|m: Move| #[trigger] moves@.contains(m) <==> orig.contains(m),
            paired(moves@, keys@, orig, okeys),
            n == 0 || 1 <= i <= n,
            forall|a: int, b: int| 0 <= a < b < i && b < n ==> keys@[a] <= keys@[b],
            perm.len() == n,
            forall|t: int| 0 <= t < n ==> 0 <= #[trigger] perm[t] < n,
            forall|a: int, b: int| 0 <= a < b < n ==> #[trigger] perm[a] != #[trigger] perm[b],
            forall|t: int| 0 <= t < n ==> moves@[t] == orig[#[trigger] perm[t]] && keys@[t] == okeys[perm[t]],
            forall|t: int| i <= t < n ==> #[trigger] perm[t] == t,
            forall|t: int| 0 <= t < i && t < n ==> #[trigger] perm[t] < i,
            forall|a: int, b: int| 0 <= a < b < i && b < n && keys@[a] == keys@[b] ==> #[trigger] perm[a] < #[trigger] perm[b],
        decreases n - i,
    {
        let mut j = i;
        while j > 0 && keys[j - 1] > keys[j]
            invariant
                j <= i < n,
                n == moves@.len(),
                n == keys@.len(),
                n == orig.len(),
                n == okeys.len(),
                forall|m: Move| #[trigger] moves@.contains(m) <==> orig.contains(m),
                paired(moves@, keys@, orig, okeys),
                forall|a: int, b: int| 0 <= a < b <= i && a != j && b != j ==> keys@[a] <= keys@[b],
                forall|b: int| j < b <= i ==> keys@[j as int] < keys@[b],
                perm.len() == n,
                forall|t: int| 0 <= t < n ==> 0 <= #[trigger] perm[t] < n,
                forall|a: int, b: int| 0 <= a < b < n ==> #[trigger] perm[a] != #[trigger] perm[b],
                forall|t: int| 0 <= t < n ==> moves@[t] == orig[#[trigger] perm[t]] && keys@[t] == okeys[perm[t]],
                forall|t: int| i < t < n ==> #[trigger] perm[t] == t,
                perm[j as int] == i,
                forall|t: int| 0 <= t <= i && t != j ==> #[trigger] perm[t] < i,
                forall|a: int, b: int|
                    0 <= a < b <= i && a != j && b != j && keys@[a] == keys@[b] ==> #[trigger] perm[a] < #[trigger] perm[b],
            decreases j,
        {
            let ghost before = moves@;
            let ghost kbefore = keys@;
            let ghost pbefore = perm;
            let a = moves[j - 1];
            let b = moves[j];
            moves.set(j - 1, b);
            moves.set(j, a);
            let ka = keys[j - 1];
            let kb = keys[j];
            keys.set(j - 1, kb);
            keys.set(j, ka);
            proof {
                perm = pbefore.update(j - 1, pbefore[j as int]).update(j as int, pbefore[j - 1]);
                assert forall|m: Move| #[trigger] moves@.contains(m) <==> orig.contains(m) by {
                    lemma_swap_contains(before, j - 1, j as int, m);
                    assert(moves@ == before.update(j - 1, before[j as int]).update(j as int, before[j - 1]));
                }
                assert(moves@ == before.update(j - 1, before[j as int]).update(j as int, before[j - 1]));
                assert(keys@ == kbefore.update(j - 1, kbefore[j as int]).update(j as int, kbefore[j - 1]));
                lemma_swap_paired(before, kbefore, orig, okeys, j - 1, j as int);
                assert forall|x: int, y: int| 0 <= x < y < n implies #[trigger] perm[x] != #[trigger] perm[y] by {
                    let sx = if x == j - 1 { j as int } else if x == j { j - 1 } else { x };
                    let sy = if y == j - 1 { j as int } else if y == j { j - 1 } else { y };
                    assert(perm[x] == pbefore[sx] && perm[y] == pbefore[sy]);
                    if sx < sy {
                        assert(pbefore[sx] != pbefore[sy]);
                    } else {
                        assert(pbefore[sy] != pbefore[sx]);
                    }
                }
                assert forall|t: int| 0 <= t < n implies moves@[t] == orig[#[trigger] perm[t]] && keys@[t] == okeys[perm[t]] by {
                    let st = if t == j - 1 { j as int } else if t == j { j - 1 } else { t };
                    assert(perm[t] == pbefore[st]);
                    assert(moves@[t] == before[st] && keys@[t] == kbefore[st]);
                }
                assert forall|x: int, y: int|
                    0 <= x < y <= i && x != j - 1 && y != j - 1 && keys@[x] == keys@[y] implies #[trigger] perm[x] < #[trigger] perm[y] by {
                    let sx = if x == j { j - 1 } else { x };
                    let sy = if y == j { j - 1 } else { y };
                    assert(perm[x] == pbefore[sx] && perm[y] == pbefore[sy]);
                    assert(keys@[x] == kbefore[sx] && keys@[y] == kbefore[sy]);
                    if x == j {
                        assert(kbefore[j - 1] > kbefore[j as int]);
                        assert(kbefore[j as int] < kbefore[sy]);
                    }
                }
            }
            j = j - 1;
        }
        proof {
            assert forall|x: int, y: int| 0 <= x < y < i + 1 && y < n && keys@[x] == keys@[y] implies #[trigger] perm[x] < #[trigger] perm[y] by {
                if y == j {
                    assert(perm[x] < i);
                } else if x == j {
                    assert(keys@[j as int] < keys@[y]);
                }
            }
        }
        i = i + 1;
    }
    proof {
        assert(stable_perm(moves@, keys@, orig, okeys, perm));
    }
}

pub(in crate::search) fn clear_killers(killers: &mut Vec<Option<Move>>)
    requires
        old(killers)@.len() == 2 * MAX_PLY,
    ensures
        final(killers)@.len() == 2 * MAX_PLY,
        forall|j: int| 0 <= j < 2 * MAX_PLY ==> #[trigger] final(killers)@[j] is None,
{
    let mut i: usize = 0;
    while i < 2 * MAX_PLY
        invariant
            i <= 2 * MAX_PLY,
            killers@.len() == 2 * MAX_PLY,
            forall|j: int| 0 <= j < i ==> #[trigger] killers@[j] is None,
        decreases 2 * MAX_PLY - i,
    {
        killers.set(i, None);
        i = i + 1;
    }
}

pub(in crate::search) fn zero_history(history: &mut Vec<i32>)
    requires
        old(history)@.len() == 16384,
    ensures
        final(history)@.len() == 16384,
        forall|j: int| 0 <= j < 16384 ==> #[trigger] final(history)@[j] == 0,
{
    let mut h: usize = 0;
    while h < 16384
        invariant
            h <= 16384,
            history@.len() == 16384,
            forall|j: int| 0 <= j < h ==> #[trigger] history@[j] == 0,
        decreases 16384 - h,
    {
        history.set(h, 0);
        h = h + 1;
    }
}

/// Copies row `ply + 1` of the PV table, from column `ply + 1` up to
/// `child_len`, into row `ply`.
#[verifier::spinoff_prover]
pub(in crate::search) fn copy_row(table: &mut Vec<Move>, ply: usize, child_len: usize, first: Ghost<Move>)
    requires
        old(table)@.len() == MAX_PLY * MAX_PLY,
        squares_ok(old(table)@),
        ply + 1 < MAX_PLY,
        child_len <= MAX_PLY,
        ply == 0 ==> old(table)@[0] == first@,
    ensures
        final(table)@.len() == MAX_PLY * MAX_PLY,
        squares_ok(final(table)@),
        ply > 0 ==> final(table)@[0] == old(table)@[0],
        ply == 0 ==> final(table)@[0] == first@,
        forall|j: int|
            0 <= j < MAX_PLY * MAX_PLY ==> #[trigger] final(table)@[j] == if ply * MAX_PLY + ply + 1 <= j < ply
                * MAX_PLY + child_len {
                old(table)@[j + MAX_PLY]
            } else {
                old(table)@[j]
            },
{
    let mut next = ply + 1;
    while next < child_len
        invariant
            ply + 1 < MAX_PLY,
            ply + 1 <= next,
            next <= child_len || next == ply + 1,
            child_len <= MAX_PLY,
            table@.len() == MAX_PLY * MAX_PLY,
            squares_ok(table@),
            ply > 0 ==> table@[0] == old(table)@[0],
            ply == 0 ==> table@[0] == first@,
            forall|j: int|
                0 <= j < MAX_PLY * MAX_PLY ==> #[trigger] table@[j] == if ply * MAX_PLY + ply + 1 <= j < ply
                    * MAX_PLY + next {
                    old(table)@[j + MAX_PLY]
                } else {
                    old(table)@[j]
                },
        decreases child_len - next,
    {
        let v = table[(ply + 1) * MAX_PLY + next];
        table.set(ply * MAX_PLY + next, v);
        next = next + 1;
    }
}

} // verus!
