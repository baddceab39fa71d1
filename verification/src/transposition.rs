//! The transposition table: a fixed-size cache of search results keyed by
//! Zobrist key, one entry per slot (`key % len`).
//!
//! An entry remembers the depth it was searched to, its score with the kind
//! of bound that score is, and the best move found. A probe hands the score
//! back only when the entry is deep enough and its bound settles the window;
//! otherwise it still offers the move for ordering.

use crate::moves::Move;
use vstd::prelude::*;

verus! {

/// What a stored score bounds.
#[derive(Clone, Copy, PartialEq, Eq, Debug, Structural)]
pub enum NodeType {
    /// The exact score.
    Exact,
    /// A lower bound (the node failed high).
    LowerBound,
    /// An upper bound (the node failed low).
    UpperBound,
}

/// A move in three small fields: origin, destination, promotion code
/// (`0` none, `1..=4` queen, rook, bishop, knight).
#[derive(Clone, Copy, PartialEq, Eq, Debug, Structural)]
pub struct PackedMove {
    pub from: u8,
    pub to: u8,
    pub promo: u8,
}

impl PackedMove {
    /// The empty move (no move stored).
    pub fn none() -> (r: PackedMove)
        ensures
            r == (PackedMove { from: 0, to: 0, promo: 0 }),
    {
        PackedMove { from: 0, to: 0, promo: 0 }
    }

    /// Packs `(from, to, promotion code)`; squares are below 128.
    pub fn new(from: usize, to: usize, promo: u8) -> (r: PackedMove)
        requires
            from < 128,
            to < 128,
        ensures
            r.from == from && r.to == to && r.promo == promo,
    {
        PackedMove { from: from as u8, to: to as u8, promo }
    }

    /// The three fields back.
    pub fn unpack(&self) -> (r: (usize, usize, u8))
        ensures
            r == (self.from as usize, self.to as usize, self.promo),
    {
        (self.from as usize, self.to as usize, self.promo)
    }
}

/// One slot of the table.
#[derive(Clone, Copy, PartialEq, Eq, Debug, Structural)]
pub struct TTEntry {
    pub key: u64,
    pub depth: i32,
    pub score: i32,
    pub node: NodeType,
    pub best: PackedMove,
    pub age: u8,
    pub used: bool,
}

/// The unused slot.
pub open spec fn empty_entry() -> TTEntry {
    TTEntry {
        key: 0,
        depth: 0,
        score: 0,
        node: NodeType::Exact,
        best: PackedMove { from: 0, to: 0, promo: 0 },
        age: 0,
        used: false,
    }
}

/// The answer of a probe.
#[derive(Clone, Copy, Debug)]
pub enum ProbeResult {
    /// An entry deep enough whose bound settles the window: its score and
    /// best move.
    Usable(i32, PackedMove),
    /// An entry for this key that cannot settle the window.
    Found(TTEntry),
    /// No entry for this key.
    Miss,
}

/// A stored score settles the window `(alpha, beta)`.
pub open spec fn settles(e: TTEntry, depth: int, alpha: int, beta: int) -> bool {
    e.depth >= depth && match e.node {
        NodeType::Exact => true,
        NodeType::LowerBound => e.score >= beta,
        NodeType::UpperBound => e.score <= alpha,
    }
}

/// A fixed-size transposition table.
pub struct TranspositionTable {
    pub entries: Vec<TTEntry>,
    /// The search generation (entries of older generations are replaced
    /// first).
    pub age: u8,
    /// Probes made and probes that found their key (wrapping counters).
    pub probes: u64,
    pub hits: u64,
}

/// Bytes a slot is budgeted at when sizing the table.
pub const ENTRY_BYTES: usize = 32;

impl TranspositionTable {
    /// At least one slot.
    pub open spec fn wf(&self) -> bool {
        self.entries@.len() > 0
    }

    /// The slot of `key`.
    pub open spec fn slot(&self, key: u64) -> int {
        (key % (self.entries@.len() as u64)) as int
    }

    /// A table of `mb` megabytes of slots (at least one), all unused.
    pub fn new_strict_size_mb(mb: usize) -> (t: TranspositionTable)
        requires
            mb <= 2048,
        ensures
            t.wf(),
            t.entries@.len() == if mb * 1048576 / 32 > 0 {
                mb * 1048576 / 32
            } else {
                1
            },
            forall|i: int| 0 <= i < t.entries@.len() ==> t.entries@[i] == empty_entry(),
            t.age == 0 && t.probes == 0 && t.hits == 0,
    {
        let n = mb * 1048576 / ENTRY_BYTES;
        let n = if n > 0 {
            n
        } else {
            1
        };
        let blank = TTEntry {
            key: 0,
            depth: 0,
            score: 0,
            node: NodeType::Exact,
            best: PackedMove::none(),
            age: 0,
            used: false,
        };
        let entries = vec![blank; n];
        TranspositionTable { entries, age: 0, probes: 0, hits: 0 }
    }

    /// Forget every entry (the size and counters stay).
    pub fn clear(&mut self)
        requires
            old(self).wf(),
        ensures
            final(self).wf(),
            final(self).entries@.len() == old(self).entries@.len(),
            forall|i: int| 0 <= i < final(self).entries@.len() ==> final(self).entries@[i] == empty_entry(),
            final(self).age == old(self).age,
            final(self).probes == old(self).probes,
            final(self).hits == old(self).hits,
    {
        let blank = TTEntry {
            key: 0,
            depth: 0,
            score: 0,
            node: NodeType::Exact,
            best: PackedMove::none(),
            age: 0,
            used: false,
        };
        let mut i: usize = 0;
        while i < self.entries.len()
            invariant
                i <= self.entries@.len(),
                blank == empty_entry(),
                self.entries@.len() == old(self).entries@.len(),
                forall|j: int| 0 <= j < i ==> self.entries@[j] == empty_entry(),
                self.age == old(self).age,
                self.probes == old(self).probes,
                self.hits == old(self).hits,
            decreases self.entries@.len() - i,
        {
            self.entries.set(i, blank);
            i = i + 1;
        }
    }

    /// Start a new search generation.
    pub fn new_search(&mut self)
        ensures
            final(self).entries == old(self).entries,
            final(self).age == old(self).age.wrapping_add(1),
            final(self).probes == old(self).probes,
            final(self).hits == old(self).hits,
    {
        self.age = self.age.wrapping_add(1);
    }

    /// Look up `key` for a search of `depth` with window `(alpha, beta)`.
    pub fn probe(&mut self, key: u64, depth: i32, alpha: i32, beta: i32) -> (r: ProbeResult)
        requires
            old(self).wf(),
        ensures
            final(self).entries == old(self).entries,
            final(self).age == old(self).age,
            final(self).probes == old(self).probes.wrapping_add(1),
            ({
                let e = old(self).entries@[old(self).slot(key)];
                match r {
                    ProbeResult::Usable(score, best) => e.used && e.key == key && settles(e, depth as int, alpha as int, beta as int)
                        && score == e.score && best == e.best && final(self).hits == old(self).hits.wrapping_add(1),
                    ProbeResult::Found(f) => e.used && e.key == key && !settles(e, depth as int, alpha as int, beta as int)
                        && f == e && final(self).hits == old(self).hits.wrapping_add(1),
                    ProbeResult::Miss => !(e.used && e.key == key) && final(self).hits == old(self).hits,
                }
            }),
    {
        self.probes = self.probes.wrapping_add(1);
        let len = self.entries.len() as u64;
        let idx = (key % len) as usize;
        let e = self.entries[idx];
        if e.used && e.key == key {
            self.hits = self.hits.wrapping_add(1);
            let ok = e.depth >= depth && match e.node {
                NodeType::Exact => true,
                NodeType::LowerBound => e.score >= beta,
                NodeType::UpperBound => e.score <= alpha,
            };
            if ok {
                ProbeResult::Usable(e.score, e.best)
            } else {
                ProbeResult::Found(e)
            }
        } else {
            ProbeResult::Miss
        }
    }

    /// Store a search result for `key`. The slot is taken over when it is
    /// unused, holds the same key, is from an older generation, or was
    /// searched no deeper.
    pub fn store(&mut self, key: u64, depth: i32, score: i32, node: NodeType, best: Option<(usize, usize, u8)>)
        requires
            old(self).wf(),
            best matches Some(b) ==> b.0 < 128 && b.1 < 128,
        ensures
            final(self).wf(),
            final(self).entries@.len() == old(self).entries@.len(),
            final(self).age == old(self).age,
            final(self).probes == old(self).probes,
            final(self).hits == old(self).hits,
            ({
                let i = old(self).slot(key);
                let e = old(self).entries@[i];
                let take = !e.used || e.key == key || e.age != old(self).age || depth >= e.depth;
                &&& forall|j: int| 0 <= j < old(self).entries@.len() && j != i ==> final(self).entries@[j] == old(self).entries@[j]
                &&& take ==> final(self).entries@[i] == (TTEntry {
                    key,
                    depth,
                    score,
                    node,
                    best: match best {
                        Some(b) => PackedMove { from: b.0 as u8, to: b.1 as u8, promo: b.2 },
                        None => PackedMove { from: 0, to: 0, promo: 0 },
                    },
                    age: old(self).age,
                    used: true,
                })
                &&& !take ==> final(self).entries@[i] == e
            }),
    {
        let len = self.entries.len() as u64;
        let idx = (key % len) as usize;
        let e = self.entries[idx];
        if !e.used || e.key == key || e.age != self.age || depth >= e.depth {
            let packed = match best {
                Some((f, t, p)) => PackedMove::new(f, t, p),
                None => PackedMove::none(),
            };
            self.entries.set(
                idx,
                TTEntry { key, depth, score, node, best: packed, age: self.age, used: true },
            );
        }
    }
}

} // verus!
