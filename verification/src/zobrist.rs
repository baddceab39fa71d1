//! Zobrist hashing: a fixed pseudo-random 64-bit key for every (piece,
//! square) pair, every castling-rights mask, every en-passant file, and the
//! side to move. A position's hash is the XOR of the keys of its features,
//! which lets make/unmake update it incrementally.

use crate::types::{Piece, Sq};
use vstd::prelude::*;

verus! {

/// One xorshift64 step.
pub open spec fn xorshift(x: u64) -> u64 {
    let a = x ^ (x << 13u64);
    let b = a ^ (a >> 7u64);
    b ^ (b << 17u64)
}

/// The key with table index `i` (three xorshift rounds of `i` mixed with a
/// fixed seed; the rounds are a bijection, so distinct indices get distinct
/// keys).
pub open spec fn zkey(i: u64) -> u64 {
    xorshift(xorshift(xorshift(i ^ 0x9E37_79B9_7F4A_7C15u64)))
}

/// Table index of the first castling key (after the 12 x 128 piece keys).
pub const CASTLING_BASE: u64 = 1536;

/// Table index of the first en-passant file key.
pub const EP_BASE: u64 = 1552;

/// Table index of the side-to-move key.
pub const SIDE_INDEX: u64 = 1560;

/// Key of `p` standing on square `s` (zero for the empty piece).
pub open spec fn piece_key(p: Piece, s: int) -> u64 {
    match p.spec_zobrist_index() {
        Some(z) => zkey((z * 128 + s) as u64),
        None => 0,
    }
}

/// Key of a castling-rights mask (zero when no right is held, so that the
/// empty board hashes to zero).
pub open spec fn castling_key(c: u8) -> u64 {
    if c == 0 {
        0
    } else {
        zkey((CASTLING_BASE + c) as u64)
    }
}

/// Key of an en-passant target (by its file), zero for none.
pub open spec fn ep_key(ep: Option<usize>) -> u64 {
    match ep {
        Some(e) => zkey((EP_BASE + (e % 8)) as u64),
        None => 0,
    }
}

/// Key of the side to move (the side key is present when Black moves).
pub open spec fn side_key(side_white: bool) -> u64 {
    if side_white {
        0
    } else {
        zkey(SIDE_INDEX)
    }
}

/// XOR of the piece keys of the first `n` cells.
pub open spec fn hash_cells(cells: Seq<Piece>, n: nat) -> u64
    decreases n,
{
    if n == 0 {
        0
    } else {
        hash_cells(cells, (n - 1) as nat) ^ piece_key(cells[n - 1], n - 1)
    }
}

/// The full hash of a position's features.
pub open spec fn hash_features(
    cells: Seq<Piece>,
    side_white: bool,
    castling: u8,
    ep: Option<usize>,
) -> u64 {
    hash_cells(cells, 128) ^ castling_key(castling) ^ ep_key(ep) ^ side_key(side_white)
}

/// Computes [`zkey`].
pub fn key_at(i: u64) -> (r: u64)
    ensures
        r == zkey(i),
{
    let x = i ^ 0x9E37_79B9_7F4A_7C15u64;
    let a = x ^ (x << 13u64);
    let b = a ^ (a >> 7u64);
    let x1 = b ^ (b << 17u64);
    let a = x1 ^ (x1 << 13u64);
    let b = a ^ (a >> 7u64);
    let x2 = b ^ (b << 17u64);
    let a = x2 ^ (x2 << 13u64);
    let b = a ^ (a >> 7u64);
    b ^ (b << 17u64)
}

/// The key of `p` on square `s`.
pub fn piece_key_of(p: Piece, s: Sq) -> (r: u64)
    requires
        s < 128,
    ensures
        r == piece_key(p, s as int),
{
    match p.zobrist_index() {
        Some(z) => key_at((z * 128 + s) as u64),
        None => 0,
    }
}

/// The key of castling mask `c`.
pub fn castling_key_of(c: u8) -> (r: u64)
    ensures
        r == castling_key(c),
{
    if c == 0 {
        0
    } else {
        key_at(CASTLING_BASE + c as u64)
    }
}

/// The key of an en-passant target.
pub fn ep_key_of(ep: Option<Sq>) -> (r: u64)
    ensures
        r == ep_key(ep),
{
    match ep {
        Some(e) => key_at(EP_BASE + (e % 8) as u64),
        None => 0,
    }
}

/// The side-to-move key.
pub fn side_key_of(side_white: bool) -> (r: u64)
    ensures
        r == side_key(side_white),
{
    if side_white {
        0
    } else {
        key_at(SIDE_INDEX)
    }
}

/// Computes the full hash of a position from scratch.
pub fn hash_of(cells: &[Piece; 128], side_white: bool, castling: u8, ep: Option<Sq>) -> (r: u64)
    ensures
        r == hash_features(cells@, side_white, castling, ep),
{
    let mut h: u64 = 0;
    let mut s: usize = 0;
    while s < 128
        invariant
            s <= 128,
            cells@.len() == 128,
            h == hash_cells(cells@, s as nat),
        decreases 128 - s,
    {
        h = h ^ piece_key_of(cells[s], s);
        s = s + 1;
    }
    h ^ castling_key_of(castling) ^ ep_key_of(ep) ^ side_key_of(side_white)
}

/// XOR algebra used when re-arranging incremental updates.
pub proof fn lemma_xor_shuffle(a: u64, x: u64, y: u64, z: u64)
    ensures
        ((a ^ x) ^ y) ^ z == ((a ^ z) ^ x) ^ y,
        (a ^ x) ^ x == a,
        a ^ 0 == a,
        (a ^ x) ^ y == (a ^ y) ^ x,
{
    assert(((a ^ x) ^ y) ^ z == ((a ^ z) ^ x) ^ y) by (bit_vector);
    assert((a ^ x) ^ x == a) by (bit_vector);
    assert(a ^ 0 == a) by (bit_vector);
    assert((a ^ x) ^ y == (a ^ y) ^ x) by (bit_vector);
}

/// Replacing one cell changes the cell hash by the XOR of the old and the new
/// piece keys of that cell.
pub proof fn lemma_hash_cells_update(cells: Seq<Piece>, i: int, p: Piece, n: nat)
    requires
        0 <= i < cells.len(),
        n <= cells.len(),
    ensures
        hash_cells(cells.update(i, p), n) == if n <= i {
            hash_cells(cells, n)
        } else {
            (hash_cells(cells, n) ^ piece_key(cells[i], i)) ^ piece_key(p, i)
        },
    decreases n,
{
    let c2 = cells.update(i, p);
    if n == 0 {
    } else {
        lemma_hash_cells_update(cells, i, p, (n - 1) as nat);
        let a = hash_cells(cells, (n - 1) as nat);
        let x = piece_key(cells[i], i);
        let y = piece_key(p, i);
        if n - 1 == i {
            lemma_xor_shuffle(a, x, y, 0);
            lemma_xor_shuffle(a ^ y, x, 0, 0);
            assert(((a ^ x) ^ x) ^ y == a ^ y);
        } else if n - 1 > i {
            let z = piece_key(cells[n - 1], n - 1);
            assert(c2[n - 1] == cells[n - 1]);
            lemma_xor_shuffle(a, x, y, z);
        }
    }
}

/// The cell hash depends on the cells only.
pub proof fn lemma_hash_cells_ext(a: Seq<Piece>, b: Seq<Piece>, n: nat)
    requires
        n <= a.len(),
        n <= b.len(),
        forall|i: int| 0 <= i < n ==> a[i] == b[i],
    ensures
        hash_cells(a, n) == hash_cells(b, n),
    decreases n,
{
    if n > 0 {
        lemma_hash_cells_ext(a, b, (n - 1) as nat);
    }
}

} // verus!
