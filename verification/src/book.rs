//! A small opening book.
//!
//! The book maps a position, identified by the first three FEN fields
//! (placement, side to move, castling rights; not the en-passant square, so
//! that `1.e4`, which sets one, still matches), to a few reasonable replies
//! in UCI notation. A legal candidate is picked by the position's Zobrist
//! key, so that play varies between positions but is repeatable.

use crate::board::fen::fen_text;
use crate::board::{Board, Pos};
use crate::movegen::{ep_sane, legal, legal_moves};
use crate::moves::{parse_uci_trimmed, Move, MoveList};
use crate::text::{is_ws, split_ws, trim};
use vstd::prelude::*;

verus! {

/// The book: position keys and their candidate replies.
pub open spec fn book_table() -> Seq<(Seq<char>, Seq<Seq<char>>)> {
    seq![
        ("rnbqkbnr/pppppppp/8/8/8/8/PPPPPPPP/RNBQKBNR w KQkq"@, seq!["e2e4"@, "d2d4"@, "c2c4"@, "g1f3"@]),
        ("rnbqkbnr/pppppppp/8/8/4P3/8/PPPP1PPP/RNBQKBNR b KQkq"@, seq!["c7c5"@, "e7e5"@, "e7e6"@, "c7c6"@]),
        ("rnbqkbnr/pp1ppppp/8/2p5/4P3/8/PPPP1PPP/RNBQKBNR w KQkq"@, seq!["g1f3"@, "c2c3"@, "b1c3"@]),
        ("rnbqkbnr/pppp1ppp/8/4p3/4P3/8/PPPP1PPP/RNBQKBNR w KQkq"@, seq!["g1f3"@, "f1c4"@, "b1c3"@]),
        ("rnbqkbnr/pppp1ppp/8/4p3/4P3/5N2/PPPP1PPP/RNBQKB1R b KQkq"@, seq!["b8c6"@, "g8f6"@]),
        ("r1bqkbnr/pppp1ppp/2n5/4p3/4P3/5N2/PPPP1PPP/RNBQKB1R w KQkq"@, seq!["f1b5"@, "f1c4"@, "d2d4"@]),
        ("rnbqkbnr/pp1ppppp/2p5/8/4P3/8/PPPP1PPP/RNBQKBNR w KQkq"@, seq!["d2d4"@, "b1c3"@]),
        ("rnbqkbnr/pppp1ppp/4p3/8/4P3/8/PPPP1PPP/RNBQKBNR w KQkq"@, seq!["d2d4"@, "b1c3"@]),
        ("rnbqkbnr/pppppppp/8/8/3P4/8/PPP1PPPP/RNBQKBNR b KQkq"@, seq!["d7d5"@, "g8f6"@, "e7e6"@]),
        ("rnbqkbnr/ppp1pppp/8/3p4/3P4/8/PPP1PPPP/RNBQKBNR w KQkq"@, seq!["c2c4"@, "g1f3"@]),
        ("rnbqkbnr/ppp1pppp/8/3p4/2PP4/8/PP2PPPP/RNBQKBNR b KQkq"@, seq!["e7e6"@, "c7c6"@, "d5c4"@]),
        ("rnbqkb1r/pppppppp/5n2/8/3P4/8/PPP1PPPP/RNBQKBNR w KQkq"@, seq!["c2c4"@, "g1f3"@]),
        ("rnbqkb1r/pppppppp/5n2/8/2PP4/8/PP2PPPP/RNBQKBNR b KQkq"@, seq!["e7e6"@, "g7g6"@, "c7c5"@]),
        ("rnbqkbnr/pppppppp/8/8/2P5/8/PP1PPPPP/RNBQKBNR b KQkq"@, seq!["e7e5"@, "g8f6"@, "c7c5"@]),
        ("rnbqkbnr/pppp1ppp/8/4p3/2P5/8/PP1PPPPP/RNBQKBNR w KQkq"@, seq!["b1c3"@, "g2g3"@]),
        ("rnbqkbnr/pppppppp/8/8/8/5N2/PPPPPPPP/RNBQKB1R b KQkq"@, seq!["d7d5"@, "g8f6"@, "c7c5"@]),
    ]
}

/// The candidates the book holds for `key`.
pub open spec fn book_lookup(key: Seq<char>) -> Option<Seq<Seq<char>>> {
    let t = book_table();
    if exists|i: int| 0 <= i < t.len() && #[trigger] t[i].0 == key {
        let i = choose|i: int| 0 <= i < t.len() && #[trigger] t[i].0 == key;
        Some(t[i].1)
    } else {
        None
    }
}

/// The candidates for `key` (the book's keys are distinct).
fn book_candidates(key: &[char]) -> (r: Option<Vec<&'static str>>)
    ensures
        match book_lookup(key@) {
            Some(c) => r is Some && r->0@.map_values(|s: &'static str| s@) == c,
            None => r is None,
        },
{
    proof {
        lemma_book_keys();
    }
    if crate::text::chars_eq_str(key, "rnbqkbnr/pppppppp/8/8/8/8/PPPPPPPP/RNBQKBNR w KQkq") {
        let mut v: Vec<&'static str> = Vec::new();
        v.push("e2e4");
        v.push("d2d4");
        v.push("c2c4");
        v.push("g1f3");
        proof {
            assert(book_table()[0].0 == key@);
            assert(v@.map_values(|s: &'static str| s@) =~= book_table()[0].1);
        }
        return Some(v);
    }
    if crate::text::chars_eq_str(key, "rnbqkbnr/pppppppp/8/8/4P3/8/PPPP1PPP/RNBQKBNR b KQkq") {
        let mut v: Vec<&'static str> = Vec::new();
        v.push("c7c5");
        v.push("e7e5");
        v.push("e7e6");
        v.push("c7c6");
        proof {
            assert(book_table()[1].0 == key@);
            assert(v@.map_values(|s: &'static str| s@) =~= book_table()[1].1);
        }
        return Some(v);
    }
    if crate::text::chars_eq_str(key, "rnbqkbnr/pp1ppppp/8/2p5/4P3/8/PPPP1PPP/RNBQKBNR w KQkq") {
        let mut v: Vec<&'static str> = Vec::new();
        v.push("g1f3");
        v.push("c2c3");
        v.push("b1c3");
        proof {
            assert(book_table()[2].0 == key@);
            assert(v@.map_values(|s: &'static str| s@) =~= book_table()[2].1);
        }
        return Some(v);
    }
    if crate::text::chars_eq_str(key, "rnbqkbnr/pppp1ppp/8/4p3/4P3/8/PPPP1PPP/RNBQKBNR w KQkq") {
        let mut v: Vec<&'static str> = Vec::new();
        v.push("g1f3");
        v.push("f1c4");
        v.push("b1c3");
        proof {
            assert(book_table()[3].0 == key@);
            assert(v@.map_values(|s: &'static str| s@) =~= book_table()[3].1);
        }
        return Some(v);
    }
    if crate::text::chars_eq_str(key, "rnbqkbnr/pppp1ppp/8/4p3/4P3/5N2/PPPP1PPP/RNBQKB1R b KQkq") {
        let mut v: Vec<&'static str> = Vec::new();
        v.push("b8c6");
        v.push("g8f6");
        proof {
            assert(book_table()[4].0 == key@);
            assert(v@.map_values(|s: &'static str| s@) =~= book_table()[4].1);
        }
        return Some(v);
    }
    if crate::text::chars_eq_str(key, "r1bqkbnr/pppp1ppp/2n5/4p3/4P3/5N2/PPPP1PPP/RNBQKB1R w KQkq") {
        let mut v: Vec<&'static str> = Vec::new();
        v.push("f1b5");
        v.push("f1c4");
        v.push("d2d4");
        proof {
            assert(book_table()[5].0 == key@);
            assert(v@.map_values(|s: &'static str| s@) =~= book_table()[5].1);
        }
        return Some(v);
    }
    if crate::text::chars_eq_str(key, "rnbqkbnr/pp1ppppp/2p5/8/4P3/8/PPPP1PPP/RNBQKBNR w KQkq") {
        let mut v: Vec<&'static str> = Vec::new();
        v.push("d2d4");
        v.push("b1c3");
        proof {
            assert(book_table()[6].0 == key@);
            assert(v@.map_values(|s: &'static str| s@) =~= book_table()[6].1);
        }
        return Some(v);
    }
    if crate::text::chars_eq_str(key, "rnbqkbnr/pppp1ppp/4p3/8/4P3/8/PPPP1PPP/RNBQKBNR w KQkq") {
        let mut v: Vec<&'static str> = Vec::new();
        v.push("d2d4");
        v.push("b1c3");
        proof {
            assert(book_table()[7].0 == key@);
            assert(v@.map_values(|s: &'static str| s@) =~= book_table()[7].1);
        }
        return Some(v);
    }
    if crate::text::chars_eq_str(key, "rnbqkbnr/pppppppp/8/8/3P4/8/PPP1PPPP/RNBQKBNR b KQkq") {
        let mut v: Vec<&'static str> = Vec::new();
        v.push("d7d5");
        v.push("g8f6");
        v.push("e7e6");
        proof {
            assert(book_table()[8].0 == key@);
            assert(v@.map_values(|s: &'static str| s@) =~= book_table()[8].1);
        }
        return Some(v);
    }
    if crate::text::chars_eq_str(key, "rnbqkbnr/ppp1pppp/8/3p4/3P4/8/PPP1PPPP/RNBQKBNR w KQkq") {
        let mut v: Vec<&'static str> = Vec::new();
        v.push("c2c4");
        v.push("g1f3");
        proof {
            assert(book_table()[9].0 == key@);
            assert(v@.map_values(|s: &'static str| s@) =~= book_table()[9].1);
        }
        return Some(v);
    }
    if crate::text::chars_eq_str(key, "rnbqkbnr/ppp1pppp/8/3p4/2PP4/8/PP2PPPP/RNBQKBNR b KQkq") {
        let mut v: Vec<&'static str> = Vec::new();
        v.push("e7e6");
        v.push("c7c6");
        v.push("d5c4");
        proof {
            assert(book_table()[10].0 == key@);
            assert(v@.map_values(|s: &'static str| s@) =~= book_table()[10].1);
        }
        return Some(v);
    }
    if crate::text::chars_eq_str(key, "rnbqkb1r/pppppppp/5n2/8/3P4/8/PPP1PPPP/RNBQKBNR w KQkq") {
        let mut v: Vec<&'static str> = Vec::new();
        v.push("c2c4");
        v.push("g1f3");
        proof {
            assert(book_table()[11].0 == key@);
            assert(v@.map_values(|s: &'static str| s@) =~= book_table()[11].1);
        }
        return Some(v);
    }
    if crate::text::chars_eq_str(key, "rnbqkb1r/pppppppp/5n2/8/2PP4/8/PP2PPPP/RNBQKBNR b KQkq") {
        let mut v: Vec<&'static str> = Vec::new();
        v.push("e7e6");
        v.push("g7g6");
        v.push("c7c5");
        proof {
            assert(book_table()[12].0 == key@);
            assert(v@.map_values(|s: &'static str| s@) =~= book_table()[12].1);
        }
        return Some(v);
    }
    if crate::text::chars_eq_str(key, "rnbqkbnr/pppppppp/8/8/2P5/8/PP1PPPPP/RNBQKBNR b KQkq") {
        let mut v: Vec<&'static str> = Vec::new();
        v.push("e7e5");
        v.push("g8f6");
        v.push("c7c5");
        proof {
            assert(book_table()[13].0 == key@);
            assert(v@.map_values(|s: &'static str| s@) =~= book_table()[13].1);
        }
        return Some(v);
    }
    if crate::text::chars_eq_str(key, "rnbqkbnr/pppp1ppp/8/4p3/2P5/8/PP1PPPPP/RNBQKBNR w KQkq") {
        let mut v: Vec<&'static str> = Vec::new();
        v.push("b1c3");
        v.push("g2g3");
        proof {
            assert(book_table()[14].0 == key@);
            assert(v@.map_values(|s: &'static str| s@) =~= book_table()[14].1);
        }
        return Some(v);
    }
    if crate::text::chars_eq_str(key, "rnbqkbnr/pppppppp/8/8/8/5N2/PPPPPPPP/RNBQKB1R b KQkq") {
        let mut v: Vec<&'static str> = Vec::new();
        v.push("d7d5");
        v.push("g8f6");
        v.push("c7c5");
        proof {
            assert(book_table()[15].0 == key@);
            assert(v@.map_values(|s: &'static str| s@) =~= book_table()[15].1);
        }
        return Some(v);
    }
    proof {
        assert forall|i: int| 0 <= i < book_table().len() implies #[trigger] book_table()[i].0 != key@ by {
            if i == 0 {} if i == 1 {} if i == 2 {} if i == 3 {} if i == 4 {} if i == 5 {} if i == 6 {} if i == 7 {} if i == 8 {} if i == 9 {} if i == 10 {} if i == 11 {} if i == 12 {} if i == 13 {} if i == 14 {} if i == 15 {}
        }
    }
    None
}

/// The book's keys are distinct, and its moves are four plain characters.
proof fn lemma_book_keys()
    ensures
        forall|i: int, j: int| 0 <= i < j < book_table().len() ==> #[trigger] book_table()[i].0 != #[trigger] book_table()[j].0,
        forall|i: int, j: int| 0 <= i < book_table().len() && 0 <= j < book_table()[i].1.len() ==> plain4(#[trigger] book_table()[i].1[j]),
{
    reveal_strlit("b1c3");
    reveal_strlit("b8c6");
    reveal_strlit("c2c3");
    reveal_strlit("c2c4");
    reveal_strlit("c7c5");
    reveal_strlit("c7c6");
    reveal_strlit("d2d4");
    reveal_strlit("d5c4");
    reveal_strlit("d7d5");
    reveal_strlit("e2e4");
    reveal_strlit("e7e5");
    reveal_strlit("e7e6");
    reveal_strlit("f1b5");
    reveal_strlit("f1c4");
    reveal_strlit("g1f3");
    reveal_strlit("g2g3");
    reveal_strlit("g7g6");
    reveal_strlit("g8f6");
    reveal_strlit("r1bqkbnr/pppp1ppp/2n5/4p3/4P3/5N2/PPPP1PPP/RNBQKB1R w KQkq");
    reveal_strlit("rnbqkb1r/pppppppp/5n2/8/2PP4/8/PP2PPPP/RNBQKBNR b KQkq");
    reveal_strlit("rnbqkb1r/pppppppp/5n2/8/3P4/8/PPP1PPPP/RNBQKBNR w KQkq");
    reveal_strlit("rnbqkbnr/pp1ppppp/2p5/8/4P3/8/PPPP1PPP/RNBQKBNR w KQkq");
    reveal_strlit("rnbqkbnr/pp1ppppp/8/2p5/4P3/8/PPPP1PPP/RNBQKBNR w KQkq");
    reveal_strlit("rnbqkbnr/ppp1pppp/8/3p4/2PP4/8/PP2PPPP/RNBQKBNR b KQkq");
    reveal_strlit("rnbqkbnr/ppp1pppp/8/3p4/3P4/8/PPP1PPPP/RNBQKBNR w KQkq");
    reveal_strlit("rnbqkbnr/pppp1ppp/4p3/8/4P3/8/PPPP1PPP/RNBQKBNR w KQkq");
    reveal_strlit("rnbqkbnr/pppp1ppp/8/4p3/2P5/8/PP1PPPPP/RNBQKBNR w KQkq");
    reveal_strlit("rnbqkbnr/pppp1ppp/8/4p3/4P3/5N2/PPPP1PPP/RNBQKB1R b KQkq");
    reveal_strlit("rnbqkbnr/pppp1ppp/8/4p3/4P3/8/PPPP1PPP/RNBQKBNR w KQkq");
    reveal_strlit("rnbqkbnr/pppppppp/8/8/2P5/8/PP1PPPPP/RNBQKBNR b KQkq");
    reveal_strlit("rnbqkbnr/pppppppp/8/8/3P4/8/PPP1PPPP/RNBQKBNR b KQkq");
    reveal_strlit("rnbqkbnr/pppppppp/8/8/4P3/8/PPPP1PPP/RNBQKBNR b KQkq");
    reveal_strlit("rnbqkbnr/pppppppp/8/8/8/5N2/PPPPPPPP/RNBQKB1R b KQkq");
    reveal_strlit("rnbqkbnr/pppppppp/8/8/8/8/PPPPPPPP/RNBQKBNR w KQkq");
    assert forall|i: int, j: int| 0 <= i < j < book_table().len() implies #[trigger] book_table()[i].0 != #[trigger] book_table()[j].0 by {
        let a = book_table()[i].0;
        let b = book_table()[j].0;
        assert(a.len() != b.len() || exists|k: int| 0 <= k < a.len() && a[k] != b[k]) by {
            if i == 1 && j == 8 { assert(a[22] != b[22]); }
            if i == 1 && j == 13 { assert(a[22] != b[22]); }
            if i == 1 && j == 15 { assert(a[22] != b[22]); }
            if i == 2 && j == 3 { assert(a[11] != b[11]); }
            if i == 2 && j == 6 { assert(a[18] != b[18]); }
            if i == 2 && j == 7 { assert(a[11] != b[11]); }
            if i == 2 && j == 9 { assert(a[11] != b[11]); }
            if i == 2 && j == 10 { assert(a[11] != b[11]); }
            if i == 2 && j == 11 { assert(a[6] != b[6]); }
            if i == 2 && j == 12 { assert(a[6] != b[6]); }
            if i == 2 && j == 14 { assert(a[11] != b[11]); }
            if i == 3 && j == 6 { assert(a[11] != b[11]); }
            if i == 3 && j == 7 { assert(a[18] != b[18]); }
            if i == 3 && j == 9 { assert(a[12] != b[12]); }
            if i == 3 && j == 10 { assert(a[12] != b[12]); }
            if i == 3 && j == 11 { assert(a[6] != b[6]); }
            if i == 3 && j == 12 { assert(a[6] != b[6]); }
            if i == 3 && j == 14 { assert(a[24] != b[24]); }
            if i == 6 && j == 7 { assert(a[11] != b[11]); }
            if i == 6 && j == 9 { assert(a[11] != b[11]); }
            if i == 6 && j == 10 { assert(a[11] != b[11]); }
            if i == 6 && j == 11 { assert(a[6] != b[6]); }
            if i == 6 && j == 12 { assert(a[6] != b[6]); }
            if i == 6 && j == 14 { assert(a[11] != b[11]); }
            if i == 7 && j == 9 { assert(a[12] != b[12]); }
            if i == 7 && j == 10 { assert(a[12] != b[12]); }
            if i == 7 && j == 11 { assert(a[6] != b[6]); }
            if i == 7 && j == 12 { assert(a[6] != b[6]); }
            if i == 7 && j == 14 { assert(a[18] != b[18]); }
            if i == 8 && j == 13 { assert(a[22] != b[22]); }
            if i == 8 && j == 15 { assert(a[22] != b[22]); }
            if i == 9 && j == 10 { assert(a[24] != b[24]); }
            if i == 9 && j == 11 { assert(a[6] != b[6]); }
            if i == 9 && j == 12 { assert(a[6] != b[6]); }
            if i == 9 && j == 14 { assert(a[12] != b[12]); }
            if i == 10 && j == 11 { assert(a[6] != b[6]); }
            if i == 10 && j == 12 { assert(a[6] != b[6]); }
            if i == 10 && j == 14 { assert(a[12] != b[12]); }
            if i == 11 && j == 12 { assert(a[24] != b[24]); }
            if i == 11 && j == 14 { assert(a[6] != b[6]); }
            if i == 12 && j == 14 { assert(a[6] != b[6]); }
            if i == 13 && j == 15 { assert(a[22] != b[22]); }
        }
    }
    assert forall|i: int, j: int| 0 <= i < book_table().len() && 0 <= j < book_table()[i].1.len() implies plain4(#[trigger] book_table()[i].1[j]) by {
        if i == 0 {} if i == 1 {} if i == 2 {} if i == 3 {} if i == 4 {} if i == 5 {} if i == 6 {} if i == 7 {} if i == 8 {} if i == 9 {} if i == 10 {} if i == 11 {} if i == 12 {} if i == 13 {} if i == 14 {} if i == 15 {}
    }
}

/// Four characters, none of them whitespace, all ASCII.
pub open spec fn plain4(s: Seq<char>) -> bool {
    s.len() == 4 && forall|k: int| 0 <= k < 4 ==> (#[trigger] s[k] as int) < 0x80 && (s[k] as int) > 0x20
}

/// A book move string trims to itself.
proof fn lemma_plain4_ok(s: Seq<char>)
    requires
        plain4(s),
    ensures
        trim(s) == s,
{
    assert(!is_ws(s[0]) && !is_ws(s[3]));
    assert(crate::text::trim_start(s) == s);
    assert(crate::text::trim_end(s) == s);
}

/// The first `n` fields of a position key: the FEN fields joined by spaces.
pub open spec fn join_fields(t: Seq<Seq<char>>, n: int) -> Seq<char>
    decreases n,
{
    if n <= 0 || t.len() == 0 {
        seq![]
    } else if n == 1 {
        t[0]
    } else {
        join_fields(t, n - 1) + seq![' '] + t[n - 1]
    }
}

/// The book key of a position: its first three FEN fields.
pub open spec fn pos_key(p: Pos) -> Seq<char> {
    let t = split_ws(fen_text(p));
    join_fields(t, if t.len() < 3 {
        t.len() as int
    } else {
        3
    })
}

/// The position key used for book lookup: placement, side, and castling.
fn position_key(board: &Board) -> (r: Vec<char>)
    requires
        board.wf(),
    ensures
        r@ == pos_key(board.pos()),
{
    let fen = board.to_fen();
    let chars = crate::text::str_chars(fen.as_str());
    let t = crate::text::split_whitespace(chars.as_slice());
    let n: usize = if t.len() < 3 {
        t.len()
    } else {
        3
    };
    let ghost tv = split_ws(fen_text(board.pos()));
    let mut out: Vec<char> = Vec::new();
    let mut i: usize = 0;
    while i < n
        invariant
            i <= n <= t@.len(),
            t@.len() == tv.len(),
            forall|j: int| 0 <= j < t@.len() ==> #[trigger] t@[j]@ == tv[j],
            out@ == join_fields(tv, i as int),
        decreases n - i,
    {
        if i > 0 {
            out.push(' ');
        }
        crate::text::extend_chars(&mut out, t[i].as_slice());
        proof {
            assert(t@[i as int]@ == tv[i as int]);
            if i == 0 {
                assert(out@ =~= join_fields(tv, 1));
            } else {
                assert(out@ =~= join_fields(tv, i as int + 1));
            }
        }
        i = i + 1;
    }
    out
}

/// The legal moves among the first `n` candidates, in order.
pub open spec fn playable(p: Pos, cands: Seq<Seq<char>>, n: int) -> Seq<Move>
    decreases n,
{
    if n <= 0 {
        seq![]
    } else {
        let prev = playable(p, cands, n - 1);
        match parse_uci_trimmed(trim(cands[n - 1])) {
            Some(m) => if legal(p, m) {
                prev.push(m)
            } else {
                prev
            },
            None => prev,
        }
    }
}

/// The book reply for a position, if the book knows it and one of its
/// candidates is legal.
pub open spec fn book_spec(p: Pos) -> Option<Move> {
    match book_lookup(pos_key(p)) {
        None => None,
        Some(c) => {
            let pl = playable(p, c, c.len() as int);
            if pl.len() == 0 {
                None
            } else {
                Some(pl[(p.key as usize) as int % pl.len() as int])
            }
        },
    }
}

/// Look up a book move for the current position: one of the book's legal
/// candidates, picked by the position's key; `None` when the position is
/// not in the book or no candidate is legal.
pub fn book_move(board: &mut Board) -> (r: Option<Move>)
    requires
        old(board).wf(),
        ep_sane(old(board).pos()),
    ensures
        final(board).wf(),
        final(board).same_state(old(board)),
        r == book_spec(old(board).pos()),
        r matches Some(m) ==> legal(old(board).pos(), m),
{
    let ghost p = board.pos();
    let key = position_key(board);
    let cands = match book_candidates(key.as_slice()) {
        Some(c) => c,
        None => {
            return None;
        },
    };
    let ghost cv = cands@.map_values(|s: &'static str| s@);
    let mut legal_list: MoveList = Vec::new();
    legal_moves(board, &mut legal_list);
    let mut play: Vec<Move> = Vec::new();
    let mut i: usize = 0;
    proof {
        lemma_book_keys();
        let t = book_table();
        let k = choose|k: int| 0 <= k < t.len() && #[trigger] t[k].0 == pos_key(p);
        assert(cv == t[k].1);
        assert forall|j: int| 0 <= j < cv.len() implies plain4(#[trigger] cv[j]) by {
            assert(plain4(t[k].1[j]));
        }
    }
    while i < cands.len()
        invariant
            i <= cands@.len(),
            cv == cands@.map_values(|s: &'static str| s@),
            forall|j: int| 0 <= j < cv.len() ==> plain4(#[trigger] cv[j]),
            forall|m: Move| #[trigger] legal_list@.contains(m) <==> legal(p, m),
            play@ == playable(p, cv, i as int),
            forall|j: int| 0 <= j < play@.len() ==> legal(p, #[trigger] play@[j]),
        decreases cands@.len() - i,
    {
        let c = cands[i];
        proof {
            assert(cv[i as int] == c@);
            lemma_plain4_ok(c@);
        }
        match Move::from_uci(c) {
            Some(bm) => {
                let mut found = false;
                let mut j: usize = 0;
                while j < legal_list.len()
                    invariant
                        j <= legal_list@.len(),
                        found <==> exists|k: int| 0 <= k < j && legal_list@[k] == bm,
                    decreases legal_list@.len() - j,
                {
                    let m = legal_list[j];
                    if m == bm {
                        found = true;
                    }
                    j = j + 1;
                }
                proof {
                    if found {
                        let k = choose|k: int| 0 <= k < legal_list@.len() && legal_list@[k] == bm;
                        assert(legal_list@.contains(bm));
                    }
                    if legal(p, bm) {
                        assert(legal_list@.contains(bm));
                    }
                }
                if found {
                    play.push(bm);
                }
            },
            None => {},
        }
        i = i + 1;
    }
    if play.len() == 0 {
        return None;
    }
    let idx = (board.key as usize) % play.len();
    Some(play[idx])
}

} // verus!
