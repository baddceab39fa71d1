//! FEN (de)serialization, the standard starting position, and the ASCII
//! diagram of a board.

use super::{Board, Pos};
use crate::text::{
    all_digits, decimal, digit_value, digits_value, extend_chars, extend_str, is_digit,
    parse_unsigned, push_decimal, split_char, split_on, split_whitespace, split_ws, str_chars,
    string_from_chars,
};
use crate::types::square::{self, alg, parse_alg, push_alg, valid};
use crate::types::{Piece, CASTLE_BK, CASTLE_BQ, CASTLE_WK, CASTLE_WQ};
use crate::zobrist::{hash_features, hash_of};
use vstd::prelude::*;

verus! {

/// The FEN text of one rank, scanning files `f..8` with `empty` empty squares
/// pending.
pub open spec fn rank_fen_acc(cells: Seq<Piece>, r: int, f: int, empty: nat) -> Seq<char>
    decreases 8 - f,
{
    if f >= 8 {
        if empty > 0 {
            decimal(empty)
        } else {
            Seq::empty()
        }
    } else {
        let p = cells[square::spec_make(r, f)];
        if p.spec_is_empty() {
            rank_fen_acc(cells, r, f + 1, empty + 1)
        } else {
            (if empty > 0 {
                decimal(empty)
            } else {
                Seq::<char>::empty()
            }) + seq![p.spec_to_char()] + rank_fen_acc(cells, r, f + 1, 0)
        }
    }
}

/// The piece-placement text of ranks `r` down to 1, separated by `/`.
pub open spec fn placement_from(cells: Seq<Piece>, r: int) -> Seq<char>
    decreases r,
{
    if r <= 0 {
        rank_fen_acc(cells, 0, 0, 0)
    } else {
        rank_fen_acc(cells, r, 0, 0) + seq!['/'] + placement_from(cells, r - 1)
    }
}

/// The castling field: `KQkq` letters for the rights held, `-` for none.
pub open spec fn castling_text(c: u8) -> Seq<char> {
    let t = (if c & 1u8 != 0 {
        seq!['K']
    } else {
        Seq::<char>::empty()
    }) + (if c & 2u8 != 0 {
        seq!['Q']
    } else {
        Seq::<char>::empty()
    }) + (if c & 4u8 != 0 {
        seq!['k']
    } else {
        Seq::<char>::empty()
    }) + (if c & 8u8 != 0 {
        seq!['q']
    } else {
        Seq::<char>::empty()
    });
    if t.len() == 0 {
        seq!['-']
    } else {
        t
    }
}

/// The FEN text of a position.
pub open spec fn fen_text(p: Pos) -> Seq<char> {
    placement_from(p.cells, 7) + seq![' '] + seq![
        if p.side_white {
            'w'
        } else {
            'b'
        },
    ] + seq![' '] + castling_text(p.castling) + seq![' '] + match p.ep {
        Some(e) => alg(e as int),
        None => seq!['-'],
    } + seq![' '] + decimal(p.halfmove as nat) + seq![' '] + decimal(p.fullmove as nat)
}

/// Places the pieces of one FEN rank string `s` on rank `r` starting at
/// file `f`; `None` if the string names an unknown piece, overflows the
/// rank, or does not fill exactly eight files.
pub open spec fn place_rank(cells: Seq<Piece>, r: int, s: Seq<char>, f: int) -> Option<
    Seq<Piece>,
>
    decreases s.len(),
{
    if s.len() == 0 {
        if f == 8 {
            Some(cells)
        } else {
            None
        }
    } else if is_digit(s[0]) {
        place_rank(cells, r, s.drop_first(), f + digit_value(s[0]))
    } else if f > 7 {
        None
    } else if Piece::spec_from_char(s[0]).spec_is_empty() {
        None
    } else {
        place_rank(
            cells.update(square::spec_make(r, f), Piece::spec_from_char(s[0])),
            r,
            s.drop_first(),
            f + 1,
        )
    }
}

/// Places FEN ranks `ranks[i..8]` (rank 8 first).
pub open spec fn place_all(cells: Seq<Piece>, ranks: Seq<Seq<char>>, i: int) -> Option<Seq<Piece>>
    decreases 8 - i,
{
    if i >= 8 {
        Some(cells)
    } else {
        match place_rank(cells, 7 - i, ranks[i], 0) {
            Some(c) => place_all(c, ranks, i + 1),
            None => None,
        }
    }
}

/// The castling mask named by a castling field other than `-`.
pub open spec fn parse_castling(s: Seq<char>) -> Option<u8>
    decreases s.len(),
{
    if s.len() == 0 {
        Some(0)
    } else {
        match parse_castling(s.drop_last()) {
            Some(c) => {
                let ch = s.last();
                if ch == 'K' {
                    Some(c | 1u8)
                } else if ch == 'Q' {
                    Some(c | 2u8)
                } else if ch == 'k' {
                    Some(c | 4u8)
                } else if ch == 'q' {
                    Some(c | 8u8)
                } else {
                    None
                }
            },
            None => None,
        }
    }
}

/// The empty board's cells.
pub open spec fn empty_cells() -> Seq<Piece> {
    Seq::new(128, |i: int| Piece::Empty)
}

/// The position a FEN text describes, if it is well formed. Missing
/// trailing fields default to White to move, no rights, no en-passant
/// target, clock 0 and move 1; a fullmove number of 0 reads as 1; fields
/// after the sixth are ignored.
pub open spec fn parse_fen(s: Seq<char>) -> Option<Pos> {
    let parts = split_ws(s);
    if parts.len() == 0 {
        None
    } else {
        let ranks = split_on(parts[0], '/');
        if ranks.len() != 8 {
            None
        } else {
            match place_all(empty_cells(), ranks, 0) {
                None => None,
                Some(cells) => {
                    let side = if parts.len() > 1 {
                        if parts[1] == seq!['w'] {
                            Some(true)
                        } else if parts[1] == seq!['b'] {
                            Some(false)
                        } else {
                            None
                        }
                    } else {
                        Some(true)
                    };
                    let castling = if parts.len() > 2 && parts[2] != seq!['-'] {
                        parse_castling(parts[2])
                    } else {
                        Some(0u8)
                    };
                    let ep: Option<Option<usize>> = if parts.len() > 3 && parts[3] != seq!['-'] {
                        match parse_alg(parts[3]) {
                            Some(e) => Some(Some(e as usize)),
                            None => None,
                        }
                    } else {
                        Some(None)
                    };
                    let half = if parts.len() > 4 {
                        parse_unsigned(parts[4], u32::MAX as nat)
                    } else {
                        Some(0nat)
                    };
                    let full = if parts.len() > 5 {
                        parse_unsigned(parts[5], u32::MAX as nat)
                    } else {
                        Some(1nat)
                    };
                    if side is Some && castling is Some && ep is Some && half is Some
                        && full is Some {
                        let fm = if full->0 == 0 {
                            1u32
                        } else {
                            full->0 as u32
                        };
                        Some(
                            Pos {
                                cells,
                                side_white: side->0,
                                castling: castling->0,
                                ep: ep->0,
                                halfmove: half->0 as u32,
                                fullmove: fm,
                                key: hash_features(cells, side->0, castling->0, ep->0),
                            },
                        )
                    } else {
                        None
                    }
                },
            }
        }
    }
}

/// Once the file count is past the board, a rank string cannot be placed.
/// The message for a FEN rank string `whole` that does not place, read
/// from its suffix `s` at file `f`: the first fault met, an overflow, an
/// unknown piece, or a rank that ends short or long.
pub open spec fn rank_error(s: Seq<char>, whole: Seq<char>, f: int) -> Seq<char>
    decreases s.len(),
{
    if s.len() == 0 {
        "rank '"@ + whole + "' does not fill 8 files"@
    } else if is_digit(s[0]) {
        rank_error(s.drop_first(), whole, f + digit_value(s[0]))
    } else if f > 7 {
        "rank '"@ + whole + "' overflows the board"@
    } else if Piece::spec_from_char(s[0]).spec_is_empty() {
        "invalid piece character '"@ + seq![s[0]] + "'"@
    } else {
        rank_error(s.drop_first(), whole, f + 1)
    }
}

/// The first of the eight FEN ranks from `i` on that does not place.
pub open spec fn first_bad_rank(ranks: Seq<Seq<char>>, i: int) -> Option<int>
    decreases 8 - i,
{
    if i >= 8 {
        None
    } else if place_rank(empty_cells(), 7 - i, ranks[i], 0) is None {
        Some(i)
    } else {
        first_bad_rank(ranks, i + 1)
    }
}

/// The message for a castling field with a character that names no right:
/// the first such character.
pub open spec fn castling_error(t: Seq<char>) -> Seq<char>
    decreases t.len(),
{
    if t.len() == 0 {
        seq![]
    } else if t[0] == 'K' || t[0] == 'Q' || t[0] == 'k' || t[0] == 'q' {
        castling_error(t.drop_first())
    } else {
        "invalid castling character '"@ + seq![t[0]] + "'"@
    }
}

/// The message [`Board::from_fen`] gives for a FEN text that describes no
/// position: the first fault, checking the fields in order.
pub open spec fn fen_error(s: Seq<char>) -> Seq<char> {
    let parts = split_ws(s);
    if parts.len() == 0 {
        "empty FEN"@
    } else {
        let ranks = split_on(parts[0], '/');
        if ranks.len() != 8 {
            "FEN must have 8 ranks, found "@ + decimal(ranks.len())
        } else {
            match first_bad_rank(ranks, 0) {
                Some(i) => rank_error(ranks[i], ranks[i], 0),
                None => if parts.len() > 1 && parts[1] != seq!['w'] && parts[1] != seq!['b'] {
                    "invalid side to move '"@ + parts[1] + "'"@
                } else if parts.len() > 2 && parts[2] != seq!['-'] && parse_castling(parts[2]) is None {
                    castling_error(parts[2])
                } else if parts.len() > 3 && parts[3] != seq!['-'] && parse_alg(parts[3]) is None {
                    "bad ep square '"@ + parts[3] + "'"@
                } else if parts.len() > 4 && parse_unsigned(parts[4], u32::MAX as nat) is None {
                    "bad halfmove clock '"@ + parts[4] + "'"@
                } else {
                    "bad fullmove number '"@ + parts[5] + "'"@
                },
            }
        }
    }
}

/// Whether a rank places does not depend on what the board holds.
proof fn lemma_place_rank_cells(c1: Seq<Piece>, c2: Seq<Piece>, r: int, s: Seq<char>, f: int)
    ensures
        place_rank(c1, r, s, f) is None <==> place_rank(c2, r, s, f) is None,
    decreases s.len(),
{
    if s.len() > 0 {
        if is_digit(s[0]) {
            lemma_place_rank_cells(c1, c2, r, s.drop_first(), f + digit_value(s[0]));
        } else if f <= 7 && !Piece::spec_from_char(s[0]).spec_is_empty() {
            lemma_place_rank_cells(
                c1.update(square::spec_make(r, f), Piece::spec_from_char(s[0])),
                c2.update(square::spec_make(r, f), Piece::spec_from_char(s[0])),
                r,
                s.drop_first(),
                f + 1,
            );
        }
    }
}

/// Past the last file, the message no longer depends on how far.
proof fn lemma_rank_error_overflow(s: Seq<char>, whole: Seq<char>, f: int)
    requires
        f >= 9,
    ensures
        rank_error(s, whole, f) == rank_error(s, whole, 9),
    decreases s.len(),
{
    if s.len() > 0 && is_digit(s[0]) {
        lemma_rank_error_overflow(s.drop_first(), whole, f + digit_value(s[0]));
        lemma_rank_error_overflow(s.drop_first(), whole, 9int + digit_value(s[0]));
    }
}

proof fn lemma_place_rank_overflow(cells: Seq<Piece>, r: int, s: Seq<char>, f: int)
    requires
        f >= 9,
    ensures
        place_rank(cells, r, s, f) is None,
    decreases s.len(),
{
    if s.len() > 0 {
        if is_digit(s[0]) {
            lemma_place_rank_overflow(cells, r, s.drop_first(), f + digit_value(s[0]));
        }
    }
}

/// Writes the FEN text of rank `r` of `cells` to `out`.
fn push_rank_fen(out: &mut Vec<char>, cells: &[Piece; 128], r: i32)
    requires
        0 <= r < 8,
    ensures
        final(out)@ == old(out)@ + rank_fen_acc(cells@, r as int, 0, 0),
{
    let mut empty: u64 = 0;
    let mut f: i32 = 0;
    while f < 8
        invariant
            0 <= r < 8,
            0 <= f <= 8,
            empty <= f,
            out@ + rank_fen_acc(cells@, r as int, f as int, empty as nat) == old(out)@
                + rank_fen_acc(cells@, r as int, 0, 0),
        decreases 8 - f,
    {
        let p = cells[square::make(r, f)];
        let ghost o = out@;
        let ghost e0 = empty as nat;
        if p.is_empty() {
            empty = empty + 1;
        } else {
            if empty > 0 {
                push_decimal(out, empty);
                empty = 0;
            }
            out.push(p.to_char());
            assert(rank_fen_acc(cells@, r as int, f as int, e0) == (if e0 > 0 {
                decimal(e0)
            } else {
                Seq::<char>::empty()
            }) + seq![p.spec_to_char()] + rank_fen_acc(cells@, r as int, f + 1, 0));
            assert(out@ + rank_fen_acc(cells@, r as int, f + 1, 0) =~= o + rank_fen_acc(
                cells@,
                r as int,
                f as int,
                e0,
            ));
        }
        f = f + 1;
    }
    let ghost o = out@;
    let ghost e0 = empty as nat;
    if empty > 0 {
        push_decimal(out, empty);
    }
    assert(out@ =~= o + rank_fen_acc(cells@, r as int, 8, e0));
}

/// Writes the piece-placement field of `cells` to `out`.
fn push_placement(out: &mut Vec<char>, cells: &[Piece; 128])
    ensures
        final(out)@ == old(out)@ + placement_from(cells@, 7),
{
    let mut r: i32 = 7;
    while r > 0
        invariant
            0 <= r <= 7,
            out@ + placement_from(cells@, r as int) == old(out)@ + placement_from(cells@, 7),
        decreases r,
    {
        let ghost o = out@;
        push_rank_fen(out, cells, r);
        out.push('/');
        assert(out@ + placement_from(cells@, r - 1) =~= o + placement_from(cells@, r as int));
        r = r - 1;
    }
    let ghost o = out@;
    push_rank_fen(out, cells, 0);
    assert(out@ =~= o + placement_from(cells@, 0));
}

/// Writes the castling field for mask `c` to `out`.
fn push_castling(out: &mut Vec<char>, c: u8)
    ensures
        final(out)@ == old(out)@ + castling_text(c),
{
    let mut t: Vec<char> = Vec::new();
    if c & CASTLE_WK != 0 {
        t.push('K');
    }
    if c & CASTLE_WQ != 0 {
        t.push('Q');
    }
    if c & CASTLE_BK != 0 {
        t.push('k');
    }
    if c & CASTLE_BQ != 0 {
        t.push('q');
    }
    if t.len() == 0 {
        t.push('-');
    }
    assert(t@ =~= castling_text(c));
    extend_chars(out, t.as_slice());
}

impl Board {
    /// Serialize the current position to FEN.
    pub fn to_fen(&self) -> (r: String)
        ensures
            r@ == fen_text(self.pos()),
    {
        let mut s: Vec<char> = Vec::new();
        push_placement(&mut s, &self.cells);
        s.push(' ');
        s.push(if self.side_white { 'w' } else { 'b' });
        s.push(' ');
        push_castling(&mut s, self.castling);
        s.push(' ');
        match self.ep {
            Some(e) => push_alg(&mut s, e),
            None => s.push('-'),
        }
        s.push(' ');
        push_decimal(&mut s, self.halfmove_clock as u64);
        s.push(' ');
        push_decimal(&mut s, self.fullmove as u64);
        assert(s@ =~= fen_text(self.pos()));
        string_from_chars(s.as_slice())
    }
}

/// The characters of `prefix`, then `mid`, then `suffix`, as a `String`.
fn message(prefix: &str, mid: &[char], suffix: &str) -> (r: String)
    ensures
        r@ == prefix@ + mid@ + suffix@,
{
    let mut v: Vec<char> = Vec::new();
    extend_str(&mut v, prefix);
    extend_chars(&mut v, mid);
    extend_str(&mut v, suffix);
    string_from_chars(v.as_slice())
}

fn digit_of_char(c: char) -> (r: Option<i64>)
    ensures
        is_digit(c) ==> r == Some(digit_value(c) as i64),
        !is_digit(c) ==> r is None,
{
    if '0' <= c && c <= '9' {
        Some((c as u32 - '0' as u32) as i64)
    } else {
        None
    }
}

/// Places one FEN rank string on rank `rank` of `cells`; `Err` with the
/// rank-parsing message on a malformed rank.
fn place_rank_exec(cells: &mut [Piece; 128], rank: i32, s: &[char]) -> (r: Result<(), String>)
    requires
        0 <= rank < 8,
        forall|t: int| 0 <= t < 128 && !valid(t) ==> #[trigger] old(cells)@[t] == Piece::Empty,
    ensures
        match place_rank(old(cells)@, rank as int, s@, 0) {
            Some(c) => r is Ok && final(cells)@ == c,
            None => r matches Err(e) && e@ == rank_error(s@, s@, 0),
        },
        forall|t: int| 0 <= t < 128 && !valid(t) ==> #[trigger] final(cells)@[t] == Piece::Empty,
{
    let mut file: i64 = 0;
    let mut j: usize = 0;
    assert(s@.subrange(0, s@.len() as int) =~= s@);
    while j < s.len()
        invariant
            0 <= rank < 8,
            0 <= file <= 9,
            j <= s@.len(),
            place_rank(old(cells)@, rank as int, s@, 0) == place_rank(
                cells@,
                rank as int,
                s@.subrange(j as int, s@.len() as int),
                file as int,
            ),
            rank_error(s@, s@, 0) == rank_error(s@.subrange(j as int, s@.len() as int), s@, file as int),
            forall|t: int| 0 <= t < 128 && !valid(t) ==> #[trigger] cells@[t] == Piece::Empty,
        decreases s@.len() - j,
    {
        let ghost rest = s@.subrange(j as int, s@.len() as int);
        assert(rest.drop_first() =~= s@.subrange(j + 1, s@.len() as int));
        let ch = s[j];
        assert(rest[0] == ch);
        match digit_of_char(ch) {
            Some(d) => {
                if file + d > 8 {
                    proof {
                        lemma_place_rank_overflow(cells@, rank as int, rest.drop_first(), file + d);
                        lemma_place_rank_overflow(cells@, rank as int, rest.drop_first(), 9);
                        lemma_rank_error_overflow(rest.drop_first(), s@, file + d);
                    }
                    file = 9;
                } else {
                    file = file + d;
                }
            },
            None => {
                if file > 7 {
                    let mut v: Vec<char> = Vec::new();
                    extend_chars(&mut v, s);
                    return Err(message("rank '", v.as_slice(), "' overflows the board"));
                }
                let p = Piece::from_char(ch);
                if p.is_empty() {
                    let mut v: Vec<char> = Vec::new();
                    v.push(ch);
                    assert(v@ =~= seq![rest[0]]);
                    return Err(message("invalid piece character '", v.as_slice(), "'"));
                }
                let sq = square::make(rank, file as i32);
                cells[sq] = p;
                file = file + 1;
            },
        }
        j = j + 1;
    }
    assert(s@.subrange(j as int, s@.len() as int).len() == 0);
    if file != 8 {
        let mut v: Vec<char> = Vec::new();
        extend_chars(&mut v, s);
        return Err(message("rank '", v.as_slice(), "' does not fill 8 files"));
    }
    Ok(())
}

fn is_single(t: &[char], c: char) -> (r: bool)
    ensures
        r == (t@ == seq![c]),
{
    if t.len() == 1 && t[0] == c {
        assert(t@ =~= seq![c]);
        true
    } else {
        proof {
            if t@ == seq![c] {
                assert(t@.len() == 1);
            }
        }
        false
    }
}

/// The castling mask of a castling field other than `-`.
fn parse_castling_exec(t: &[char]) -> (r: Result<u8, String>)
    ensures
        match parse_castling(t@) {
            Some(c) => r == Ok::<u8, String>(c),
            None => r matches Err(e) && e@ == castling_error(t@),
        },
{
    let mut c: u8 = 0;
    let mut j: usize = 0;
    assert(t@.subrange(0, 0) =~= Seq::<char>::empty());
    assert(t@.subrange(0, t@.len() as int) =~= t@);
    while j < t.len()
        invariant
            j <= t@.len(),
            parse_castling(t@.subrange(0, j as int)) == Some(c),
            castling_error(t@) == castling_error(t@.subrange(j as int, t@.len() as int)),
        decreases t@.len() - j,
    {
        let ch = t[j];
        let ghost rest = t@.subrange(j as int, t@.len() as int);
        assert(rest.drop_first() =~= t@.subrange(j + 1, t@.len() as int));
        assert(rest[0] == ch);
        assert(t@.subrange(0, j + 1).drop_last() =~= t@.subrange(0, j as int));
        if ch == 'K' {
            c = c | CASTLE_WK;
        } else if ch == 'Q' {
            c = c | CASTLE_WQ;
        } else if ch == 'k' {
            c = c | CASTLE_BK;
        } else if ch == 'q' {
            c = c | CASTLE_BQ;
        } else {
            proof {
                lemma_castling_prefix_none(t@, j as int + 1);
            }
            let mut v: Vec<char> = Vec::new();
            v.push(ch);
            assert(v@ =~= seq![rest[0]]);
            return Err(message("invalid castling character '", v.as_slice(), "'"));
        }
        j = j + 1;
    }
    assert(t@.subrange(0, t@.len() as int) =~= t@);
    Ok(c)
}

proof fn lemma_castling_prefix_none(t: Seq<char>, k: int)
    requires
        0 <= k <= t.len(),
        parse_castling(t.subrange(0, k)) is None,
    ensures
        parse_castling(t) is None,
    decreases t.len() - k,
{
    if k < t.len() {
        assert(t.subrange(0, k + 1).drop_last() =~= t.subrange(0, k));
        lemma_castling_prefix_none(t, k + 1);
    } else {
        assert(t.subrange(0, k) =~= t);
    }
}

impl Board {
    /// Parse a position from FEN. Returns `Err` with a human-readable message
    /// on malformed input.
    pub fn from_fen(fen: &str) -> (r: Result<Board, String>)
        ensures
            match parse_fen(fen@) {
                Some(p) => r is Ok && r->Ok_0.pos() == p && r->Ok_0.valid() && r->Ok_0.line().len()
                    == 0 && r->Ok_0.redo_stack().len() == 0,
                None => r matches Err(e) && e@ == fen_error(fen@),
            },
    {
        let chars = str_chars(fen);
        let parts = split_whitespace(chars.as_slice());
        proof {
            reveal_strlit("");
        }
        if parts.len() == 0 {
            let r = message("empty FEN", &[], "");
            assert(r@ =~= "empty FEN"@);
            return Err(r);
        }
        let ranks = split_char(parts[0].as_slice(), '/');
        proof {
            assert(parts@[0]@ == split_ws(fen@)[0]);
        }
        if ranks.len() != 8 {
            let mut v: Vec<char> = Vec::new();
            push_decimal(&mut v, ranks.len() as u64);
            let r = message("FEN must have 8 ranks, found ", v.as_slice(), "");
            assert(r@ =~= "FEN must have 8 ranks, found "@ + decimal(split_on(split_ws(fen@)[0], '/').len()));
            return Err(r);
        }
        let ghost rk = split_on(split_ws(fen@)[0], '/');
        let mut cells = [Piece::Empty; 128];
        proof {
            assert(cells == vstd::array::spec_array_fill_for_copy_type::<Piece, 128>(Piece::Empty));
            assert(cells@ =~= empty_cells());
        }
        let mut i: usize = 0;
        while i < 8
            invariant
                i <= 8,
                ranks@.len() == 8,
                rk.len() == 8,
                split_ws(fen@).len() > 0,
                rk == split_on(split_ws(fen@)[0], '/'),
                forall|k: int| 0 <= k < 8 ==> #[trigger] ranks@[k]@ == rk[k],
                place_all(empty_cells(), rk, 0) == place_all(cells@, rk, i as int),
                first_bad_rank(rk, 0) == first_bad_rank(rk, i as int),
                forall|t: int| 0 <= t < 128 && !valid(t) ==> #[trigger] cells@[t] == Piece::Empty,
            decreases 8 - i,
        {
            let rank = 7 - i as i32;
            let ghost c0 = cells@;
            assert(ranks@[i as int]@ == rk[i as int]);
            proof {
                lemma_place_rank_cells(c0, empty_cells(), 7 - i, rk[i as int], 0);
            }
            match place_rank_exec(&mut cells, rank, ranks[i].as_slice()) {
                Ok(()) => {},
                Err(e) => {
                    assert(place_all(c0, rk, i as int) is None);
                    assert(parse_fen(fen@) is None);
                    assert(first_bad_rank(rk, i as int) == Some(i as int));
                    return Err(e);
                },
            }
            i = i + 1;
        }
        let side_white = if parts.len() > 1 {
            if is_single(parts[1].as_slice(), 'w') {
                true
            } else if is_single(parts[1].as_slice(), 'b') {
                false
            } else {
                return Err(message("invalid side to move '", parts[1].as_slice(), "'"));
            }
        } else {
            true
        };
        let castling = if parts.len() > 2 && !is_single(parts[2].as_slice(), '-') {
            match parse_castling_exec(parts[2].as_slice()) {
                Ok(c) => c,
                Err(e) => {
                    return Err(e);
                },
            }
        } else {
            0
        };
        let ep = if parts.len() > 3 && !is_single(parts[3].as_slice(), '-') {
            match square::from_alg_chars(parts[3].as_slice()) {
                Some(e) => Some(e),
                None => {
                    return Err(message("bad ep square '", parts[3].as_slice(), "'"));
                },
            }
        } else {
            None
        };
        let halfmove_clock: u32 = if parts.len() > 4 {
            match crate::text::parse_uint(parts[4].as_slice(), 0xffff_ffff) {
                Some(v) => v as u32,
                None => {
                    return Err(message("bad halfmove clock '", parts[4].as_slice(), "'"));
                },
            }
        } else {
            0
        };
        let mut fullmove: u32 = if parts.len() > 5 {
            match crate::text::parse_uint(parts[5].as_slice(), 0xffff_ffff) {
                Some(v) => v as u32,
                None => {
                    return Err(message("bad fullmove number '", parts[5].as_slice(), "'"));
                },
            }
        } else {
            1
        };
        if fullmove == 0 {
            fullmove = 1;
        }
        let mut b = Board::empty();
        b.cells = cells;
        b.side_white = side_white;
        b.castling = castling;
        b.ep = ep;
        b.halfmove_clock = halfmove_clock;
        b.fullmove = fullmove;
        b.key = hash_of(&b.cells, side_white, castling, ep);
        proof {
            if parts@.len() > 2 && split_ws(fen@)[2] != seq!['-'] {
                lemma_castling_small(split_ws(fen@)[2]);
            }
            assert(b.pos() == parse_fen(fen@)->0);
        }
        Ok(b)
    }
}

/// A parsed castling field holds only the four castling bits.
proof fn lemma_castling_small(t: Seq<char>)
    ensures
        parse_castling(t) matches Some(c) ==> c < 16,
    decreases t.len(),
{
    if t.len() > 0 {
        lemma_castling_small(t.drop_last());
        if let Some(c) = parse_castling(t.drop_last()) {
            assert(c < 16 ==> (c | 1u8) < 16 && (c | 2u8) < 16 && (c | 4u8) < 16 && (c | 8u8) < 16) by (bit_vector);
        }
    }
}

/// The kind of the piece that starts on file `f` of a back rank.
pub open spec fn back_rank_kind(f: int) -> crate::types::PieceKind {
    if f == 0 || f == 7 {
        crate::types::PieceKind::Rook
    } else if f == 1 || f == 6 {
        crate::types::PieceKind::Knight
    } else if f == 2 || f == 5 {
        crate::types::PieceKind::Bishop
    } else if f == 3 {
        crate::types::PieceKind::Queen
    } else {
        crate::types::PieceKind::King
    }
}

/// The piece on rank `r`, file `f` of the starting position.
pub open spec fn start_piece(r: int, f: int) -> Piece {
    if r == 0 {
        Piece::spec_make(crate::types::Color::White, back_rank_kind(f))
    } else if r == 1 {
        Piece::WP
    } else if r == 6 {
        Piece::BP
    } else if r == 7 {
        Piece::spec_make(crate::types::Color::Black, back_rank_kind(f))
    } else {
        Piece::Empty
    }
}

/// The standard starting position.
pub open spec fn start_pos() -> Pos {
    let cells = Seq::new(
        128,
        |s: int|
            if valid(s) {
                start_piece(square::spec_rank(s), square::spec_file(s))
            } else {
                Piece::Empty
            },
    );
    Pos {
        cells,
        side_white: true,
        castling: 15,
        ep: None,
        halfmove: 0,
        fullmove: 1,
        key: hash_features(cells, true, 15, None),
    }
}

fn start_piece_exec(r: i32, f: i32) -> (p: Piece)
    requires
        0 <= r < 8,
        0 <= f < 8,
    ensures
        p == start_piece(r as int, f as int),
{
    let kind = if f == 0 || f == 7 {
        crate::types::PieceKind::Rook
    } else if f == 1 || f == 6 {
        crate::types::PieceKind::Knight
    } else if f == 2 || f == 5 {
        crate::types::PieceKind::Bishop
    } else if f == 3 {
        crate::types::PieceKind::Queen
    } else {
        crate::types::PieceKind::King
    };
    if r == 0 {
        Piece::make(crate::types::Color::White, kind)
    } else if r == 1 {
        Piece::WP
    } else if r == 6 {
        Piece::BP
    } else if r == 7 {
        Piece::make(crate::types::Color::Black, kind)
    } else {
        Piece::Empty
    }
}

/// The ASCII picture of a board: a frame, the ranks from 8 down, and the
/// file letters.
pub open spec fn ascii_text(cells: Seq<Piece>) -> Seq<char> {
    "  +------------------------+\n"@ + ascii_rows(cells, 8) + "  +------------------------+\n"@
        + "    a b c d e f g h\n"@
}

/// The text of one row of the ASCII diagram: files `0..n` of rank `r`.
pub open spec fn ascii_cells(cells: Seq<Piece>, r: int, n: int) -> Seq<char>
    decreases n,
{
    if n <= 0 {
        Seq::empty()
    } else {
        ascii_cells(cells, r, n - 1) + seq![' ', cells[square::spec_make(r, n - 1)].spec_to_char()]
    }
}

/// The rows of the ASCII diagram for ranks `k - 1` down to 0.
pub open spec fn ascii_rows(cells: Seq<Piece>, k: int) -> Seq<char>
    decreases k,
{
    if k <= 0 {
        Seq::empty()
    } else {
        seq![square::rank_char(k - 1), ' ', '|'] + ascii_cells(cells, k - 1, 8) + seq![' ', '|', '\n']
            + ascii_rows(cells, k - 1)
    }
}

impl Board {
    /// The standard chess starting position.
    pub fn startpos() -> (b: Board)
        ensures
            b.pos() == start_pos(),
            b.valid(),
            b.line().len() == 0,
            b.redo_stack().len() == 0,
    {
        let mut cells = [Piece::Empty; 128];
        proof {
            assert(cells == vstd::array::spec_array_fill_for_copy_type::<Piece, 128>(Piece::Empty));
            square::lemma_sq_enum();
        }
        let mut i: usize = 0;
        while i < 64
            invariant
                i <= 64,
                forall|t: int| 0 <= t < 128 ==> #[trigger] cells@[t] == if valid(t) && square::idx_of(t) < i {
                    start_piece(square::spec_rank(t), square::spec_file(t))
                } else {
                    Piece::Empty
                },
            decreases 64 - i,
        {
            let s = square::nth_square(i);
            let p = start_piece_exec(square::rank(s), square::file(s));
            cells[s] = p;
            i = i + 1;
        }
        let mut b = Board::empty();
        b.cells = cells;
        b.castling = 15;
        b.key = hash_of(&b.cells, true, 15, None);
        assert(b.cells@ =~= start_pos().cells);
        b
    }

    /// A plain ASCII rendering of the board (rank 8 at the top).
    pub fn ascii(&self) -> (r: String)
        ensures
            r@ == ascii_text(self.cells@),
    {
        let mut s: Vec<char> = Vec::new();
        extend_str(&mut s, "  +------------------------+\n");
        let ghost head = s@;
        let mut r: i32 = 8;
        while r > 0
            invariant
                0 <= r <= 8,
                s@ + ascii_rows(self.cells@, r as int) == head + ascii_rows(self.cells@, 8),
            decreases r,
        {
            let ghost o = s@;
            s.push(square::rank_digit(r - 1));
            s.push(' ');
            s.push('|');
            let ghost o2 = s@;
            let mut f: i32 = 0;
            while f < 8
                invariant
                    0 < r <= 8,
                    0 <= f <= 8,
                    s@ == o2 + ascii_cells(self.cells@, r - 1, f as int),
                decreases 8 - f,
            {
                s.push(' ');
                s.push(self.cells[square::make(r - 1, f)].to_char());
                assert(s@ =~= o2 + ascii_cells(self.cells@, r - 1, f + 1));
                f = f + 1;
            }
            s.push(' ');
            s.push('|');
            s.push('\n');
            assert(s@ + ascii_rows(self.cells@, r - 1) =~= o + ascii_rows(self.cells@, r as int));
            r = r - 1;
        }
        let ghost body = s@;
        extend_str(&mut s, "  +------------------------+\n");
        extend_str(&mut s, "    a b c d e f g h\n");
        assert(s@ =~= "  +------------------------+\n"@ + ascii_rows(self.cells@, 8)
            + "  +------------------------+\n"@ + "    a b c d e f g h\n"@);
        string_from_chars(s.as_slice())
    }
}


/// The standard starting FEN names no en-passant target.
pub proof fn lemma_start_fen_no_ep()
    ensures
        parse_fen(crate::board::START_FEN@) matches Some(q) ==> q.ep is None,
{
    let s = crate::board::START_FEN@;
    reveal_strlit("rnbqkbnr/pppppppp/8/8/8/8/PPPPPPPP/RNBQKBNR w KQkq - 0 1");
    reveal_strlit("rnbqkbnr/pppppppp/8/8/8/8/PPPPPPPP/RNBQKBNR");
    let p0 = "rnbqkbnr/pppppppp/8/8/8/8/PPPPPPPP/RNBQKBNR"@;
    let w = seq!['w'];
    let c = seq!['K', 'Q', 'k', 'q'];
    let e = seq!['-'];
    let h = seq!['0'];
    let f = seq!['1'];
    let r5 = f;
    let r4 = h + seq![' '] + r5;
    let r3 = e + seq![' '] + r4;
    let r2 = c + seq![' '] + r3;
    let r1 = w + seq![' '] + r2;
    assert(s =~= p0 + seq![' '] + r1);
    assert(forall|i: int| 0 <= i < p0.len() ==> !crate::text::is_ws(#[trigger] p0[i]));
    crate::text::lemma_split_word(p0, r1, Seq::empty());
    crate::text::lemma_split_word(w, r2, Seq::empty());
    crate::text::lemma_split_word(c, r3, Seq::empty());
    crate::text::lemma_split_word(e, r4, Seq::empty());
    crate::text::lemma_split_word(h, r5, Seq::empty());
    crate::text::lemma_split_last_word(f, Seq::empty());
    let parts = split_ws(s);
    assert(Seq::<char>::empty() + e =~= e);
    assert(parts.len() == 6);
    assert(parts[3] =~= seq!['-']);
}

} // verus!
