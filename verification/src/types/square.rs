//! `0x88` square-arithmetic helpers. None of these panic.

use super::Sq;
use crate::text::{is_ws, trim, trim_chars, string_from_chars, str_chars};
use vstd::prelude::*;

verus! {

/// Off-board mask: a square is valid iff `index & 0x88 == 0`.
pub const OFF_BOARD_MASK: usize = 0x88;

/// A real board square: rank and file both in `0..8`.
pub open spec fn valid(s: int) -> bool {
    0 <= s < 128 && s % 16 < 8
}

pub open spec fn spec_rank(s: int) -> int {
    s / 16
}

pub open spec fn spec_file(s: int) -> int {
    s % 16
}

pub open spec fn spec_make(rank: int, file: int) -> int {
    rank * 16 + file
}

/// The lowercase file letter `'a'..='h'` of file `f`.
pub open spec fn file_char(f: int) -> char {
    if f == 0 {
        'a'
    } else if f == 1 {
        'b'
    } else if f == 2 {
        'c'
    } else if f == 3 {
        'd'
    } else if f == 4 {
        'e'
    } else if f == 5 {
        'f'
    } else if f == 6 {
        'g'
    } else {
        'h'
    }
}

/// The rank digit `'1'..='8'` of rank `r`.
pub open spec fn rank_char(r: int) -> char {
    if r == 0 {
        '1'
    } else if r == 1 {
        '2'
    } else if r == 2 {
        '3'
    } else if r == 3 {
        '4'
    } else if r == 4 {
        '5'
    } else if r == 5 {
        '6'
    } else if r == 6 {
        '7'
    } else {
        '8'
    }
}

/// Algebraic coordinates of a square (`"??"` for an off-board index).
pub open spec fn alg(s: int) -> Seq<char> {
    if valid(s) {
        seq![file_char(spec_file(s)), rank_char(spec_rank(s))]
    } else {
        seq!['?', '?']
    }
}

/// The file `0..8` named by a letter (either case), if any.
pub open spec fn file_of_char(c: char) -> Option<int> {
    if 'a' <= c && c <= 'h' {
        Some(c as int - 'a' as int)
    } else if 'A' <= c && c <= 'H' {
        Some(c as int - 'A' as int)
    } else {
        None
    }
}

/// The rank `0..8` named by a digit, if any.
pub open spec fn rank_of_char(c: char) -> Option<int> {
    if '1' <= c && c <= '8' {
        Some(c as int - '1' as int)
    } else {
        None
    }
}

/// What [`from_alg`] reads from characters that are already trimmed: a file
/// letter then a rank digit (anything after them is ignored).
pub open spec fn parse_alg_trimmed(t: Seq<char>) -> Option<int> {
    if t.len() >= 2 && file_of_char(t[0]) is Some && rank_of_char(t[1]) is Some {
        Some(spec_make(rank_of_char(t[1])->0, file_of_char(t[0])->0))
    } else {
        None
    }
}

/// What [`from_alg`] reads from `s`.
pub open spec fn parse_alg(s: Seq<char>) -> Option<int> {
    parse_alg_trimmed(trim(s))
}

/// Below 256, `s & 0x88 == 0` says exactly that `s` is a real square.
pub proof fn lemma_on_board_bits(s: usize)
    requires
        s < 256,
    ensures
        (s & 0x88usize == 0) == valid(s as int),
{
    assert(s < 256 ==> ((s & 0x88usize == 0) == (s < 128 && s % 16 < 8))) by (bit_vector);
}

/// Build a square index from a rank and file (both `0..=7`).
pub fn make(rank: i32, file: i32) -> (r: Sq)
    requires
        0 <= rank < 8,
        0 <= file < 8,
    ensures
        r == spec_make(rank as int, file as int),
        valid(r as int),
        spec_rank(r as int) == rank,
        spec_file(r as int) == file,
{
    (rank * 16 + file) as usize
}

/// `true` if the index has no bit of the off-board mask set; for the
/// indices below 256 that the engine produces, that is a real board square.
pub fn on_board(s: Sq) -> (r: bool)
    ensures
        r == (s & 0x88usize == 0),
        s < 256 ==> r == valid(s as int),
{
    proof {
        if s < 256 {
            lemma_on_board_bits(s);
        }
    }
    (s & OFF_BOARD_MASK) == 0
}

/// `true` if a *signed* index is non-negative with no bit of the off-board
/// mask set (for indices below 256: a real board square).
pub fn on_board_i32(s: i32) -> (r: bool)
    ensures
        r == (s >= 0 && (s as usize & 0x88usize) == 0),
        s < 256 ==> r == valid(s as int),
{
    if s < 0 {
        false
    } else {
        on_board(s as usize)
    }
}

/// The rank of a square (`0..=7` for a valid one).
pub fn rank(s: Sq) -> (r: i32)
    requires
        s < 128,
    ensures
        r == spec_rank(s as int),
        0 <= r < 8,
{
    (s / 16) as i32
}

/// The file of a square (`0..=7` for a valid one).
pub fn file(s: Sq) -> (r: i32)
    ensures
        r == s % 8,
        s % 16 < 8 ==> r == spec_file(s as int),
        0 <= r < 8,
{
    (s % 8) as i32
}

/// The file letter for file `f` (`0..8`).
pub fn file_letter(f: i32) -> (c: char)
    requires
        0 <= f < 8,
    ensures
        c == file_char(f as int),
{
    if f == 0 {
        'a'
    } else if f == 1 {
        'b'
    } else if f == 2 {
        'c'
    } else if f == 3 {
        'd'
    } else if f == 4 {
        'e'
    } else if f == 5 {
        'f'
    } else if f == 6 {
        'g'
    } else {
        'h'
    }
}

/// The rank digit for rank `r` (`0..8`).
pub fn rank_digit(r: i32) -> (c: char)
    requires
        0 <= r < 8,
    ensures
        c == rank_char(r as int),
{
    if r == 0 {
        '1'
    } else if r == 1 {
        '2'
    } else if r == 2 {
        '3'
    } else if r == 3 {
        '4'
    } else if r == 4 {
        '5'
    } else if r == 5 {
        '6'
    } else if r == 6 {
        '7'
    } else {
        '8'
    }
}

/// Appends the algebraic coordinates of `s` to `out`.
pub fn push_alg(out: &mut Vec<char>, s: Sq)
    ensures
        final(out)@ == old(out)@ + alg(s as int),
{
    if s >= 128 || !on_board(s) {
        out.push('?');
        out.push('?');
        assert(final(out)@ =~= old(out)@ + alg(s as int));
    } else {
        let f = file_letter(file(s));
        let r = rank_digit(rank(s));
        out.push(f);
        out.push(r);
        assert(final(out)@ =~= old(out)@ + alg(s as int));
    }
}

/// Convert to algebraic coordinates such as `"e4"`. Returns `"??"` for an
/// off-board index rather than panicking.
pub fn to_alg(s: Sq) -> (r: String)
    ensures
        r@ == alg(s as int),
{
    let mut v: Vec<char> = Vec::new();
    push_alg(&mut v, s);
    assert(v@ =~= alg(s as int));
    string_from_chars(v.as_slice())
}

fn file_from_char(c: char) -> (r: Option<i32>)
    ensures
        match file_of_char(c) {
            Some(f) => r == Some(f as i32),
            None => r is None,
        },
{
    if 'a' <= c && c <= 'h' {
        Some((c as u32 - 'a' as u32) as i32)
    } else if 'A' <= c && c <= 'H' {
        Some((c as u32 - 'A' as u32) as i32)
    } else {
        None
    }
}

fn rank_from_char(c: char) -> (r: Option<i32>)
    ensures
        match rank_of_char(c) {
            Some(x) => r == Some(x as i32),
            None => r is None,
        },
{
    if '1' <= c && c <= '8' {
        Some((c as u32 - '1' as u32) as i32)
    } else {
        None
    }
}

/// Parse algebraic coordinates from characters (see [`from_alg`]).
pub fn from_alg_chars(s: &[char]) -> (r: Option<Sq>)
    ensures
        match parse_alg(s@) {
            Some(x) => r == Some(x as usize) && valid(x),
            None => r is None,
        },
{
    let t = trim_chars(s);
    if t.len() < 2 {
        return None;
    }
    let f = file_from_char(t[0]);
    let r = rank_from_char(t[1]);
    match (f, r) {
        (Some(f), Some(r)) => Some(make(r, f)),
        _ => None,
    }
}

/// Parse algebraic coordinates such as `"e4"` (surrounding whitespace is
/// ignored, and so is anything after the two coordinate characters; the file
/// letter may be either case). Returns `None` on any malformed input.
pub fn from_alg(s: &str) -> (r: Option<Sq>)
    ensures
        match parse_alg(s@) {
            Some(x) => r == Some(x as usize) && valid(x),
            None => r is None,
        },
{
    let v = str_chars(s);
    from_alg_chars(v.as_slice())
}

/// Reading back the coordinates of a real square gives that square.
pub proof fn lemma_alg_roundtrip(s: int)
    requires
        valid(s),
    ensures
        parse_alg(alg(s)) == Some(s),
{
    let t = alg(s);
    assert(!is_ws(t[0]) && !is_ws(t[1]));
    assert(crate::text::trim_start(t) == t);
    assert(t.drop_last().len() == 1);
    assert(crate::text::trim_end(t) == t);
}


/// The `i`-th real square in a1, b1, ..., h1, a2, ..., h8 order.
pub open spec fn sq_at(i: int) -> int {
    spec_make(i / 8, i % 8)
}

/// The position of a real square in that order.
pub open spec fn idx_of(s: int) -> int {
    spec_rank(s) * 8 + spec_file(s)
}

/// The enumeration of the 64 real squares in rank-major order is a
/// bijection, and it lists the squares in increasing index order.
pub proof fn lemma_sq_enum()
    ensures
        forall|i: int| 0 <= i < 64 ==> valid(#[trigger] sq_at(i)) && idx_of(sq_at(i)) == i,
        forall|s: int| valid(s) ==> 0 <= #[trigger] idx_of(s) < 64 && sq_at(idx_of(s)) == s,
        forall|s: int, t: int| valid(s) && valid(t) ==> (s < t <==> #[trigger] idx_of(s) < #[trigger] idx_of(t)),
{
}

/// The `i`-th real square (see [`sq_at`]).
pub fn nth_square(i: usize) -> (s: Sq)
    requires
        i < 64,
    ensures
        s == sq_at(i as int),
        valid(s as int),
        idx_of(s as int) == i,
{
    make((i / 8) as i32, (i % 8) as i32)
}

} // verus!
