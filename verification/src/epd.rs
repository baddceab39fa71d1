//! EPD (Extended Position Description) records and a best-move check.
//!
//! A record is a position (the first four FEN fields) followed by
//! `;`-separated operations, such as
//! `2rr3k/pp3pp1/1nnqbN1p/3pN3/2pP4/2P3Q1/PPB4P/R4RK1 w - - bm Qg6; id "WAC.001";`.
//! The operations read are `bm` (best moves), `am` (moves to avoid), and
//! `id`. [`Epd::solve`] searches the position and says whether the move
//! chosen satisfies the record.

use crate::board::fen::{fen_error, parse_fen};
use crate::board::Board;
use crate::movegen::{ep_is_sane, ep_sane};
use crate::san::{move_to_san, san_text};
use crate::moves::Move;
use crate::search::{search, some_legal, SearchLimits};
use crate::text::{is_ws, split_on, split_ws, str_chars, str_string, string_from_chars, trim};
use crate::pgn::{strip_end, strip_start};
use vstd::prelude::*;

verus! {

/// A parsed EPD record.
#[derive(Clone, Debug)]
pub struct Epd {
    /// The full FEN (EPD has no clocks; they are set to `0 1`).
    pub fen: String,
    /// The best moves in SAN (`bm`); the engine should play one.
    pub best_moves: Vec<String>,
    /// The moves to avoid in SAN (`am`).
    pub avoid_moves: Vec<String>,
    /// The record's `id`, if any.
    pub id: Option<String>,
}

/// The index of the `n`-th (from 0) whitespace character of `s` at or after
/// `from`.
pub open spec fn nth_ws(s: Seq<char>, n: int, from: int) -> Option<int>
    decreases s.len() - from,
{
    if from < 0 || from >= s.len() {
        None
    } else if is_ws(s[from]) {
        if n == 0 {
            Some(from)
        } else {
            nth_ws(s, n - 1, from + 1)
        }
    } else {
        nth_ws(s, n, from + 1)
    }
}

/// The index of the first whitespace character of `s`.
pub open spec fn first_ws(s: Seq<char>) -> Option<int> {
    nth_ws(s, 0, 0)
}

/// The code of an operation: the text before its first whitespace.
pub open spec fn op_code(op: Seq<char>) -> Seq<char> {
    match first_ws(op) {
        Some(i) => op.subrange(0, i),
        None => op,
    }
}

/// The value of an operation: the text after its first whitespace, trimmed.
pub open spec fn op_value(op: Seq<char>) -> Seq<char> {
    match first_ws(op) {
        Some(i) => trim(op.subrange(i + 1, op.len() as int)),
        None => seq![],
    }
}

/// The best moves, avoided moves, and id after the first `n` operations.
pub open spec fn ops_fold(ops: Seq<Seq<char>>, n: int) -> (Seq<Seq<char>>, Seq<Seq<char>>, Option<Seq<char>>)
    decreases n,
{
    if n <= 0 {
        (seq![], seq![], None)
    } else {
        let (bm, am, id) = ops_fold(ops, n - 1);
        let op = trim(ops[n - 1]);
        if op.len() == 0 {
            (bm, am, id)
        } else if op_code(op) == "bm"@ {
            (split_ws(op_value(op)), am, id)
        } else if op_code(op) == "am"@ {
            (bm, split_ws(op_value(op)), id)
        } else if op_code(op) == "id"@ {
            (bm, am, Some(strip_end(strip_start(op_value(op), '"'), '"')))
        } else {
            (bm, am, id)
        }
    }
}

/// The FEN of an EPD line: its first four fields and `0 1`.
pub open spec fn epd_fen(t: Seq<Seq<char>>) -> Seq<char> {
    t[0] + seq![' '] + t[1] + seq![' '] + t[2] + seq![' '] + t[3] + " 0 1"@
}

/// The operations text: from the fourth whitespace character on.
pub open spec fn ops_text(line: Seq<char>) -> Seq<char> {
    match nth_ws(line, 3, 0) {
        Some(i) => line.subrange(i, line.len() as int),
        None => seq![],
    }
}

/// The strings of a vector.
pub open spec fn strings(v: Seq<String>) -> Seq<Seq<char>> {
    v.map_values(|s: String| s@)
}

fn push_str(out: &mut Vec<char>, s: &str)
    ensures
        final(out)@ == old(out)@ + s@,
{
    crate::text::extend_str(out, s);
}

fn chars_to_strings(v: &Vec<Vec<char>>) -> (r: Vec<String>)
    ensures
        strings(r@) == v@.map_values(|c: Vec<char>| c@),
{
    let mut out: Vec<String> = Vec::new();
    let mut i: usize = 0;
    while i < v.len()
        invariant
            i <= v@.len(),
            out@.len() == i,
            forall|j: int| 0 <= j < i ==> #[trigger] out@[j]@ == v@[j]@,
        decreases v@.len() - i,
    {
        out.push(string_from_chars(v[i].as_slice()));
        i = i + 1;
    }
    proof {
        assert(strings(out@) =~= v@.map_values(|c: Vec<char>| c@));
    }
    out
}

fn sub_chars(s: &[char], a: usize, b: usize) -> (r: Vec<char>)
    requires
        a <= b <= s@.len(),
    ensures
        r@ == s@.subrange(a as int, b as int),
{
    let mut out: Vec<char> = Vec::new();
    let mut j = a;
    while j < b
        invariant
            a <= j <= b <= s@.len(),
            out@ == s@.subrange(a as int, j as int),
        decreases b - j,
    {
        out.push(s[j]);
        j = j + 1;
    }
    out
}

proof fn lemma_nth_ws_range(s: Seq<char>, n: int, from: int)
    ensures
        nth_ws(s, n, from) matches Some(i) ==> from <= i < s.len(),
    decreases s.len() - from,
{
    if 0 <= from < s.len() {
        lemma_nth_ws_range(s, n - 1, from + 1);
        lemma_nth_ws_range(s, n, from + 1);
    }
}

/// The index of the `n`-th whitespace character at or after `from`.
fn find_nth_ws(s: &[char], n: usize, from: usize) -> (r: Option<usize>)
    ensures
        r matches Some(i) ==> nth_ws(s@, n as int, from as int) == Some(i as int) && i < s@.len(),
        r is None ==> nth_ws(s@, n as int, from as int) is None,
{
    proof {
        lemma_nth_ws_range(s@, n as int, from as int);
    }
    let mut k = n;
    let mut i = from;
    while i < s.len()
        invariant
            nth_ws(s@, n as int, from as int) == nth_ws(s@, k as int, i as int),
        decreases s@.len() - i,
    {
        if crate::text::char_is_ws(s[i]) {
            if k == 0 {
                return Some(i);
            }
            k = k - 1;
        }
        i = i + 1;
    }
    None
}


/// The code and value of one (trimmed) operation.
fn split_op(op: &[char]) -> (r: (Vec<char>, Vec<char>))
    ensures
        r.0@ == op_code(op@),
        r.1@ == op_value(op@),
{
    match find_nth_ws(op, 0, 0) {
        Some(i) => {
            assert(i < op.len());
            let code = sub_chars(op, 0, i);
            let rest = sub_chars(op, i + 1, op.len());
            (code, crate::text::trim_chars(rest.as_slice()))
        },
        None => {
            let all = sub_chars(op, 0, op.len());
            assert(all@ =~= op@);
            (all, Vec::new())
        },
    }
}

fn eq_lit(a: &[char], b: &str) -> (r: bool)
    ensures
        r == (a@ == b@),
{
    crate::text::chars_eq_str(a, b)
}

/// The result of reading an EPD line.
pub open spec fn epd_ok(line: Seq<char>, e: Epd) -> bool {
    let t = trim(line);
    let toks = split_ws(t);
    let ops = split_on(ops_text(t), ';');
    let (bm, am, id) = ops_fold(ops, ops.len() as int);
    &&& e.fen@ == epd_fen(toks)
    &&& strings(e.best_moves@) == bm
    &&& strings(e.avoid_moves@) == am
    &&& match id {
        Some(v) => e.id is Some && e.id->0@ == v,
        None => e.id is None,
    }
}

/// Why a line is no EPD record, as the message `msg` says: it is empty, it
/// has fewer than four position fields, or its position is no FEN (with
/// the message [`fen_error`] gives for it).
pub open spec fn epd_refusal(line: Seq<char>, msg: Seq<char>) -> bool {
    let t = trim(line);
    let toks = split_ws(t);
    if t.len() == 0 {
        msg == "empty EPD"@
    } else if toks.len() < 4 {
        msg == "EPD needs at least 4 position fields"@
    } else {
        parse_fen(epd_fen(toks)) is None && msg == fen_error(epd_fen(toks))
    }
}

impl Epd {
    /// Parse one EPD line: at least four position fields (completed with
    /// clocks `0 1` and validated as a FEN), then the `;`-separated
    /// operations from the fourth whitespace on, keeping the last `bm`,
    /// `am`, and `id`.
    pub fn parse(line: &str) -> (r: Result<Epd, String>)
        ensures
            ({
                let t = trim(line@);
                let toks = split_ws(t);
                match r {
                    Ok(e) => t.len() > 0 && toks.len() >= 4 && parse_fen(epd_fen(toks)) is Some && epd_ok(line@, e),
                    Err(msg) => epd_refusal(line@, msg@),
                }
            }),
    {
        let raw = str_chars(line);
        let t = crate::text::trim_chars(raw.as_slice());
        if t.len() == 0 {
            return Err(str_string("empty EPD"));
        }
        let toks = crate::text::split_whitespace(t.as_slice());
        if toks.len() < 4 {
            return Err(str_string("EPD needs at least 4 position fields"));
        }
        let mut fen_chars: Vec<char> = Vec::new();
        crate::text::extend_chars(&mut fen_chars, toks[0].as_slice());
        fen_chars.push(' ');
        crate::text::extend_chars(&mut fen_chars, toks[1].as_slice());
        fen_chars.push(' ');
        crate::text::extend_chars(&mut fen_chars, toks[2].as_slice());
        fen_chars.push(' ');
        crate::text::extend_chars(&mut fen_chars, toks[3].as_slice());
        push_str(&mut fen_chars, " 0 1");
        assert(fen_chars@ =~= epd_fen(split_ws(t@)));
        let fen = string_from_chars(fen_chars.as_slice());
        match Board::from_fen(fen.as_str()) {
            Ok(_) => {},
            Err(e) => {
                return Err(e);
            },
        }
        let ops_text_v = match find_nth_ws(t.as_slice(), 3, 0) {
            Some(i) => sub_chars(t.as_slice(), i, t.len()),
            None => Vec::new(),
        };
        assert(ops_text_v@ =~= ops_text(t@));
        let ops = crate::text::split_char(ops_text_v.as_slice(), ';');
        let ghost ov = split_on(ops_text(t@), ';');
        let mut best: Vec<Vec<char>> = Vec::new();
        let mut avoid: Vec<Vec<char>> = Vec::new();
        let mut id: Option<Vec<char>> = None;
        let mut i: usize = 0;
        proof {
            assert(best@.map_values(|c: Vec<char>| c@) =~= Seq::<Seq<char>>::empty());
            assert(avoid@.map_values(|c: Vec<char>| c@) =~= Seq::<Seq<char>>::empty());
        }
        while i < ops.len()
            invariant
                i <= ops@.len(),
                ops@.len() == ov.len(),
                forall|j: int| 0 <= j < ops@.len() ==> #[trigger] ops@[j]@ == ov[j],
                ({
                    let (bm, am, idv) = ops_fold(ov, i as int);
                    &&& best@.map_values(|c: Vec<char>| c@) == bm
                    &&& avoid@.map_values(|c: Vec<char>| c@) == am
                    &&& match idv {
                        Some(v) => id is Some && id->0@ == v,
                        None => id is None,
                    }
                }),
            decreases ops@.len() - i,
        {
            let op = crate::text::trim_chars(ops[i].as_slice());
            proof {
                assert(ops@[i as int]@ == ov[i as int]);
            }
            if op.len() > 0 {
                let (code, value) = split_op(op.as_slice());
                if eq_lit(code.as_slice(), "bm") {
                    best = crate::text::split_whitespace(value.as_slice());
                    assert(best@.map_values(|c: Vec<char>| c@) =~= split_ws(value@));
                } else if eq_lit(code.as_slice(), "am") {
                    avoid = crate::text::split_whitespace(value.as_slice());
                    assert(avoid@.map_values(|c: Vec<char>| c@) =~= split_ws(value@));
                } else if eq_lit(code.as_slice(), "id") {
                    let v1 = crate::pgn::strip_start_chars(value.as_slice(), '"');
                    let v2 = crate::pgn::strip_end_chars(v1.as_slice(), '"');
                    id = Some(v2);
                }
            }
            i = i + 1;
        }
        let id_s = match id {
            Some(v) => Some(string_from_chars(v.as_slice())),
            None => None,
        };
        let e = Epd {
            fen,
            best_moves: chars_to_strings(&best),
            avoid_moves: chars_to_strings(&avoid),
            id: id_s,
        };
        Ok(e)
    }
}


/// A check or mate mark or an annotation glyph.
pub open spec fn mark(c: char) -> bool {
    c == '+' || c == '#' || c == '!' || c == '?'
}

/// `s` without its mark characters.
pub open spec fn unmarked(s: Seq<char>) -> Seq<char>
    decreases s.len(),
{
    if s.len() == 0 {
        seq![]
    } else {
        unmarked(s.drop_last()) + if mark(s.last()) {
            seq![]
        } else {
            seq![s.last()]
        }
    }
}

/// SAN as EPD compares it: trimmed, without check marks and glyphs.
pub open spec fn epd_norm(s: Seq<char>) -> Seq<char> {
    unmarked(trim(s))
}

/// Drop check/mate marks and annotation glyphs for comparison.
fn normalize(san: &str) -> (r: Vec<char>)
    ensures
        r@ == epd_norm(san@),
{
    let raw = str_chars(san);
    let t = crate::text::trim_chars(raw.as_slice());
    let mut out: Vec<char> = Vec::new();
    let mut i: usize = 0;
    while i < t.len()
        invariant
            i <= t@.len(),
            out@ == unmarked(t@.subrange(0, i as int)),
        decreases t@.len() - i,
    {
        let c = t[i];
        if !(c == '+' || c == '#' || c == '!' || c == '?') {
            out.push(c);
        }
        proof {
            let sub = t@.subrange(0, i as int + 1);
            assert(sub.drop_last() =~= t@.subrange(0, i as int));
        }
        i = i + 1;
    }
    proof {
        assert(t@.subrange(0, t@.len() as int) =~= t@);
    }
    out
}

/// Some entry of `list` equals `san` once both are normalized.
fn any_matches(list: &Vec<String>, norm: &Vec<char>) -> (r: bool)
    ensures
        r == exists|j: int| 0 <= j < list@.len() && epd_norm(#[trigger] list@[j]@) == norm@,
{
    let mut i: usize = 0;
    while i < list.len()
        invariant
            i <= list@.len(),
            forall|j: int| 0 <= j < i ==> epd_norm(#[trigger] list@[j]@) != norm@,
        decreases list@.len() - i,
    {
        let n = normalize(list[i].as_str());
        if crate::text::chars_eq(n.as_slice(), norm.as_slice()) {
            return true;
        }
        i = i + 1;
    }
    false
}

impl Epd {
    /// The SAN move `san` satisfies the record: it is a best move (any move
    /// is, without `bm`) and not a move to avoid.
    pub open spec fn accepts_spec(&self, san: Seq<char>) -> bool {
        let norm = epd_norm(san);
        &&& (self.best_moves@.len() == 0 || exists|j: int| 0 <= j < self.best_moves@.len() && epd_norm(#[trigger] self.best_moves@[j]@) == norm)
        &&& !exists|j: int| 0 <= j < self.avoid_moves@.len() && epd_norm(#[trigger] self.avoid_moves@[j]@) == norm
    }

    /// `true` if the SAN move `san` satisfies this record.
    pub fn accepts(&self, san: &str) -> (r: bool)
        ensures
            r == self.accepts_spec(san@),
    {
        let norm = normalize(san);
        let in_best = self.best_moves.len() == 0 || any_matches(&self.best_moves, &norm);
        let in_avoid = any_matches(&self.avoid_moves, &norm);
        in_best && !in_avoid
    }

    /// Search the position `depth` plies deep and say whether the move
    /// chosen satisfies the record: `(passed, chosen SAN)`, or
    /// `(false, "")` when no move comes back (or the position's en-passant
    /// square is occupied).
    pub fn solve(&self, depth: i32) -> (r: (bool, String))
        requires
            parse_fen(self.fen@) is Some,
            depth <= 46340,
        ensures
            r.1@.len() > 0 ==> r.0 == self.accepts_spec(r.1@),
            r.1@.len() == 0 ==> !r.0,
            ep_sane(parse_fen(self.fen@)->0) && r.1@.len() > 0 ==> exists|m: Move| crate::movegen::legal(parse_fen(self.fen@)->0, m)
                && r.1@ == san_text(parse_fen(self.fen@)->0, m),
            ep_sane(parse_fen(self.fen@)->0) && depth >= 1 && some_legal(parse_fen(self.fen@)->0) ==> r.1@.len() > 0,
            !some_legal(parse_fen(self.fen@)->0) ==> !r.0 && r.1@.len() == 0,
    {
        let mut board = match Board::from_fen(self.fen.as_str()) {
            Ok(b) => b,
            Err(_) => {
                return (false, String::new());
            },
        };
        if !ep_is_sane(&board) {
            return (false, String::new());
        }
        let ghost p = board.pos();
        let res = search(&mut board, SearchLimits::depth(depth));
        match res.best_move {
            Some(mv) => {
                let san = move_to_san(&board, mv);
                proof {
                    crate::san::lemma_san_nonempty(p, mv);
                }
                (self.accepts(san.as_str()), san)
            },
            None => (false, String::new()),
        }
    }
}

/// A line that holds a record: not blank and not a `#` comment.
pub open spec fn record_line(l: Seq<char>) -> bool {
    trim(l).len() > 0 && trim(l)[0] != '#'
}

/// The record lines among the first `n` lines.
pub open spec fn record_lines(lines: Seq<Seq<char>>, n: int) -> Seq<Seq<char>>
    decreases n,
{
    if n <= 0 {
        seq![]
    } else if record_line(lines[n - 1]) {
        record_lines(lines, n - 1).push(lines[n - 1])
    } else {
        record_lines(lines, n - 1)
    }
}

/// Parse an EPD suite: one record per line, skipping blank lines and `#`
/// comments; the first bad record fails the whole suite, with its error.
pub fn parse_suite(text: &str) -> (r: Result<Vec<Epd>, String>)
    ensures
        ({
            let lines = split_on(text@, '\n');
            let kept = record_lines(lines, lines.len() as int);
            match r {
                Ok(v) => v@.len() == kept.len() && forall|i: int| 0 <= i < v@.len() ==> epd_ok(kept[i], #[trigger] v@[i]),
                Err(e) => exists|i: int|
                    0 <= i < kept.len() && (forall|j: int| 0 <= j < i ==> epd_line_ok(#[trigger] kept[j]))
                        && !epd_line_ok(#[trigger] kept[i]) && epd_refusal(kept[i], e@),
            }
        }),
{
    let chars = str_chars(text);
    let lines = crate::text::split_char(chars.as_slice(), '\n');
    let ghost lv = split_on(text@, '\n');
    let mut out: Vec<Epd> = Vec::new();
    let mut i: usize = 0;
    while i < lines.len()
        invariant
            i <= lines@.len(),
            lv == split_on(text@, '\n'),
            lines@.len() == lv.len(),
            forall|j: int| 0 <= j < lines@.len() ==> #[trigger] lines@[j]@ == lv[j],
            out@.len() == record_lines(lv, i as int).len(),
            forall|k: int| 0 <= k < out@.len() ==> epd_ok(record_lines(lv, i as int)[k], #[trigger] out@[k]),
            forall|k: int| 0 <= k < out@.len() ==> epd_line_ok(#[trigger] record_lines(lv, i as int)[k]),
        decreases lines@.len() - i,
    {
        let raw = lines[i].as_slice();
        let l = crate::text::trim_chars(raw);
        proof {
            assert(lines@[i as int]@ == lv[i as int]);
        }
        if l.len() > 0 && l[0] != '#' {
            let s = string_from_chars(raw);
            match Epd::parse(s.as_str()) {
                Ok(e) => {
                    out.push(e);
                    proof {
                        let kept = record_lines(lv, i as int + 1);
                        assert(kept == record_lines(lv, i as int).push(lv[i as int]));
                        assert forall|k: int| 0 <= k < out@.len() implies epd_ok(kept[k], #[trigger] out@[k]) by {
                            if k < out@.len() - 1 {
                                assert(kept[k] == record_lines(lv, i as int)[k]);
                            }
                        }
                        assert forall|k: int| 0 <= k < out@.len() implies epd_line_ok(#[trigger] kept[k]) by {
                            if k < out@.len() - 1 {
                                assert(kept[k] == record_lines(lv, i as int)[k]);
                            } else {
                                assert(s@ == lv[i as int]);
                            }
                        }
                    }
                },
                Err(e) => {
                    proof {
                        lemma_record_lines_grow(lv, i as int + 1, lv.len() as int);
                        let kept = record_lines(lv, lv.len() as int);
                        let k = record_lines(lv, i as int).len() as int;
                        assert(record_lines(lv, i as int + 1)[k] == lv[i as int]);
                        assert(kept[k] == lv[i as int]);
                        assert(record_line(lv[i as int]));
                        assert(s@ == lv[i as int]);
                        assert(!epd_line_ok(kept[k]));
                        assert(0 <= k < kept.len());
                        assert forall|j: int| 0 <= j < k implies epd_line_ok(#[trigger] kept[j]) by {
                            assert(kept[j] == record_lines(lv, i as int)[j]);
                        }
                        assert(epd_refusal(kept[k], e@));
                    }
                    return Err(e);
                },
            }
        }
        i = i + 1;
    }
    Ok(out)
}

/// Record lines found early stay where they are as more lines are read.
proof fn lemma_record_lines_grow(lines: Seq<Seq<char>>, a: int, b: int)
    requires
        0 <= a <= b <= lines.len(),
    ensures
        record_lines(lines, a).len() <= record_lines(lines, b).len(),
        forall|k: int| 0 <= k < record_lines(lines, a).len() ==> #[trigger] record_lines(lines, b)[k] == record_lines(lines, a)[k],
    decreases b - a,
{
    if a < b {
        lemma_record_lines_grow(lines, a, b - 1);
    }
}

/// A line parses as an EPD record.
pub open spec fn epd_line_ok(line: Seq<char>) -> bool {
    let t = trim(line);
    t.len() > 0 && split_ws(t).len() >= 4 && parse_fen(epd_fen(split_ws(t))) is Some
}

} // verus!
