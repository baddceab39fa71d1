//! The UCI (Universal Chess Interface) protocol spoken by chess GUIs.
//!
//! Supported commands: `uci`, `isready`, `ucinewgame`, `position`, `go`
//! (`depth`, `movetime`, `wtime/btime/winc/binc/movestogo`, `infinite`), `d`
//! (debug print), and `quit`; anything else is ignored. [`UciEngine::handle_line`]
//! takes one command line and appends its replies, as UTF-8 bytes, to a
//! buffer, which keeps the protocol free of real I/O.

use crate::board::fen::{ascii_text, fen_text, parse_fen, start_pos};
use crate::board::{Board, Pos};
use crate::book::join_fields;
use crate::movegen::{ep_is_sane, ep_sane, legal, legal_moves, lemma_legal_sane, lemma_pos_after_prefix, pos_after};
use crate::movegen::named::{first_named, lemma_first_named, named_legal};
use crate::moves::{parse_uci_trimmed, uci_text, Move, MoveList};
use crate::search::{search_outcome, SearchLimits, SearchResult, Searcher};
use crate::text::{
    chars_eq_str, extend_chars, hex_char, hex_digit, extend_str, parse_i32, parse_i32_spec, parse_uint, parse_unsigned, split_whitespace,
    split_ws, str_chars, string_from_chars, trim,
};
use crate::timeman::TimeControl;
use vstd::prelude::*;
use vstd::utf8::encode_utf8;

verus! {

/// Appends the UTF-8 bytes of `s` to `out`.
fn emit(out: &mut Vec<u8>, s: &str)
    ensures
        final(out)@ == old(out)@ + encode_utf8(s@),
{
    let ghost o = out@;
    let b = s.as_bytes();
    out.extend_from_slice(b);
    assert(out@ =~= o + encode_utf8(s@));
}

/// Appends the UTF-8 bytes of the characters `c` to `out`.
fn emit_chars(out: &mut Vec<u8>, c: &[char])
    ensures
        final(out)@ == old(out)@ + encode_utf8(c@),
{
    let s = string_from_chars(c);
    emit(out, s.as_str());
}

/// The reply to `uci`: the engine's name and author, then `uciok`.
pub open spec fn id_text() -> Seq<char> {
    "id name RustChess\n"@ + "id author Rust Chess Engine\n"@ + "uciok\n"@
}

/// The last `n` hexadecimal digits of `k`, leading zeros included.
pub open spec fn hex_digits(k: nat, n: nat) -> Seq<char>
    decreases n,
{
    if n == 0 {
        seq![]
    } else {
        hex_digits(k / 16, (n - 1) as nat).push(hex_char((k % 16) as int))
    }
}

/// The reply to `d`: the board picture, its FEN, and its key as sixteen
/// hexadecimal digits.
pub open spec fn print_text(b: Board) -> Seq<char> {
    ascii_text(b.cells@) + "fen: "@ + fen_text(b.pos()) + "\n"@ + "key: "@ + hex_digits(b.key as nat, 16)
        + "\n"@
}

/// The `info` lines, one per line.
pub open spec fn info_lines(infos: Seq<String>) -> Seq<char>
    decreases infos.len(),
{
    if infos.len() == 0 {
        seq![]
    } else {
        info_lines(infos.drop_last()) + infos.last()@ + "\n"@
    }
}

/// The reply to `go`: `bestmove` with the best move, or `0000` when there
/// is none.
pub open spec fn go_reply_text(res: SearchResult) -> Seq<char> {
    "bestmove "@ + match res.best_move {
        Some(m) => uci_text(m),
        None => "0000"@,
    } + "\n"@
}

/// The options of a `go` command.
#[derive(Clone, Copy, Debug)]
pub struct GoParams {
    /// Depth ceiling in plies.
    pub depth: i32,
    /// A fixed time for the move.
    pub movetime: Option<u64>,
    /// White's and Black's clocks.
    pub wtime: Option<u64>,
    pub btime: Option<u64>,
    /// White's and Black's increments.
    pub winc: u64,
    pub binc: u64,
    /// Moves until the next time control.
    pub movestogo: Option<u32>,
    /// Search until told to stop.
    pub infinite: bool,
}

/// The options before any are read.
pub open spec fn go_start() -> GoParams {
    GoParams {
        depth: 64,
        movetime: None,
        wtime: None,
        btime: None,
        winc: 0,
        binc: 0,
        movestogo: None,
        infinite: false,
    }
}

/// Token `i` read as a `u64`, when there is one and it reads so.
pub open spec fn u64_arg(toks: Seq<Seq<char>>, i: int) -> Option<u64> {
    if 0 <= i < toks.len() {
        match parse_unsigned(toks[i], u64::MAX as nat) {
            Some(v) => Some(v as u64),
            None => None,
        }
    } else {
        None
    }
}

/// Token `i` read as a `u32`.
pub open spec fn u32_arg(toks: Seq<Seq<char>>, i: int) -> Option<u32> {
    if 0 <= i < toks.len() {
        match parse_unsigned(toks[i], u32::MAX as nat) {
            Some(v) => Some(v as u32),
            None => None,
        }
    } else {
        None
    }
}

/// Token `i` read as an `i32`.
pub open spec fn i32_arg(toks: Seq<Seq<char>>, i: int) -> Option<i32> {
    if 0 <= i < toks.len() {
        match parse_i32_spec(toks[i]) {
            Some(v) => Some(v as i32),
            None => None,
        }
    } else {
        None
    }
}

/// Reads the `go` options from token `i` on: each keyword takes the next
/// token as its value (`depth` keeps the old one when that does not read as
/// a number; the others are then unset, or 0 for the increments),
/// `infinite` takes none, and other tokens are skipped.
pub open spec fn go_scan(toks: Seq<Seq<char>>, i: int, g: GoParams) -> GoParams
    decreases toks.len() + 1 - i,
{
    if i < 0 || i >= toks.len() {
        g
    } else {
        let t = toks[i];
        if t == "depth"@ {
            go_scan(toks, i + 2, match i32_arg(toks, i + 1) {
                Some(d) => GoParams { depth: d, ..g },
                None => g,
            })
        } else if t == "movetime"@ {
            go_scan(toks, i + 2, GoParams { movetime: u64_arg(toks, i + 1), ..g })
        } else if t == "wtime"@ {
            go_scan(toks, i + 2, GoParams { wtime: u64_arg(toks, i + 1), ..g })
        } else if t == "btime"@ {
            go_scan(toks, i + 2, GoParams { btime: u64_arg(toks, i + 1), ..g })
        } else if t == "winc"@ {
            go_scan(toks, i + 2, GoParams {
                winc: match u64_arg(toks, i + 1) {
                    Some(v) => v,
                    None => 0,
                },
                ..g
            })
        } else if t == "binc"@ {
            go_scan(toks, i + 2, GoParams {
                binc: match u64_arg(toks, i + 1) {
                    Some(v) => v,
                    None => 0,
                },
                ..g
            })
        } else if t == "movestogo"@ {
            go_scan(toks, i + 2, GoParams { movestogo: u32_arg(toks, i + 1), ..g })
        } else if t == "infinite"@ {
            go_scan(toks, i + 1, GoParams { infinite: true, ..g })
        } else {
            go_scan(toks, i + 1, g)
        }
    }
}

/// The options of the `go` command `toks`.
pub open spec fn go_params(toks: Seq<Seq<char>>) -> GoParams {
    go_scan(toks, 1, go_start())
}

/// The clock of the side to move, when the time is to come from a clock.
pub open spec fn go_clock(g: GoParams, white: bool) -> TimeControl {
    TimeControl {
        time_left_ms: if white {
            match g.wtime {
                Some(t) => t,
                None => 0,
            }
        } else {
            match g.btime {
                Some(t) => t,
                None => 0,
            }
        },
        increment_ms: if white {
            g.winc
        } else {
            g.binc
        },
        moves_to_go: g.movestogo,
    }
}

/// The clock of the side to move was given.
pub open spec fn clock_given(g: GoParams, white: bool) -> bool {
    if white {
        g.wtime is Some
    } else {
        g.btime is Some
    }
}

/// The time comes from the clock: no fixed time and no `infinite`.
pub open spec fn from_clock(g: GoParams) -> bool {
    g.movetime is None && !g.infinite
}

/// The search limits of `go` options with `white` to move: the depth (at
/// most 46340 plies), and the fixed time; or else, unless `infinite`, the
/// clock's budget, or two seconds without a clock.
pub open spec fn go_limits_spec(g: GoParams, white: bool) -> SearchLimits {
    SearchLimits {
        max_depth: if g.depth > 46340 {
            46340
        } else {
            g.depth
        },
        movetime_ms: if !from_clock(g) {
            g.movetime
        } else if clock_given(g, white) {
            Some(go_clock(g, white).budget_spec() as u64)
        } else {
            Some(2000)
        },
        verbose: true,
    }
}

/// The budget of a clock, when one is used, can be computed in 64 bits.
pub open spec fn go_fits(g: GoParams, white: bool) -> bool {
    from_clock(g) && clock_given(g, white) ==> go_clock(g, white).fits()
}

/// The number of tokens from `i` on before `moves` or the end.
pub open spec fn fen_count(toks: Seq<Seq<char>>, i: int) -> int
    decreases toks.len() - i,
{
    if i < 0 || i >= toks.len() || toks[i] == "moves"@ {
        0
    } else {
        1 + fen_count(toks, i + 1)
    }
}

/// Token `i` is `w`.
pub open spec fn word_at(toks: Seq<Seq<char>>, i: int, w: Seq<char>) -> bool {
    0 <= i < toks.len() && toks[i] == w
}

/// The FEN of `position fen ...`: the tokens after `fen` up to `moves`,
/// joined by spaces.
pub open spec fn position_fen(toks: Seq<Seq<char>>) -> Seq<char> {
    join_fields(toks.subrange(2, toks.len() as int), fen_count(toks, 2))
}

/// Where a `moves` keyword may stand in the `position` command `toks`.
pub open spec fn moves_at(toks: Seq<Seq<char>>) -> int {
    if word_at(toks, 1, "startpos"@) {
        2
    } else if word_at(toks, 1, "fen"@) {
        2 + fen_count(toks, 2)
    } else {
        1
    }
}

/// The move tokens of the `position` command `toks`.
pub open spec fn move_words(toks: Seq<Seq<char>>) -> Seq<Seq<char>> {
    let k = moves_at(toks);
    if word_at(toks, k, "moves"@) {
        toks.subrange(k + 1, toks.len() as int)
    } else {
        seq![]
    }
}

/// The position the `position` command `toks` sets up before its moves:
/// the standard one for `startpos`, the FEN's for `fen` when it parses with
/// an empty en-passant square, and none (the board is kept) otherwise.
pub open spec fn position_base(toks: Seq<Seq<char>>) -> Option<Pos> {
    if word_at(toks, 1, "startpos"@) {
        Some(start_pos())
    } else if word_at(toks, 1, "fen"@) {
        match parse_fen(position_fen(toks)) {
            Some(q) => if ep_sane(q) {
                Some(q)
            } else {
                None
            },
            None => None,
        }
    } else {
        None
    }
}

/// The moves played from `p` for the tokens `words`: each token that names
/// a move legal in the position reached (a promotion letter standing for
/// the mover's piece) is played, the others are skipped.
pub open spec fn uci_line(p: Pos, words: Seq<Seq<char>>) -> Seq<Move>
    decreases words.len(),
{
    if words.len() == 0 {
        seq![]
    } else {
        let ms = uci_line(p, words.drop_last());
        let q = pos_after(p, ms, ms.len() as int);
        match parse_uci_trimmed(trim(words.last())) {
            Some(t) => match named_legal(q, t) {
                Some(m) => ms.push(m),
                None => ms,
            },
            None => ms,
        }
    }
}

/// A command line the engine can take with `white` to move: a clock
/// budget for `go` fits in 64 bits.
pub open spec fn command_ok(toks: Seq<Seq<char>>, white: bool) -> bool {
    word_at(toks, 0, "go"@) ==> go_fits(go_params(toks), white)
}

/// The commands the engine acts on.
pub open spec fn known_command(w: Seq<char>) -> bool {
    w == "uci"@ || w == "isready"@ || w == "ucinewgame"@ || w == "position"@ || w == "go"@ || w == "d"@ || w
        == "print"@ || w == "quit"@
}

/// Appends the last `n` hexadecimal digits of `k`.
fn push_hex(out: &mut Vec<char>, k: u64, n: usize)
    ensures
        final(out)@ == old(out)@ + hex_digits(k as nat, n as nat),
    decreases n,
{
    if n > 0 {
        push_hex(out, k / 16, n - 1);
        out.push(hex_digit(k % 16));
    }
}

/// Reads token `i` as a `u64`.
fn arg_u64(toks: &Vec<Vec<char>>, i: usize, Ghost(tv): Ghost<Seq<Seq<char>>>) -> (r: Option<u64>)
    requires
        toks@.len() == tv.len(),
        forall|j: int| 0 <= j < tv.len() ==> #[trigger] toks@[j]@ == tv[j],
    ensures
        r == u64_arg(tv, i as int),
{
    if i < toks.len() {
        let r = parse_uint(toks[i].as_slice(), u64::MAX);
        proof {
            assert(toks@[i as int]@ == tv[i as int]);
        }
        r
    } else {
        None
    }
}

/// Reads token `i` as a `u32`.
fn arg_u32(toks: &Vec<Vec<char>>, i: usize, Ghost(tv): Ghost<Seq<Seq<char>>>) -> (r: Option<u32>)
    requires
        toks@.len() == tv.len(),
        forall|j: int| 0 <= j < tv.len() ==> #[trigger] toks@[j]@ == tv[j],
    ensures
        r == u32_arg(tv, i as int),
{
    if i < toks.len() {
        proof {
            assert(toks@[i as int]@ == tv[i as int]);
        }
        match parse_uint(toks[i].as_slice(), u32::MAX as u64) {
            Some(v) => Some(v as u32),
            None => None,
        }
    } else {
        None
    }
}

/// Reads token `i` as an `i32`.
fn arg_i32(toks: &Vec<Vec<char>>, i: usize, Ghost(tv): Ghost<Seq<Seq<char>>>) -> (r: Option<i32>)
    requires
        toks@.len() == tv.len(),
        forall|j: int| 0 <= j < tv.len() ==> #[trigger] toks@[j]@ == tv[j],
    ensures
        r == i32_arg(tv, i as int),
{
    if i < toks.len() {
        proof {
            assert(toks@[i as int]@ == tv[i as int]);
        }
        parse_i32(toks[i].as_slice())
    } else {
        None
    }
}

/// `true` if token `i` is `w`.
fn is_word(toks: &Vec<Vec<char>>, i: usize, w: &str, Ghost(tv): Ghost<Seq<Seq<char>>>) -> (r: bool)
    requires
        toks@.len() == tv.len(),
        forall|j: int| 0 <= j < tv.len() ==> #[trigger] toks@[j]@ == tv[j],
    ensures
        r == word_at(tv, i as int, w@),
{
    if i < toks.len() {
        proof {
            assert(toks@[i as int]@ == tv[i as int]);
        }
        chars_eq_str(toks[i].as_slice(), w)
    } else {
        false
    }
}

/// `i + 2`, or `n` when that passes `n`.
fn skip_two(i: usize, n: usize) -> (r: usize)
    requires
        i < n,
    ensures
        r == (if i + 2 <= n {
            i + 2
        } else {
            n as int
        }),
{
    if i + 1 < n {
        i + 2
    } else {
        n
    }
}

/// Past the end, the scan reads nothing more.
proof fn lemma_go_scan_end(toks: Seq<Seq<char>>, i: int, g: GoParams)
    requires
        i >= toks.len(),
    ensures
        go_scan(toks, i, g) == g,
{
}

/// The options of the `go` command `toks`.
pub fn parse_go(toks: &Vec<Vec<char>>, Ghost(tv): Ghost<Seq<Seq<char>>>) -> (g: GoParams)
    requires
        toks@.len() == tv.len(),
        forall|j: int| 0 <= j < tv.len() ==> #[trigger] toks@[j]@ == tv[j],
    ensures
        g == go_params(tv),
{
    let mut g = GoParams {
        depth: 64,
        movetime: None,
        wtime: None,
        btime: None,
        winc: 0,
        binc: 0,
        movestogo: None,
        infinite: false,
    };
    let mut i: usize = 1;
    while i < toks.len()
        invariant
            1 <= i <= toks@.len() + 1,
            toks@.len() == tv.len(),
            forall|j: int| 0 <= j < tv.len() ==> #[trigger] toks@[j]@ == tv[j],
            go_scan(tv, i as int, g) == go_params(tv),
        decreases toks@.len() + 1 - i,
    {
        proof {
            assert(toks@[i as int]@ == tv[i as int]);
        }
        let ghost i0 = i as int;
        let t = toks[i].as_slice();
        if chars_eq_str(t, "depth") {
            match arg_i32(toks, i + 1, Ghost(tv)) {
                Some(d) => {
                    g.depth = d;
                },
                None => {},
            }
            i = skip_two(i, toks.len());
        } else if chars_eq_str(t, "movetime") {
            g.movetime = arg_u64(toks, i + 1, Ghost(tv));
            i = skip_two(i, toks.len());
        } else if chars_eq_str(t, "wtime") {
            g.wtime = arg_u64(toks, i + 1, Ghost(tv));
            i = skip_two(i, toks.len());
        } else if chars_eq_str(t, "btime") {
            g.btime = arg_u64(toks, i + 1, Ghost(tv));
            i = skip_two(i, toks.len());
        } else if chars_eq_str(t, "winc") {
            g.winc = match arg_u64(toks, i + 1, Ghost(tv)) {
                Some(v) => v,
                None => 0,
            };
            i = skip_two(i, toks.len());
        } else if chars_eq_str(t, "binc") {
            g.binc = match arg_u64(toks, i + 1, Ghost(tv)) {
                Some(v) => v,
                None => 0,
            };
            i = skip_two(i, toks.len());
        } else if chars_eq_str(t, "movestogo") {
            g.movestogo = arg_u32(toks, i + 1, Ghost(tv));
            i = skip_two(i, toks.len());
        } else if chars_eq_str(t, "infinite") {
            g.infinite = true;
            i = i + 1;
        } else {
            i = i + 1;
        }
        proof {
            if i0 + 2 > tv.len() {
                lemma_go_scan_end(tv, i0 + 2, g);
                lemma_go_scan_end(tv, i as int, g);
            }
        }
    }
    g
}

/// The clock of the side to move.
fn clock_of(g: &GoParams, white: bool) -> (tc: TimeControl)
    ensures
        tc == go_clock(*g, white),
{
    TimeControl {
        time_left_ms: if white {
            match g.wtime {
                Some(t) => t,
                None => 0,
            }
        } else {
            match g.btime {
                Some(t) => t,
                None => 0,
            }
        },
        increment_ms: if white {
            g.winc
        } else {
            g.binc
        },
        moves_to_go: g.movestogo,
    }
}

/// The search limits of `go` options with `white` to move (see
/// [`go_limits_spec`]).
pub fn go_limits(g: &GoParams, white: bool) -> (l: SearchLimits)
    requires
        go_fits(*g, white),
    ensures
        l == go_limits_spec(*g, white),
{
    let depth = if g.depth > 46340 {
        46340
    } else {
        g.depth
    };
    let clock_given = if white {
        g.wtime.is_some()
    } else {
        g.btime.is_some()
    };
    let movetime = if g.movetime.is_some() || g.infinite {
        g.movetime
    } else if clock_given {
        let tc = clock_of(g, white);
        Some(tc.budget_ms())
    } else {
        Some(2000)
    };
    SearchLimits { max_depth: depth, movetime_ms: movetime, verbose: true }
}

/// Appends the reply to `go` for the search result `res` to `out`, and
/// its `info` lines to `info`.
pub fn write_go_reply(res: &SearchResult, out: &mut Vec<u8>, info: &mut Vec<u8>)
    ensures
        final(out)@ == old(out)@ + encode_utf8(go_reply_text(*res)),
        final(info)@ == old(info)@ + encode_utf8(info_lines(res.info@)),
{
    let mut text: Vec<char> = Vec::new();
    let mut i: usize = 0;
    while i < res.info.len()
        invariant
            i <= res.info@.len(),
            text@ == info_lines(res.info@.subrange(0, i as int)),
        decreases res.info@.len() - i,
    {
        extend_str(&mut text, res.info[i].as_str());
        text.push('\n');
        proof {
            let sub = res.info@.subrange(0, i as int + 1);
            assert(sub.drop_last() =~= res.info@.subrange(0, i as int));
            reveal_strlit("\n");
            assert(text@ =~= info_lines(sub));
        }
        i = i + 1;
    }
    proof {
        assert(res.info@.subrange(0, res.info@.len() as int) =~= res.info@);
    }
    emit_chars(info, text.as_slice());
    let mut text: Vec<char> = Vec::new();
    extend_str(&mut text, "bestmove ");
    match res.best_move {
        Some(m) => {
            m.push_uci(&mut text);
        },
        None => {
            extend_str(&mut text, "0000");
        },
    }
    extend_str(&mut text, "\n");
    assert(text@ =~= go_reply_text(*res));
    emit_chars(out, text.as_slice());
}

/// The legal move that `tok` names in the position of `board`, if any.
fn legal_uci_move(board: &mut Board, tok: &[char]) -> (r: Option<Move>)
    requires
        old(board).wf(),
        ep_sane(old(board).pos()),
    ensures
        final(board).wf(),
        final(board).same_state(old(board)),
        r == match parse_uci_trimmed(trim(tok@)) {
            Some(q) => named_legal(old(board).pos(), q),
            None => None,
        },
        r matches Some(m) ==> legal(old(board).pos(), m),
{
    let parsed = match Move::from_uci_chars(tok) {
        Some(m) => m,
        None => {
            return None;
        },
    };
    let mut moves: MoveList = Vec::new();
    legal_moves(board, &mut moves);
    let found = first_named(&moves, parsed);
    proof {
        lemma_first_named(old(board).pos(), moves@, parsed, found);
    }
    found
}

/// The engine behind the protocol: the current position and a searcher
/// kept across commands.
pub struct UciEngine {
    board: Board,
    searcher: Searcher,
    info: Vec<u8>,
}

impl UciEngine {
    /// The engine's consistency: a valid board with an empty en-passant
    /// square and a sound searcher.
    pub closed spec fn inv(&self) -> bool {
        &&& self.board.valid()
        &&& ep_sane(self.board.pos())
        &&& self.searcher.inv()
    }

    /// The current board.
    pub closed spec fn board_view(&self) -> Board {
        self.board
    }

    /// The searcher.
    pub closed spec fn searcher_view(&self) -> Searcher {
        self.searcher
    }

    /// The `info` lines of the searches not yet taken by
    /// [`UciEngine::take_info`].
    pub closed spec fn pending_info(&self) -> Seq<u8> {
        self.info@
    }

    /// Takes the `info` lines that the searches have written so far (the
    /// front end shows them before the reply to `go`).
    pub fn take_info(&mut self) -> (r: Vec<u8>)
        ensures
            r@ == old(self).pending_info(),
            final(self).pending_info().len() == 0,
            final(self).board_view() == old(self).board_view(),
            final(self).searcher_view() == old(self).searcher_view(),
            final(self).inv() == old(self).inv(),
    {
        let mut r: Vec<u8> = Vec::new();
        std::mem::swap(&mut r, &mut self.info);
        r
    }

    /// An engine at the standard starting position.
    pub fn new() -> (e: UciEngine)
        ensures
            e.inv(),
            e.board_view().pos() == start_pos(),
            e.board_view().line().len() == 0,
    {
        UciEngine { board: Board::startpos(), searcher: Searcher::new(64), info: Vec::new() }
    }

    /// `true` when `line` is a command the engine can take (see
    /// [`command_ok`]); [`UciEngine::handle_line`] asks for it.
    pub fn accepts(&self, line: &str) -> (r: bool)
        requires
            self.inv(),
        ensures
            r == command_ok(split_ws(line@), self.board_view().pos().side_white),
    {
        let chars = str_chars(line);
        let toks = split_whitespace(chars.as_slice());
        let ghost tv = split_ws(line@);
        if is_word(&toks, 0, "go", Ghost(tv)) {
            proof {
                lemma_words_differ(tv[0]);
            }
            let g = parse_go(&toks, Ghost(tv));
            let white = self.board.side_white;
            if (g.movetime.is_none() && !g.infinite) && (if white {
                g.wtime.is_some()
            } else {
                g.btime.is_some()
            }) {
                let tc = clock_of(&g, white);
                return tc.fits_u64();
            }
            return true;
        }
        true
    }

    /// Where `moves` may stand in the `position` command `toks`, and the
    /// FEN text when the command gives one.
    fn moves_index(toks: &Vec<Vec<char>>, Ghost(tv): Ghost<Seq<Seq<char>>>) -> (r: (usize, Vec<char>))
        requires
            toks@.len() == tv.len(),
            forall|j: int| 0 <= j < tv.len() ==> #[trigger] toks@[j]@ == tv[j],
        ensures
            r.0 == moves_at(tv),
            r.0 <= tv.len() + 2,
            word_at(tv, 1, "fen"@) && !word_at(tv, 1, "startpos"@) ==> r.1@ == position_fen(tv),
    {
        if is_word(toks, 1, "startpos", Ghost(tv)) {
            return (2, Vec::new());
        }
        if !is_word(toks, 1, "fen", Ghost(tv)) {
            return (1, Vec::new());
        }
        let mut fen: Vec<char> = Vec::new();
        let mut j: usize = 2;
        let ghost rest = tv.subrange(2, tv.len() as int);
        while j < toks.len() && !chars_eq_str(toks[j].as_slice(), "moves")
            invariant
                2 <= j <= toks@.len(),
                toks@.len() == tv.len(),
                forall|i: int| 0 <= i < tv.len() ==> #[trigger] toks@[i]@ == tv[i],
                rest == tv.subrange(2, tv.len() as int),
                fen_count(tv, 2) == (j - 2) + fen_count(tv, j as int),
                fen@ == join_fields(rest, j - 2),
            decreases toks@.len() - j,
        {
            proof {
                assert(toks@[j as int]@ == tv[j as int]);
                assert(rest[j - 2] == tv[j as int]);
            }
            if j > 2 {
                fen.push(' ');
            }
            extend_chars(&mut fen, toks[j].as_slice());
            proof {
                if j == 2 {
                    assert(fen@ =~= join_fields(rest, 1));
                } else {
                    assert(fen@ =~= join_fields(rest, j - 1));
                }
            }
            j = j + 1;
        }
        proof {
            if j < toks@.len() {
                assert(toks@[j as int]@ == tv[j as int]);
            }
            assert(fen_count(tv, j as int) == 0);
        }
        (j, fen)
    }

    /// Sets up the position of the `position` command `toks` (see
    /// [`position_base`] and [`uci_line`]).
    #[verifier::rlimit(40)]
    fn handle_position(&mut self, toks: &Vec<Vec<char>>, Ghost(tv): Ghost<Seq<Seq<char>>>)
        requires
            old(self).inv(),
            toks@.len() == tv.len(),
            forall|j: int| 0 <= j < tv.len() ==> #[trigger] toks@[j]@ == tv[j],
        ensures
            final(self).inv(),
            final(self).searcher_view() == old(self).searcher_view(),
            final(self).pending_info() == old(self).pending_info(),
            ({
                let base = match position_base(tv) {
                    Some(q) => q,
                    None => old(self).board_view().pos(),
                };
                let base_line = match position_base(tv) {
                    Some(q) => seq![],
                    None => old(self).board_view().line(),
                };
                let ms = uci_line(base, move_words(tv));
                &&& final(self).board_view().pos() == pos_after(base, ms, ms.len() as int)
                &&& final(self).board_view().line() == base_line + ms
            }),
    {
        let (k, fen) = Self::moves_index(toks, Ghost(tv));
        if is_word(toks, 1, "startpos", Ghost(tv)) {
            self.board = Board::startpos();
        } else if is_word(toks, 1, "fen", Ghost(tv)) {
            let s = string_from_chars(fen.as_slice());
            match Board::from_fen(s.as_str()) {
                Ok(b) => {
                    if ep_is_sane(&b) {
                        self.board = b;
                    }
                },
                Err(_) => {},
            }
        }
        let ghost base = self.board.pos();
        let ghost base_line = self.board.line();
        proof {
            assert(base_line =~= base_line + Seq::<Move>::empty());
        }
        let n = toks.len();
        if is_word(toks, k, "moves", Ghost(tv)) {
            assert(k < n);
            let ghost words = tv.subrange(k + 1, tv.len() as int);
            let mut i = k + 1;
            proof {
                assert(words.subrange(0, 0) =~= Seq::<Seq<char>>::empty());
                assert(self.board.line() =~= base_line + uci_line(base, words.subrange(0, 0)));
            }
            while i < toks.len()
                invariant
                    k < i <= toks@.len(),
                    toks@.len() == tv.len(),
                    forall|j: int| 0 <= j < tv.len() ==> #[trigger] toks@[j]@ == tv[j],
                    words == tv.subrange(k + 1, tv.len() as int),
                    self.inv(),
                    self.searcher == old(self).searcher,
                    self.info == old(self).info,
                    ({
                        let ms = uci_line(base, words.subrange(0, i - k - 1));
                        &&& self.board.pos() == pos_after(base, ms, ms.len() as int)
                        &&& self.board.line() == base_line + ms
                    }),
                decreases toks@.len() - i,
            {
                let ghost pre = words.subrange(0, i - k - 1);
                let ghost ms = uci_line(base, pre);
                let ghost next = words.subrange(0, i - k);
                proof {
                    assert(toks@[i as int]@ == tv[i as int]);
                    assert(words[i - k - 1] == tv[i as int]);
                    assert(next.drop_last() =~= pre);
                    assert(next.last() == tv[i as int]);
                }
                match legal_uci_move(&mut self.board, toks[i].as_slice()) {
                    Some(mv) => {
                        proof {
                            lemma_legal_sane(self.board.pos(), mv);
                            lemma_pos_after_prefix(base, ms, ms.push(mv), ms.len() as int);
                            assert(uci_line(base, next) == ms.push(mv));
                            assert(pos_after(base, ms.push(mv), ms.len() + 1int) == pos_after(base, ms.push(mv), ms.len() as int).after(mv));
                        }
                        self.board.make_move_struct(mv);
                        proof {
                            assert(self.board.line() =~= base_line + ms.push(mv));
                        }
                    },
                    None => {
                        proof {
                            assert(uci_line(base, next) == ms);
                        }
                    },
                }
                i = i + 1;
            }
            proof {
                assert(words.subrange(0, words.len() as int) =~= words);
                assert(move_words(tv) == words);
            }
        } else {
            proof {
                assert(move_words(tv) =~= Seq::<Seq<char>>::empty());
            }
        }
    }

    /// Searches the current position with the limits of the `go` command
    /// `toks` and appends the reply.
    fn handle_go(&mut self, toks: &Vec<Vec<char>>, out: &mut Vec<u8>, Ghost(tv): Ghost<Seq<Seq<char>>>)
        requires
            old(self).inv(),
            toks@.len() == tv.len(),
            forall|j: int| 0 <= j < tv.len() ==> #[trigger] toks@[j]@ == tv[j],
            go_fits(go_params(tv), old(self).board_view().pos().side_white),
        ensures
            final(self).inv(),
            final(self).board_view().same_state(&old(self).board_view()),
            exists|res: SearchResult|
                search_outcome(
                    res,
                    old(self).board_view().pos(),
                    go_limits_spec(go_params(tv), old(self).board_view().pos().side_white),
                ) && final(out)@ == old(out)@ + encode_utf8(#[trigger] go_reply_text(res))
                    && final(self).pending_info() == old(self).pending_info() + encode_utf8(info_lines(res.info@)),
    {
        let ghost p0 = self.board.pos();
        let g = parse_go(toks, Ghost(tv));
        let limits = go_limits(&g, self.board.side_white);
        let res = self.searcher.think(&mut self.board, limits);
        proof {
            if res.best_move is Some {
                lemma_legal_sane(p0, res.best_move->0);
            }
        }
        write_go_reply(&res, out, &mut self.info);
    }

    /// Takes one command line and appends its replies to `out`; `false`
    /// when the engine should quit.
    ///
    /// `uci` names the engine, `isready` answers `readyok`, `ucinewgame`
    /// returns to the standard position with a searcher that has learned
    /// nothing, `position` sets up a position (see [`position_base`] and
    /// [`uci_line`]), `go` searches it and answers `bestmove` (keeping the
    /// search's `info` lines for [`UciEngine::take_info`]), `d` or
    /// `print` show the board, and `quit` stops; an empty line or an unknown
    /// command changes nothing.
    #[verifier::rlimit(40)]
    pub fn handle_line(&mut self, line: &str, out: &mut Vec<u8>) -> (r: bool)
        requires
            old(self).inv(),
            command_ok(split_ws(line@), old(self).board_view().pos().side_white),
        ensures
            final(self).inv(),
            ({
                let toks = split_ws(line@);
                let cmd = if toks.len() > 0 {
                    toks[0]
                } else {
                    seq![]
                };
                let b0 = old(self).board_view();
                &&& r == !(cmd == "quit"@)
                &&& cmd != "go"@ ==> final(self).pending_info() == old(self).pending_info()
                &&& !(cmd == "ucinewgame"@ || cmd == "position"@ || cmd == "go"@) ==> *final(self) == *old(self)
                &&& !(cmd == "uci"@ || cmd == "isready"@ || cmd == "go"@ || cmd == "d"@ || cmd == "print"@)
                    ==> final(out)@ == old(out)@
                &&& cmd == "uci"@ ==> final(out)@ == old(out)@ + encode_utf8(id_text())
                &&& cmd == "isready"@ ==> final(out)@ == old(out)@ + encode_utf8("readyok\n"@)
                &&& cmd == "d"@ || cmd == "print"@ ==> final(out)@ == old(out)@ + encode_utf8(print_text(b0))
                &&& cmd == "ucinewgame"@ ==> {
                    &&& final(self).board_view().pos() == start_pos()
                    &&& final(self).board_view().line().len() == 0
                    &&& final(self).searcher_view().learned_nothing()
                }
                &&& cmd == "position"@ ==> {
                    let base = match position_base(toks) {
                        Some(q) => q,
                        None => b0.pos(),
                    };
                    let base_line = match position_base(toks) {
                        Some(q) => seq![],
                        None => b0.line(),
                    };
                    let ms = uci_line(base, move_words(toks));
                    &&& final(self).board_view().pos() == pos_after(base, ms, ms.len() as int)
                    &&& final(self).board_view().line() == base_line + ms
                    &&& final(self).searcher_view() == old(self).searcher_view()
                }
                &&& cmd == "go"@ ==> {
                    &&& final(self).board_view().same_state(&b0)
                    &&& exists|res: SearchResult|
                        search_outcome(res, b0.pos(), go_limits_spec(go_params(toks), b0.pos().side_white))
                            && final(out)@ == old(out)@ + encode_utf8(#[trigger] go_reply_text(res))
                            && final(self).pending_info() == old(self).pending_info() + encode_utf8(
                            info_lines(res.info@),
                        )
                }
            }),
    {
        let chars = str_chars(line);
        let toks = split_whitespace(chars.as_slice());
        let ghost tv = split_ws(line@);
        if toks.len() == 0 {
            proof {
                reveal_strlit("quit");
                reveal_strlit("uci");
                reveal_strlit("isready");
                reveal_strlit("ucinewgame");
                reveal_strlit("position");
                reveal_strlit("go");
                reveal_strlit("d");
                reveal_strlit("print");
            }
            return true;
        }
        proof {
            assert(toks@[0]@ == tv[0]);
        }
        let cmd = toks[0].as_slice();
        if chars_eq_str(cmd, "uci") {
            let mut text: Vec<char> = Vec::new();
            extend_str(&mut text, "id name RustChess\n");
            extend_str(&mut text, "id author Rust Chess Engine\n");
            extend_str(&mut text, "uciok\n");
            emit_chars(out, text.as_slice());
            proof {
                lemma_words_differ(tv[0]);
            }
            true
        } else if chars_eq_str(cmd, "isready") {
            emit(out, "readyok\n");
            proof {
                lemma_words_differ(tv[0]);
            }
            true
        } else if chars_eq_str(cmd, "ucinewgame") {
            self.searcher.reset();
            self.board = Board::startpos();
            proof {
                lemma_words_differ(tv[0]);
            }
            true
        } else if chars_eq_str(cmd, "position") {
            self.handle_position(&toks, Ghost(tv));
            proof {
                lemma_words_differ(tv[0]);
            }
            true
        } else if chars_eq_str(cmd, "go") {
            self.handle_go(&toks, out, Ghost(tv));
            proof {
                lemma_words_differ(tv[0]);
            }
            true
        } else if chars_eq_str(cmd, "d") || chars_eq_str(cmd, "print") {
            let mut text: Vec<char> = Vec::new();
            let pic = self.board.ascii();
            extend_str(&mut text, pic.as_str());
            extend_str(&mut text, "fen: ");
            let fen = self.board.to_fen();
            extend_str(&mut text, fen.as_str());
            extend_str(&mut text, "\n");
            extend_str(&mut text, "key: ");
            push_hex(&mut text, self.board.key, 16);
            extend_str(&mut text, "\n");
            assert(text@ =~= print_text(self.board));
            emit_chars(out, text.as_slice());
            proof {
                lemma_words_differ(tv[0]);
            }
            true
        } else if chars_eq_str(cmd, "quit") {
            proof {
                lemma_words_differ(tv[0]);
            }
            false
        } else {
            proof {
                lemma_words_differ(tv[0]);
            }
            true
        }
    }
}

impl Default for UciEngine {
    /// An engine at the standard starting position.
    fn default() -> (e: UciEngine)
        ensures
            e.inv(),
            e.board_view().pos() == start_pos(),
            e.board_view().line().len() == 0,
    {
        UciEngine::new()
    }
}

/// The command words are pairwise different.
proof fn lemma_words_differ(w: Seq<char>)
    ensures
        w == "quit"@ ==> w != "uci"@ && w != "isready"@ && w != "ucinewgame"@ && w != "position"@ && w != "go"@
            && w != "d"@ && w != "print"@,
        w == "uci"@ ==> w != "isready"@ && w != "ucinewgame"@ && w != "position"@ && w != "go"@ && w != "d"@
            && w != "print"@,
        w == "isready"@ ==> w != "ucinewgame"@ && w != "position"@ && w != "go"@ && w != "d"@ && w != "print"@,
        w == "ucinewgame"@ ==> w != "position"@ && w != "go"@ && w != "d"@ && w != "print"@,
        w == "position"@ ==> w != "go"@ && w != "d"@ && w != "print"@,
        w == "go"@ ==> w != "d"@ && w != "print"@,
        w == "d"@ ==> w != "print"@,
{
    reveal_strlit("quit");
    reveal_strlit("uci");
    reveal_strlit("isready");
    reveal_strlit("ucinewgame");
    reveal_strlit("position");
    reveal_strlit("go");
    reveal_strlit("d");
    reveal_strlit("print");
    assert("quit"@.len() == 4);
    assert("uci"@.len() == 3);
    assert("isready"@.len() == 7);
    assert("ucinewgame"@.len() == 10);
    assert("position"@.len() == 8);
    assert("go"@.len() == 2);
    assert("d"@.len() == 1);
    assert("print"@.len() == 5);
}

} // verus!
