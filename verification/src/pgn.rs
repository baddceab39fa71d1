//! PGN (Portable Game Notation) import and export.
//!
//! [`PgnGame`] holds a game's tag pairs, starting position, and move list.
//! It is rendered to standard PGN text with SAN movetext, and parsed back
//! tolerating comments (`{ ... }`), variations (`( ... )`), NAGs (`$3`),
//! move numbers, and result tokens.

use crate::board::fen::{parse_fen, start_pos};
use crate::board::{Board, Pos, START_FEN};
use crate::movegen::{ep_is_sane, ep_sane, legal, legal_line, lemma_line_sane, lemma_pos_after_prefix, pos_after};
use crate::moves::Move;
use crate::san::{move_to_san, san_text, san_to_move, normalize_spec};
use crate::text::{all_digits, decimal, is_digit, is_ws, push_decimal, str_chars, str_string, string_from_chars, trim, trim_end};
use vstd::prelude::*;

verus! {

/// A parsed or constructed PGN game.
#[derive(Clone, Debug)]
pub struct PgnGame {
    /// The tag pairs, in order.
    pub tags: Vec<(String, String)>,
    /// The starting FEN (the standard position unless a `FEN` tag says
    /// otherwise).
    pub start_fen: String,
    /// The mainline moves.
    pub moves: Vec<Move>,
    /// The result token (`1-0`, `0-1`, `1/2-1/2`, or `*`).
    pub result: String,
}

/// The tag pairs as character sequences.
pub open spec fn tags_view(tags: Seq<(String, String)>) -> Seq<(Seq<char>, Seq<char>)> {
    Seq::new(tags.len(), |i: int| (tags[i].0@, tags[i].1@))
}

/// The value of the first tag named `key`.
pub open spec fn tag_lookup(tags: Seq<(Seq<char>, Seq<char>)>, key: Seq<char>) -> Option<Seq<char>>
    decreases tags.len(),
{
    if tags.len() == 0 {
        None
    } else if tags[0].0 == key {
        Some(tags[0].1)
    } else {
        tag_lookup(tags.drop_first(), key)
    }
}

/// The tags of a new game.
pub open spec fn default_tags() -> Seq<(Seq<char>, Seq<char>)> {
    seq![("Event"@, "Casual Game"@), ("Site"@, "Rust Chess Engine"@), ("White"@, "Player"@), ("Black"@, "Engine"@), ("Result"@, "*"@)]
}

/// The position a FEN sets up, the standard one when it does not parse.
pub open spec fn start_of(fen: Seq<char>) -> Pos {
    match parse_fen(fen) {
        Some(p) => p,
        None => start_pos(),
    }
}

/// The state of movetext rendering after some moves.
pub struct MoveTextState {
    /// Completed lines.
    pub out: Seq<char>,
    /// The line being filled.
    pub line: Seq<char>,
    /// The current move number.
    pub number: int,
    /// White is to move.
    pub white: bool,
    /// Some move has been written.
    pub wrote: bool,
}

/// Writes move `m`, played in `q`: the move number before a White move
/// (`12. `), or before the first move when Black starts (`12... `), the SAN,
/// a space; a line of 76 characters or more is ended.
pub open spec fn mt_step(st: MoveTextState, q: Pos, m: Move) -> MoveTextState {
    let prefix = if st.white {
        decimal(st.number as nat) + ". "@
    } else if !st.wrote {
        decimal(st.number as nat) + "... "@
    } else {
        seq![]
    };
    let line1 = st.line + prefix + san_text(q, m) + seq![' '];
    let number = if !st.white {
        st.number + 1
    } else {
        st.number
    };
    if line1.len() >= 76 {
        MoveTextState { out: st.out + trim_end(line1) + seq!['\n'], line: seq![], number, white: !st.white, wrote: true }
    } else {
        MoveTextState { out: st.out, line: line1, number, white: !st.white, wrote: true }
    }
}

/// The movetext state after the first `n` moves from `p`.
pub open spec fn mt_fold(p: Pos, moves: Seq<Move>, n: int) -> MoveTextState
    decreases n,
{
    if n <= 0 {
        MoveTextState { out: seq![], line: seq![], number: p.fullmove as int, white: p.side_white, wrote: false }
    } else {
        mt_step(mt_fold(p, moves, n - 1), pos_after(p, moves, n - 1), moves[n - 1])
    }
}

/// Movetext follows the game: after the first `k` moves of a line from
/// `p`, its move number is the full-move number of the position reached
/// (it goes up by one exactly after each Black move), the side it expects
/// is the side to move there, and something has been written once a move
/// has.
pub proof fn lemma_movetext_follows_game(p: Pos, moves: Seq<Move>, k: int)
    requires
        0 <= k <= moves.len(),
        p.fullmove + moves.len() < u32::MAX,
    ensures
        mt_fold(p, moves, k).number == pos_after(p, moves, k).fullmove,
        mt_fold(p, moves, k).white == pos_after(p, moves, k).side_white,
        mt_fold(p, moves, k).wrote == (k > 0),
        pos_after(p, moves, k).fullmove <= p.fullmove + k,
    decreases k,
{
    if k > 0 {
        lemma_movetext_follows_game(p, moves, k - 1);
    }
}

/// Each move of a legal line is written, in the position `q` it is played
/// in, as: the full-move number of `q` and `. ` when White moves there (or
/// `... ` when the line opens with a Black move), then its SAN in `q`, then
/// a space; nothing else is written. The line being filled is ended (its
/// final space becoming a line break) once it reaches 76 characters.
pub proof fn lemma_movetext_writes_move(p: Pos, moves: Seq<Move>, k: int)
    requires
        legal_line(p, moves),
        0 <= k < moves.len(),
        p.fullmove + moves.len() < u32::MAX,
    ensures
        ({
            let q = pos_after(p, moves, k);
            let a = mt_fold(p, moves, k);
            let b = mt_fold(p, moves, k + 1);
            let label = if q.side_white {
                decimal(q.fullmove as nat) + ". "@
            } else if k == 0 {
                decimal(q.fullmove as nat) + "... "@
            } else {
                seq![]
            };
            let filled = a.line + label + san_text(q, moves[k]);
            &&& filled.len() + 1 >= 76 ==> b.out == a.out + filled + seq!['\n'] && b.line.len() == 0
            &&& filled.len() + 1 < 76 ==> b.out == a.out && b.line == filled + seq![' ']
        }),
{
    let q = pos_after(p, moves, k);
    let a = mt_fold(p, moves, k);
    lemma_movetext_follows_game(p, moves, k);
    lemma_line_sane(p, moves, k);
    assert(legal(q, moves[k]));
    crate::san::unique::lemma_san_ends_plain(q, moves[k]);
    let label = if q.side_white {
        decimal(q.fullmove as nat) + ". "@
    } else if k == 0 {
        decimal(q.fullmove as nat) + "... "@
    } else {
        seq![]
    };
    let x = a.line + label + san_text(q, moves[k]);
    let line1 = x + seq![' '];
    assert(line1.drop_last() =~= x);
    assert(x.last() == san_text(q, moves[k]).last());
    assert(is_ws(' '));
    assert(trim_end(line1) == trim_end(x));
    assert(trim_end(x) == x);
    assert(line1.len() == x.len() + 1);
}

/// The tag lines `[Key "Value"]`.
pub open spec fn tags_text(tags: Seq<(Seq<char>, Seq<char>)>) -> Seq<char>
    decreases tags.len(),
{
    if tags.len() == 0 {
        seq![]
    } else {
        tags_text(tags.drop_last()) + "["@ + tags.last().0 + " \""@ + tags.last().1 + "\"]\n"@
    }
}

/// The PGN text of a game.
pub open spec fn pgn_text(tags: Seq<(Seq<char>, Seq<char>)>, fen: Seq<char>, moves: Seq<Move>, result: Seq<char>) -> Seq<char> {
    let header = if fen != START_FEN@ && tag_lookup(tags, "FEN"@) is None {
        "[FEN \""@ + fen + "\"]\n"@ + "[SetUp \"1\"]\n"@
    } else {
        seq![]
    };
    let st = mt_fold(start_of(fen), moves, moves.len() as int);
    tags_text(tags) + header + seq!['\n'] + st.out + trim_end(st.line + result) + seq!['\n']
}

fn push_str(out: &mut Vec<char>, s: &str)
    ensures
        final(out)@ == old(out)@ + s@,
{
    crate::text::extend_str(out, s);
}

fn tag_pair(k: &str, v: &str) -> (r: (String, String))
    ensures
        r.0@ == k@ && r.1@ == v@,
{
    (str_string(k), str_string(v))
}

impl PgnGame {
    /// The moves can be replayed legally from the starting FEN, and the move
    /// numbers stay within range.
    pub open spec fn line_ok(&self) -> bool {
        let p = start_of(self.start_fen@);
        &&& legal_line(p, self.moves@)
        &&& p.fullmove + self.moves@.len() < u32::MAX
    }

    /// A new game from the standard position with the default tags.
    pub fn new() -> (g: PgnGame)
        ensures
            tags_view(g.tags@) == default_tags(),
            g.start_fen@ == START_FEN@,
            g.moves@.len() == 0,
            g.result@ == "*"@,
    {
        let mut tags: Vec<(String, String)> = Vec::new();
        tags.push(tag_pair("Event", "Casual Game"));
        tags.push(tag_pair("Site", "Rust Chess Engine"));
        tags.push(tag_pair("White", "Player"));
        tags.push(tag_pair("Black", "Engine"));
        tags.push(tag_pair("Result", "*"));
        let g = PgnGame { tags, start_fen: str_string(START_FEN), moves: Vec::new(), result: str_string("*") };
        assert(tags_view(g.tags@) =~= default_tags());
        g
    }

    /// A game with the default tags from `start_fen` and `moves`.
    pub fn from_moves(start_fen: &str, moves: Vec<Move>) -> (g: PgnGame)
        ensures
            tags_view(g.tags@) == default_tags(),
            g.start_fen@ == start_fen@,
            g.moves@ == moves@,
            g.result@ == "*"@,
    {
        let mut g = PgnGame::new();
        g.start_fen = str_string(start_fen);
        g.moves = moves;
        g
    }

    /// The value of the first tag named `key` (case-sensitive).
    pub fn tag(&self, key: &str) -> (r: Option<&str>)
        ensures
            match tag_lookup(tags_view(self.tags@), key@) {
                Some(v) => r is Some && r->0@ == v,
                None => r is None,
            },
    {
        let kc = str_chars(key);
        let mut i: usize = 0;
        assert(tags_view(self.tags@).subrange(0, self.tags@.len() as int) =~= tags_view(self.tags@));
        while i < self.tags.len()
            invariant
                i <= self.tags@.len(),
                kc@ == key@,
                tag_lookup(tags_view(self.tags@), key@) == tag_lookup(tags_view(self.tags@).subrange(i as int, self.tags@.len() as int), key@),
            decreases self.tags@.len() - i,
        {
            let k = str_chars(self.tags[i].0.as_str());
            proof {
                let rest = tags_view(self.tags@).subrange(i as int, self.tags@.len() as int);
                assert(rest.drop_first() =~= tags_view(self.tags@).subrange(i + 1, self.tags@.len() as int));
                assert(rest[0] == (self.tags@[i as int].0@, self.tags@[i as int].1@));
            }
            if crate::text::chars_eq(k.as_slice(), kc.as_slice()) {
                return Some(self.tags[i].1.as_str());
            }
            i = i + 1;
        }
        None
    }
}


/// Writes one move into the movetext (see [`mt_step`]) and plays it on
/// `board`; returns the next move number.
fn render_move(board: &mut Board, mv: Move, line: &mut Vec<char>, text: &mut Vec<char>, number: u32, white: bool, wrote: bool) -> (r: u32)
    requires
        old(board).wf(),
        ep_sane(old(board).pos()),
        legal(old(board).pos(), mv),
        number < u32::MAX,
    ensures
        final(board).wf(),
        final(board).pos() == old(board).pos().after(mv),
        ({
            let st = mt_step(
                MoveTextState { out: old(text)@, line: old(line)@, number: number as int, white, wrote },
                old(board).pos(),
                mv,
            );
            st.out == final(text)@ && st.line == final(line)@ && st.number == r as int
        }),
{
    let ghost q = board.pos();
    proof {
        crate::movegen::lemma_legal_sane(q, mv);
    }
    if white {
        push_decimal(line, number as u64);
        push_str(line, ". ");
    } else if !wrote {
        push_decimal(line, number as u64);
        push_str(line, "... ");
    }
    let san = move_to_san(board, mv);
    crate::text::extend_str(line, san.as_str());
    line.push(' ');
    proof {
        let prefix = if white {
            decimal(number as nat) + ". "@
        } else if !wrote {
            decimal(number as nat) + "... "@
        } else {
            seq![]
        };
        assert(line@ =~= old(line)@ + prefix + san_text(q, mv) + seq![' ']);
    }
    board.make_move_struct(mv);
    let next = if !white {
        number + 1
    } else {
        number
    };
    if line.len() >= 76 {
        let t = crate::text::trim_end_chars(line.as_slice());
        crate::text::extend_chars(text, t.as_slice());
        text.push('\n');
        *line = Vec::new();
    }
    proof {
        let nst = mt_step(
            MoveTextState { out: old(text)@, line: old(line)@, number: number as int, white, wrote },
            q,
            mv,
        );
        assert(text@ =~= nst.out);
        assert(line@ =~= nst.line);
    }
    next
}

/// The movetext of `moves` from the position of `fen`, then `result`.
fn movetext(fen: &str, moves: &Vec<Move>, result: &str) -> (r: Vec<char>)
    requires
        legal_line(start_of(fen@), moves@),
        start_of(fen@).fullmove + moves@.len() < u32::MAX,
    ensures
        ({
            let st = mt_fold(start_of(fen@), moves@, moves@.len() as int);
            r@ == st.out + trim_end(st.line + result@) + seq!['\n']
        }),
{
    let ghost p = start_of(fen@);
    let mut board = match Board::from_fen(fen) {
        Ok(b) => b,
        Err(_) => Board::startpos(),
    };
    let mut text: Vec<char> = Vec::new();
    let mut line: Vec<char> = Vec::new();
    let mut number: u32 = board.fullmove;
    let mut white = board.side_white;
    let mut wrote = false;
    let mut k: usize = 0;
    while k < moves.len()
        invariant
            k <= moves@.len(),
            legal_line(p, moves@),
            p.fullmove + moves@.len() < u32::MAX,
            board.wf(),
            board.pos() == pos_after(p, moves@, k as int),
            mt_fold(p, moves@, k as int) == (MoveTextState { out: text@, line: line@, number: number as int, white, wrote }),
            number as int <= p.fullmove + k,
        decreases moves@.len() - k,
    {
        let mv = moves[k];
        proof {
            lemma_line_sane(p, moves@, k as int);
        }
        number = render_move(&mut board, mv, &mut line, &mut text, number, white, wrote);
        white = !white;
        wrote = true;
        k = k + 1;
    }
    let mut last = line;
    crate::text::extend_str(&mut last, result);
    let t = crate::text::trim_end_chars(last.as_slice());
    let mut out = text;
    crate::text::extend_chars(&mut out, t.as_slice());
    out.push('\n');
    out
}

impl PgnGame {
    /// Render the game as PGN: the tag lines, a `FEN`/`SetUp` pair when the
    /// game starts elsewhere than the standard position and has no `FEN`
    /// tag, a blank line, and the numbered SAN movetext, wrapped near 80
    /// columns, ending in the result.
    pub fn to_pgn(&self) -> (r: String)
        requires
            self.line_ok(),
        ensures
            r@ == pgn_text(tags_view(self.tags@), self.start_fen@, self.moves@, self.result@),
    {
        let ghost tv = tags_view(self.tags@);
        let mut out: Vec<char> = Vec::new();
        let mut i: usize = 0;
        while i < self.tags.len()
            invariant
                i <= self.tags@.len(),
                tv == tags_view(self.tags@),
                out@ == tags_text(tv.subrange(0, i as int)),
            decreases self.tags@.len() - i,
        {
            let ghost before = out@;
            push_str(&mut out, "[");
            crate::text::extend_str(&mut out, self.tags[i].0.as_str());
            push_str(&mut out, " \"");
            crate::text::extend_str(&mut out, self.tags[i].1.as_str());
            push_str(&mut out, "\"]\n");
            proof {
                let sub = tv.subrange(0, i as int + 1);
                assert(sub.drop_last() =~= tv.subrange(0, i as int));
                assert(sub.last() == tv[i as int]);
                assert(out@ =~= tags_text(sub));
            }
            i = i + 1;
        }
        proof {
            assert(tv.subrange(0, self.tags@.len() as int) =~= tv);
        }
        let fen_chars = str_chars(self.start_fen.as_str());
        let is_start = crate::text::chars_eq_str(fen_chars.as_slice(), START_FEN);
        if !is_start && self.tag("FEN").is_none() {
            push_str(&mut out, "[FEN \"");
            crate::text::extend_str(&mut out, self.start_fen.as_str());
            push_str(&mut out, "\"]\n");
            push_str(&mut out, "[SetUp \"1\"]\n");
        }
        out.push('\n');
        let ghost head = out@;
        proof {
            reveal_strlit("FEN");
        }

        let body = movetext(self.start_fen.as_str(), &self.moves, self.result.as_str());
        crate::text::extend_chars(&mut out, body.as_slice());
        proof {
            assert(out@ =~= pgn_text(tv, self.start_fen@, self.moves@, self.result@));
        }
        string_from_chars(out.as_slice())
    }
}


/// `s` without its leading copies of `c`.
pub open spec fn strip_start(s: Seq<char>, c: char) -> Seq<char>
    decreases s.len(),
{
    if s.len() > 0 && s[0] == c {
        strip_start(s.drop_first(), c)
    } else {
        s
    }
}

/// `s` without its trailing copies of `c`.
pub open spec fn strip_end(s: Seq<char>, c: char) -> Seq<char>
    decreases s.len(),
{
    if s.len() > 0 && s.last() == c {
        strip_end(s.drop_last(), c)
    } else {
        s
    }
}

/// The index of the first `c` in `s`.
pub open spec fn first_index(s: Seq<char>, c: char, from: int) -> Option<int>
    decreases s.len() - from,
{
    if from < 0 || from >= s.len() {
        None
    } else if s[from] == c {
        Some(from)
    } else {
        first_index(s, c, from + 1)
    }
}

/// The key and value of a tag line `[Key "Value"]`: the brackets and
/// surrounding space stripped, the key up to the first space, the rest
/// trimmed and stripped of quotes. `None` without a space.
pub open spec fn parse_tag_spec(line: Seq<char>) -> Option<(Seq<char>, Seq<char>)> {
    let inner = trim(strip_end(strip_start(line, '['), ']'));
    match first_index(inner, ' ', 0) {
        Some(k) => Some(
            (inner.subrange(0, k), strip_end(strip_start(trim(inner.subrange(k, inner.len() as int)), '"'), '"')),
        ),
        None => None,
    }
}

pub(crate) fn strip_start_chars(s: &[char], c: char) -> (r: Vec<char>)
    ensures
        r@ == strip_start(s@, c),
{
    let mut i: usize = 0;
    assert(s@.subrange(0, s@.len() as int) =~= s@);
    while i < s.len() && s[i] == c
        invariant
            i <= s@.len(),
            strip_start(s@, c) == strip_start(s@.subrange(i as int, s@.len() as int), c),
        decreases s@.len() - i,
    {
        proof {
            assert(s@.subrange(i as int, s@.len() as int).drop_first() =~= s@.subrange(i + 1, s@.len() as int));
        }
        i = i + 1;
    }
    let mut out: Vec<char> = Vec::new();
    let mut j = i;
    while j < s.len()
        invariant
            i <= j <= s@.len(),
            out@ == s@.subrange(i as int, j as int),
        decreases s@.len() - j,
    {
        out.push(s[j]);
        j = j + 1;
    }
    proof {
        let rest = s@.subrange(i as int, s@.len() as int);
        assert(out@ =~= rest);
        assert(!(rest.len() > 0 && rest[0] == c));
    }
    out
}

pub(crate) fn strip_end_chars(s: &[char], c: char) -> (r: Vec<char>)
    ensures
        r@ == strip_end(s@, c),
{
    let mut n = s.len();
    assert(s@.subrange(0, n as int) =~= s@);
    while n > 0 && s[n - 1] == c
        invariant
            n <= s@.len(),
            strip_end(s@, c) == strip_end(s@.subrange(0, n as int), c),
        decreases n,
    {
        proof {
            assert(s@.subrange(0, n as int).drop_last() =~= s@.subrange(0, n - 1));
        }
        n = n - 1;
    }
    let mut out: Vec<char> = Vec::new();
    let mut j: usize = 0;
    while j < n
        invariant
            j <= n <= s@.len(),
            out@ == s@.subrange(0, j as int),
        decreases n - j,
    {
        out.push(s[j]);
        j = j + 1;
    }
    out
}

fn sub_chars(s: &[char], a: usize, b: usize) -> (r: Vec<char>)
    requires
        a <= b <= s@.len(),
    ensures
        r@ == s@.subrange(a as int, b as int),
{
    let mut out: Vec<char> = Vec::new();
    let mut j = a;
    while j < b
        invariant
            a <= j <= b <= s@.len(),
            out@ == s@.subrange(a as int, j as int),
        decreases b - j,
    {
        out.push(s[j]);
        j = j + 1;
    }
    out
}

/// Reads a tag line `[Key "Value"]` into its key and value.
fn parse_tag(line: &[char]) -> (r: Option<(String, String)>)
    ensures
        match parse_tag_spec(line@) {
            Some((k, v)) => (r matches Some(kv) && kv.0@ == k && kv.1@ == v),
            None => r is None,
        },
{
    let a = strip_start_chars(line, '[');
    let b = strip_end_chars(a.as_slice(), ']');
    let inner = crate::text::trim_chars(b.as_slice());
    let mut k: usize = 0;
    while k < inner.len() && inner[k] != ' '
        invariant
            k <= inner@.len(),
            first_index(inner@, ' ', 0) == first_index(inner@, ' ', k as int),
        decreases inner@.len() - k,
    {
        k = k + 1;
    }
    if k >= inner.len() {
        return None;
    }
    let key = sub_chars(inner.as_slice(), 0, k);
    let rest0 = sub_chars(inner.as_slice(), k, inner.len());
    let rest = crate::text::trim_chars(rest0.as_slice());
    let v1 = strip_start_chars(rest.as_slice(), '"');
    let v2 = strip_end_chars(v1.as_slice(), '"');
    Some((string_from_chars(key.as_slice()), string_from_chars(v2.as_slice())))
}


/// The index of the last `c` in the first `n` characters of `s`.
pub open spec fn last_index(s: Seq<char>, c: char, n: int) -> Option<int>
    decreases n,
{
    if n <= 0 || n > s.len() {
        None
    } else if s[n - 1] == c {
        Some(n - 1)
    } else {
        last_index(s, c, n - 1)
    }
}

/// A movetext token without a leading move number: a bare number (`12.`,
/// `12...`) gives nothing, `12.e4` gives `e4`.
pub open spec fn clean_token_spec(tok: Seq<char>) -> Seq<char> {
    let t = trim(tok);
    if all_digits(strip_end(t, '.')) {
        seq![]
    } else {
        match last_index(t, '.', t.len() as int) {
            Some(pos) => if all_digits(strip_end(t.subrange(0, pos + 1), '.')) {
                t.subrange(pos + 1, t.len() as int)
            } else {
                t
            },
            None => t,
        }
    }
}

fn all_digit_chars(s: &[char]) -> (r: bool)
    ensures
        r == all_digits(s@),
{
    let mut i: usize = 0;
    while i < s.len()
        invariant
            i <= s@.len(),
            forall|j: int| 0 <= j < i ==> is_digit(#[trigger] s@[j]),
        decreases s@.len() - i,
    {
        if !('0' <= s[i] && s[i] <= '9') {
            return false;
        }
        i = i + 1;
    }
    true
}

/// Strips a leading move number from a token.
fn clean_token(tok: &[char]) -> (r: Vec<char>)
    ensures
        r@ == clean_token_spec(tok@),
{
    let t = crate::text::trim_chars(tok);
    let stripped = strip_end_chars(t.as_slice(), '.');
    if all_digit_chars(stripped.as_slice()) {
        return Vec::new();
    }
    let mut n = t.len();
    while n > 0 && t[n - 1] != '.'
        invariant
            n <= t@.len(),
            last_index(t@, '.', t@.len() as int) == last_index(t@, '.', n as int),
        decreases n,
    {
        n = n - 1;
    }
    if n == 0 {
        return t;
    }
    let num = sub_chars(t.as_slice(), 0, n);
    let num_s = strip_end_chars(num.as_slice(), '.');
    if all_digit_chars(num_s.as_slice()) {
        sub_chars(t.as_slice(), n, t.len())
    } else {
        t
    }
}

/// The tokenizer's state: comment and variation depths, whether a NAG's
/// digits are being skipped, the token being read, and the tokens so far.
pub struct TokState {
    pub brace: int,
    pub paren: int,
    pub nag: bool,
    pub cur: Seq<char>,
    pub tokens: Seq<Seq<char>>,
}

/// Ends the current token: its cleaned form is kept if not empty.
pub open spec fn flush(st: TokState) -> TokState {
    if st.cur.len() > 0 {
        let t = clean_token_spec(st.cur);
        TokState {
            cur: seq![],
            tokens: if t.len() > 0 {
                st.tokens.push(t)
            } else {
                st.tokens
            },
            ..st
        }
    } else {
        st
    }
}

/// Reads one character of movetext.
pub open spec fn tok_step(st0: TokState, c: char) -> TokState {
    if st0.nag && is_digit(c) {
        st0
    } else {
        let st = TokState { nag: false, ..st0 };
        if c == '{' {
            TokState { brace: st.brace + 1, ..st }
        } else if c == '}' {
            TokState { brace: if st.brace > 0 { st.brace - 1 } else { 0 }, ..st }
        } else if c == '(' {
            TokState { paren: st.paren + 1, ..st }
        } else if c == ')' {
            TokState { paren: if st.paren > 0 { st.paren - 1 } else { 0 }, ..st }
        } else if st.brace > 0 || st.paren > 0 {
            st
        } else if c == '$' {
            TokState { nag: true, ..st }
        } else if is_ws(c) {
            flush(st)
        } else {
            TokState { cur: st.cur.push(c), ..st }
        }
    }
}

/// The state after the first `n` characters.
pub open spec fn tok_fold(s: Seq<char>, n: int) -> TokState
    decreases n,
{
    if n <= 0 {
        TokState { brace: 0, paren: 0, nag: false, cur: seq![], tokens: seq![] }
    } else {
        tok_step(tok_fold(s, n - 1), s[n - 1])
    }
}

/// The SAN and result tokens of movetext, with comments, variations, NAGs,
/// and move numbers dropped.
pub open spec fn tokenize_spec(s: Seq<char>) -> Seq<Seq<char>> {
    flush(tok_fold(s, s.len() as int)).tokens
}

fn flush_exec(cur: &mut Vec<char>, tokens: &mut Vec<Vec<char>>, brace: Ghost<int>, paren: Ghost<int>, nag: Ghost<bool>)
    ensures
        ({
            let st = flush(TokState { brace: brace@, paren: paren@, nag: nag@, cur: old(cur)@, tokens: old(tokens)@.map_values(|t: Vec<char>| t@) });
            final(cur)@ == st.cur && final(tokens)@.map_values(|t: Vec<char>| t@) == st.tokens
        }),
{
    if cur.len() > 0 {
        let t = clean_token(cur.as_slice());
        if t.len() > 0 {
            tokens.push(t);
        }
        *cur = Vec::new();
        proof {
            assert(tokens@.map_values(|t: Vec<char>| t@) =~= flush(TokState { brace: brace@, paren: paren@, nag: nag@, cur: old(cur)@, tokens: old(tokens)@.map_values(|t: Vec<char>| t@) }).tokens);
        }
    }
}

/// Splits movetext into SAN and result tokens.
fn tokenize_movetext(text: &[char]) -> (r: Vec<Vec<char>>)
    ensures
        r@.map_values(|t: Vec<char>| t@) == tokenize_spec(text@),
{
    let mut tokens: Vec<Vec<char>> = Vec::new();
    let mut cur: Vec<char> = Vec::new();
    let mut brace: usize = 0;
    let mut paren: usize = 0;
    let mut nag = false;
    let mut i: usize = 0;
    assert(tokens@.map_values(|t: Vec<char>| t@) =~= Seq::<Seq<char>>::empty());
    while i < text.len()
        invariant
            i <= text@.len(),
            brace <= i,
            paren <= i,
            tok_fold(text@, i as int) == (TokState { brace: brace as int, paren: paren as int, nag, cur: cur@, tokens: tokens@.map_values(|t: Vec<char>| t@) }),
        decreases text@.len() - i,
    {
        let c = text[i];
        if nag && '0' <= c && c <= '9' {
        } else {
            nag = false;
            if c == '{' {
                brace = brace + 1;
            } else if c == '}' {
                if brace > 0 {
                    brace = brace - 1;
                }
            } else if c == '(' {
                paren = paren + 1;
            } else if c == ')' {
                if paren > 0 {
                    paren = paren - 1;
                }
            } else if brace > 0 || paren > 0 {
            } else if c == '$' {
                nag = true;
            } else if crate::text::char_is_ws(c) {
                flush_exec(&mut cur, &mut tokens, Ghost(brace as int), Ghost(paren as int), Ghost(nag));
            } else {
                cur.push(c);
            }
        }
        i = i + 1;
    }
    flush_exec(&mut cur, &mut tokens, Ghost(brace as int), Ghost(paren as int), Ghost(nag));
    tokens
}


/// A tag line: it starts with `[` and ends with `]`.
pub open spec fn is_tag_line(l: Seq<char>) -> bool {
    l.len() > 0 && l[0] == '[' && l.last() == ']'
}

/// The tags and the movetext gathered from the first `n` lines: each line
/// trimmed; tag lines give tags, other non-empty lines are joined with a
/// space after each.
pub open spec fn collect(lines: Seq<Seq<char>>, n: int) -> (Seq<(Seq<char>, Seq<char>)>, Seq<char>)
    decreases n,
{
    if n <= 0 {
        (seq![], seq![])
    } else {
        let (t, m) = collect(lines, n - 1);
        let l = trim(lines[n - 1]);
        if is_tag_line(l) {
            match parse_tag_spec(l) {
                Some(kv) => (t.push(kv), m),
                None => (t, m),
            }
        } else if l.len() > 0 {
            (t, m + l + seq![' '])
        } else {
            (t, m)
        }
    }
}

/// The starting FEN named by the tags.
pub open spec fn pgn_fen(tags: Seq<(Seq<char>, Seq<char>)>) -> Seq<char> {
    match tag_lookup(tags, "FEN"@) {
        Some(v) => v,
        None => START_FEN@,
    }
}

pub open spec fn is_result_token(t: Seq<char>) -> bool {
    t == "1-0"@ || t == "0-1"@ || t == "1/2-1/2"@ || t == "*"@
}

/// The index of the first result token from `i` on (the length without one).
pub open spec fn first_result(toks: Seq<Seq<char>>, i: int) -> int
    decreases toks.len() - i,
{
    if i < 0 || i >= toks.len() {
        toks.len() as int
    } else if is_result_token(toks[i]) {
        i
    } else {
        first_result(toks, i + 1)
    }
}

/// `tok` reads as a legal move in `q`.
pub open spec fn token_playable(q: Pos, tok: Seq<char>) -> bool {
    normalize_spec(tok).len() > 0 && exists|m: Move| legal(q, m) && normalize_spec(san_text(q, m)) == normalize_spec(tok)
}

/// `ms` are legal moves from `p` whose SAN matches the first tokens.
pub open spec fn matches_line(p: Pos, ms: Seq<Move>, toks: Seq<Seq<char>>) -> bool {
    &&& ms.len() <= toks.len()
    &&& legal_line(p, ms)
    &&& forall|i: int| 0 <= i < ms.len() ==> !is_result_token(#[trigger] toks[i])
        && normalize_spec(san_text(pos_after(p, ms, i), ms[i])) == normalize_spec(toks[i])
        && normalize_spec(toks[i]).len() > 0
}

fn eq_lit(a: &[char], b: &str) -> (r: bool)
    ensures
        r == (a@ == b@),
{
    crate::text::chars_eq_str(a, b)
}

/// The value of the first tag named `key`.
fn lookup_tag(tags: &Vec<(String, String)>, key: &str) -> (r: Option<String>)
    ensures
        match tag_lookup(tags_view(tags@), key@) {
            Some(v) => r is Some && r->0@ == v,
            None => r is None,
        },
{
    let ghost tv = tags_view(tags@);
    let kc = str_chars(key);
    let mut j: usize = 0;
    assert(tv.subrange(0, tags@.len() as int) =~= tv);
    while j < tags.len()
        invariant
            j <= tags@.len(),
            tv == tags_view(tags@),
            kc@ == key@,
            tag_lookup(tv, key@) == tag_lookup(tv.subrange(j as int, tags@.len() as int), key@),
        decreases tags@.len() - j,
    {
        let k = str_chars(tags[j].0.as_str());
        proof {
            let rest = tv.subrange(j as int, tags@.len() as int);
            assert(rest.drop_first() =~= tv.subrange(j + 1, tags@.len() as int));
            assert(rest[0] == (tags@[j as int].0@, tags@[j as int].1@));
        }
        if crate::text::chars_eq(k.as_slice(), kc.as_slice()) {
            return Some(str_string(tags[j].1.as_str()));
        }
        j = j + 1;
    }
    None
}

/// Plays the SAN token `tok` on `board`, recording the move; `false` (and
/// nothing changed) when it is no legal move.
fn play_token(board: &mut Board, moves: &mut Vec<Move>, tok: &[char], p: Ghost<Pos>, toks: Ghost<Seq<Seq<char>>>) -> (ok: bool)
    requires
        old(board).wf(),
        old(board).pos() == pos_after(p@, old(moves)@, old(moves)@.len() as int),
        matches_line(p@, old(moves)@, toks@),
        old(moves)@.len() < toks@.len(),
        toks@[old(moves)@.len() as int] == tok@,
        !is_result_token(tok@),
    ensures
        ok ==> final(board).wf() && final(board).pos() == pos_after(p@, final(moves)@, final(moves)@.len() as int)
            && final(moves)@.len() == old(moves)@.len() + 1 && matches_line(p@, final(moves)@, toks@),
        !ok ==> !token_playable(old(board).pos(), tok@) && final(moves)@ == old(moves)@ && final(board).pos()
            == old(board).pos() && final(board).wf(),
{
    let ghost m0 = moves@;
    proof {
        crate::movegen::lemma_line_sane(p@, moves@, moves@.len() as int);
    }
    let s = string_from_chars(tok);
    match san_to_move(board, s.as_str()) {
        Some(mv) => {
            proof {
                crate::movegen::lemma_legal_sane(board.pos(), mv);
            }
            board.make_move_struct(mv);
            moves.push(mv);
            proof {
                assert forall|i: int| 0 <= i <= m0.len() implies pos_after(p@, moves@, i) == pos_after(p@, m0, i) by {
                    lemma_pos_after_prefix(p@, m0, moves@, i);
                }
                assert forall|i: int| 0 <= i < moves@.len() implies legal(#[trigger] pos_after(p@, moves@, i), moves@[i]) by {
                    if i < m0.len() {
                        assert(pos_after(p@, moves@, i) == pos_after(p@, m0, i));
                        assert(legal(pos_after(p@, m0, i), m0[i]));
                    }
                }
                assert forall|i: int| 0 <= i < moves@.len() implies !is_result_token(#[trigger] toks@[i])
                    && normalize_spec(san_text(pos_after(p@, moves@, i), moves@[i])) == normalize_spec(toks@[i])
                    && normalize_spec(toks@[i]).len() > 0 by {
                    if i < m0.len() {
                        assert(pos_after(p@, moves@, i) == pos_after(p@, m0, i));
                    }
                }
            }
            true
        },
        None => false,
    }
}

proof fn lemma_first_result(toks: Seq<Seq<char>>, i: int)
    requires
        0 <= i <= toks.len(),
    ensures
        i <= first_result(toks, i) <= toks.len(),
    decreases toks.len() - i,
{
    if i < toks.len() && !is_result_token(toks[i]) {
        lemma_first_result(toks, i + 1);
    }
}

/// Plays the movetext tokens from `p` up to the first result token.
fn play_movetext(board: &mut Board, tokens: &Vec<Vec<char>>, p: Ghost<Pos>) -> (r: Result<(Vec<Move>, String), String>)
    requires
        old(board).wf(),
        old(board).pos() == p@,
        p@.wf(),
        ep_sane(p@),
    ensures
        ({
            let toks = tokens@.map_values(|t: Vec<char>| t@);
            let k = first_result(toks, 0);
            match r {
                Ok((ms, res)) => matches_line(p@, ms@, toks) && ms@.len() == k && res@ == (if k < toks.len() {
                    toks[k]
                } else {
                    "*"@
                }),
                Err(_) => exists|ms: Seq<Move>| ms.len() < k && #[trigger] matches_line(p@, ms, toks) && !token_playable(
                    pos_after(p@, ms, ms.len() as int),
                    toks[ms.len() as int],
                ),
            }
        }),
{
    let ghost toks = tokens@.map_values(|t: Vec<char>| t@);
    let mut moves: Vec<Move> = Vec::new();
    let mut result = str_string("*");
    let mut t: usize = 0;
    let mut finished = false;
    proof {
        lemma_first_result(toks, 0);
        assert(matches_line(p@, moves@, toks));
    }
    while t < tokens.len() && !finished
        invariant
            t <= tokens@.len(),
            toks == tokens@.map_values(|x: Vec<char>| x@),
            board.wf(),
            p@.wf(),
            ep_sane(p@),
            board.pos() == pos_after(p@, moves@, moves@.len() as int),
            moves@.len() == t,
            matches_line(p@, moves@, toks),
            !finished ==> first_result(toks, 0) == first_result(toks, t as int) && result@ == "*"@,
            finished ==> t < toks.len() && first_result(toks, 0) == t && result@ == toks[t as int],
        decreases tokens@.len() - t, if finished { 0int } else { 1int },
    {
        let tok = &tokens[t];
        assert(tok@ == toks[t as int]);
        if eq_lit(tok.as_slice(), "1-0") || eq_lit(tok.as_slice(), "0-1") || eq_lit(tok.as_slice(), "1/2-1/2") || eq_lit(tok.as_slice(), "*") {
            result = string_from_chars(tok.as_slice());
            finished = true;
        } else {
            proof {
                assert(!is_result_token(toks[t as int]));
                assert(first_result(toks, t as int) == first_result(toks, t as int + 1));
                lemma_first_result(toks, t as int + 1);
            }
            if play_token(board, &mut moves, tok.as_slice(), p, Ghost(toks)) {
                t = t + 1;
            } else {
                let mut msg: Vec<char> = Vec::new();
                push_str(&mut msg, "illegal or unparseable SAN '");
                crate::text::extend_chars(&mut msg, tok.as_slice());
                push_str(&mut msg, "'");
                proof {
                    assert(moves@.len() < first_result(toks, 0));
                    assert(matches_line(p@, moves@, toks));
                }
                return Err(string_from_chars(msg.as_slice()));
            }
        }
    }
    Ok((moves, result))
}

/// The tags and movetext of a PGN text (see [`collect`]).
fn collect_lines(text: &str) -> (r: (Vec<(String, String)>, Vec<char>))
    ensures
        ({
            let lines = crate::text::split_on(text@, '\n');
            collect(lines, lines.len() as int) == (tags_view(r.0@), r.1@)
        }),
{
    let chars = str_chars(text);
    let lines = crate::text::split_char(chars.as_slice(), '\n');
    let ghost lv = crate::text::split_on(text@, '\n');
    let mut tags: Vec<(String, String)> = Vec::new();
    let mut movetext: Vec<char> = Vec::new();
    let mut i: usize = 0;
    assert(tags_view(tags@) =~= seq![]);
    while i < lines.len()
        invariant
            i <= lines@.len(),
            lines@.len() == lv.len(),
            forall|j: int| 0 <= j < lines@.len() ==> #[trigger] lines@[j]@ == lv[j],
            collect(lv, i as int) == (tags_view(tags@), movetext@),
        decreases lines@.len() - i,
    {
        let l = crate::text::trim_chars(lines[i].as_slice());
        let ghost before = (tags_view(tags@), movetext@);
        if l.len() > 0 && l[0] == '[' && l[l.len() - 1] == ']' {
            match parse_tag(l.as_slice()) {
                Some(kv) => {
                    tags.push(kv);
                    assert(tags_view(tags@) =~= before.0.push((kv.0@, kv.1@)));
                },
                None => {},
            }
        } else if l.len() > 0 {
            crate::text::extend_chars(&mut movetext, l.as_slice());
            movetext.push(' ');
        }
        proof {
            assert(lines@[i as int]@ == lv[i as int]);
        }
        i = i + 1;
    }
    (tags, movetext)
}

impl PgnGame {
    /// Parse one PGN game: the tag pairs; the starting position from the
    /// `FEN` tag (the standard one without it); and the movetext read as SAN
    /// up to a result token, ignoring comments, variations, NAGs, and move
    /// numbers. Fails on a bad FEN, on an occupied en-passant square, or on
    /// the first token that is no legal move.
    pub fn parse(text: &str) -> (r: Result<PgnGame, String>)
        ensures
            ({
                let lines = crate::text::split_on(text@, '\n');
                let (tags, mt) = collect(lines, lines.len() as int);
                let fen = pgn_fen(tags);
                let toks = tokenize_spec(mt);
                let k = first_result(toks, 0);
                match r {
                    Ok(g) => {
                        &&& tags_view(g.tags@) == tags
                        &&& g.start_fen@ == fen
                        &&& parse_fen(fen) is Some
                        &&& matches_line(parse_fen(fen)->0, g.moves@, toks)
                        &&& g.moves@.len() == k
                        &&& g.result@ == (if k < toks.len() {
                            toks[k]
                        } else {
                            "*"@
                        })
                    },
                    Err(_) => parse_fen(fen) is None || !ep_sane(parse_fen(fen)->0) || exists|ms: Seq<Move>|
                        ms.len() < k && #[trigger] matches_line(parse_fen(fen)->0, ms, toks) && !token_playable(
                            pos_after(parse_fen(fen)->0, ms, ms.len() as int),
                            toks[ms.len() as int],
                        ),
                }
            }),
    {
        let (tags, movetext) = collect_lines(text);
        let ghost tv = tags_view(tags@);
        let fen = lookup_tag(&tags, "FEN");
        let start_fen = match fen {
            Some(f) => f,
            None => str_string(START_FEN),
        };
        assert(start_fen@ == pgn_fen(tv));
        let mut board = match Board::from_fen(start_fen.as_str()) {
            Ok(b) => b,
            Err(e) => {
                return Err(e);
            },
        };
        let ghost p = board.pos();
        if !ep_is_sane(&board) {
            return Err(str_string("invalid en passant square"));
        }
        let tokens = tokenize_movetext(movetext.as_slice());
        let (moves, result) = match play_movetext(&mut board, &tokens, Ghost(p)) {
            Ok(v) => v,
            Err(e) => {
                proof {
                    let toks = tokens@.map_values(|t: Vec<char>| t@);
                    let ms = choose|ms: Seq<Move>| ms.len() < first_result(toks, 0) && #[trigger] matches_line(p, ms, toks)
                        && !token_playable(pos_after(p, ms, ms.len() as int), toks[ms.len() as int]);
                    assert(parse_fen(start_fen@) == Some(p));
                    assert(ms.len() < first_result(toks, 0) && matches_line(p, ms, toks));
                    let lines = crate::text::split_on(text@, '\n');
                    let (tg, mt) = collect(lines, lines.len() as int);
                    assert(tg == tv);
                    assert(mt == movetext@);
                    assert(pgn_fen(tg) == start_fen@);
                    assert(tokenize_spec(mt) == toks);
                    let pf = parse_fen(pgn_fen(tg))->0;
                    assert(pf == p);
                    assert(exists|ms2: Seq<Move>| ms2.len() < first_result(tokenize_spec(mt), 0) && #[trigger] matches_line(pf, ms2, tokenize_spec(mt)) && !token_playable(pos_after(pf, ms2, ms2.len() as int), tokenize_spec(mt)[ms2.len() as int]));
                }
                return Err(e);
            },
        };
        Ok(PgnGame { tags, start_fen, moves, result })
    }
}

} // verus!
