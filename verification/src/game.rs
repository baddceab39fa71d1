//! A [`Game`]: a position with its full, navigable move history, kept in
//! step with the board behind intent-level operations (`play_uci`,
//! `play_san`, `undo`, `redo`, `status`, `to_pgn`).

use crate::board::fen::{fen_error, parse_fen};
use crate::board::{Board, Pos, START_FEN};
use crate::engine::{game_status, status_spec, GameStatus};
use crate::movegen::{ep_is_sane, ep_sane, legal, legal_line, legal_moves, lemma_legal_sane, lemma_line_pop, lemma_line_push, lemma_line_sane, pos_after};
use crate::movegen::named::{first_named, lemma_first_named, named_legal, uci_names};
use crate::moves::{parse_uci_trimmed, uci_text, Move, MoveList};
use crate::pgn::{collect, default_tags, first_result, matches_line, pgn_fen, pgn_text, start_of, token_playable, tokenize_spec, PgnGame};
use crate::san::{move_to_san, normalize_spec, san_text, san_to_move};
use crate::text::{extend_str, split_on, str_string, string_from_chars, trim};
use vstd::prelude::*;

verus! {

/// A chess game: a position plus its full, navigable move history.
#[derive(Clone)]
pub struct Game {
    board: Board,
    start_fen: String,
    played: Vec<Move>,
    redo: Vec<Move>,
    /// The starting position.
    start: Ghost<Pos>,
}

/// The undone moves, last undone on top, can be replayed in turn from `q`.
pub open spec fn redo_ok(q: Pos, r: Seq<Move>) -> bool
    decreases r.len(),
{
    r.len() == 0 || (legal(q, r.last()) && redo_ok(q.after(r.last()), r.drop_last()))
}

/// The characters of `pre`, then `mid`, then `post`.
fn message(pre: &str, mid: &str, post: &str) -> (r: String)
    ensures
        r@ == pre@ + mid@ + post@,
{
    let mut v: Vec<char> = Vec::new();
    extend_str(&mut v, pre);
    extend_str(&mut v, mid);
    extend_str(&mut v, post);
    assert(v@ =~= pre@ + mid@ + post@);
    string_from_chars(v.as_slice())
}

/// The game `g` is the one the PGN text `text` holds: started from its
/// FEN, with the moves its movetext names, up to the result, none undone.
pub open spec fn pgn_loaded(g: Game, text: Seq<char>) -> bool {
    let lines = split_on(text, '\n');
    let (tags, mt) = collect(lines, lines.len() as int);
    let fen = pgn_fen(tags);
    let toks = tokenize_spec(mt);
    let k = first_result(toks, 0);
    &&& g.start_fen() == fen
    &&& parse_fen(fen) is Some
    &&& g.start() == parse_fen(fen)->0
    &&& matches_line(g.start(), g.played(), toks)
    &&& g.played().len() == k
    &&& g.undone().len() == 0
}

/// The PGN text `text` cannot be loaded: its FEN does not parse or is not
/// sane, or a move of its movetext cannot be played.
pub open spec fn pgn_refused(text: Seq<char>) -> bool {
    let lines = split_on(text, '\n');
    let (tags, mt) = collect(lines, lines.len() as int);
    let fen = pgn_fen(tags);
    let toks = tokenize_spec(mt);
    let k = first_result(toks, 0);
    parse_fen(fen) is None || !ep_sane(parse_fen(fen)->0) || exists|ms: Seq<Move>|
        ms.len() < k && #[trigger] matches_line(parse_fen(fen)->0, ms, toks) && !token_playable(
        pos_after(parse_fen(fen)->0, ms, ms.len() as int),
        toks[ms.len() as int],
    )
}

impl Game {
    /// The game's consistency: the board holds the played line from the
    /// starting position of the starting FEN, every move was legal, and the
    /// undone moves can be redone.
    pub closed spec fn inv(&self) -> bool {
        let n = self.played@.len() as int;
        &&& self.board.valid()
        &&& self.board.line() == self.played@
        &&& legal_line(self.start@, self.played@)
        &&& self.board.pos() == pos_after(self.start@, self.played@, n)
        &&& forall|i: int| 0 <= i < n ==> #[trigger] self.board.line_before()[i] == pos_after(self.start@, self.played@, i)
        &&& start_of(self.start_fen@) == self.start@
        &&& redo_ok(self.board.pos(), self.redo@)
    }

    /// The current position.
    pub closed spec fn pos(&self) -> Pos {
        self.board.pos()
    }

    /// The moves played, in order.
    pub closed spec fn played(&self) -> Seq<Move> {
        self.played@
    }

    /// The starting position.
    pub closed spec fn start(&self) -> Pos {
        self.start@
    }

    /// The starting FEN.
    pub closed spec fn start_fen(&self) -> Seq<char> {
        self.start_fen@
    }

    /// The undone moves, last undone on top.
    pub closed spec fn undone(&self) -> Seq<Move> {
        self.redo@
    }

    /// The board behind the game.
    pub closed spec fn board_view(&self) -> Board {
        self.board
    }

    /// Every part but the board is that of `o`.
    pub closed spec fn same_but_board(&self, o: &Game) -> bool {
        self.start_fen == o.start_fen && self.played == o.played && self.redo == o.redo && self.start == o.start
    }

    /// `self` is `o` with `m` played: the move ends the history, the undone
    /// moves are dropped, and the position is the one `m` leads to.
    pub open spec fn played_from(&self, o: &Game, m: Move) -> bool {
        &&& self.played() == o.played().push(m)
        &&& self.undone().len() == 0
        &&& self.pos() == o.pos().after(m)
        &&& self.start() == o.start()
        &&& self.start_fen() == o.start_fen()
    }

    /// The current position is well formed with an empty en-passant square.
    pub proof fn lemma_inv(&self)
        requires
            self.inv(),
        ensures
            self.pos().wf(),
            ep_sane(self.pos()),
            self.board_view().wf(),
            self.board_view().pos() == self.pos(),
            legal_line(self.start(), self.played()),
            self.pos() == pos_after(self.start(), self.played(), self.played().len() as int),
            start_of(self.start_fen()) == self.start(),
    {
        lemma_line_sane(self.start@, self.played@, self.played@.len() as int);
    }

    /// A board given back in the state it was lent in keeps the game whole.
    pub proof fn lemma_board_restored(g: &Game, h: &Game)
        requires
            g.inv(),
            h.same_but_board(g),
            h.board_view().wf(),
            h.board_view().same_state(&g.board_view()),
        ensures
            h.inv(),
            h.pos() == g.pos(),
            h.played() == g.played(),
            h.undone() == g.undone(),
            h.start() == g.start(),
            h.start_fen() == g.start_fen(),
    {
    }

    /// The move on top of the undone ones is legal in the current position.
    pub proof fn lemma_redo_legal(&self)
        requires
            self.inv(),
            self.undone().len() > 0,
        ensures
            legal(self.pos(), self.undone().last()),
    {
    }

    /// A new game from the standard starting position.
    pub fn new() -> (g: Game)
        ensures
            g.inv(),
            g.played().len() == 0,
            g.undone().len() == 0,
            g.start_fen() == START_FEN@,
            g.start() == start_of(START_FEN@),
    {
        let board = match Board::from_fen(START_FEN) {
            Ok(b) => b,
            Err(_) => Board::startpos(),
        };
        let ghost s = board.pos();
        proof {
            crate::board::fen::lemma_start_fen_no_ep();
            assert(ep_sane(s));
            assert(board.line() =~= Seq::<Move>::empty());
        }
        Game { board, start_fen: str_string(START_FEN), played: Vec::new(), redo: Vec::new(), start: Ghost(s) }
    }

    /// A new game from a FEN. Fails when the FEN does not parse, or when its
    /// en-passant square is occupied.
    pub fn from_fen(fen: &str) -> (r: Result<Game, String>)
        ensures
            match r {
                Ok(g) => parse_fen(fen@) is Some && ep_sane(parse_fen(fen@)->0) && g.inv() && g.played().len() == 0
                    && g.undone().len() == 0 && g.start_fen() == fen@ && g.start() == parse_fen(fen@)->0,
                Err(e) => match parse_fen(fen@) {
                    None => e@ == fen_error(fen@),
                    Some(p) => !ep_sane(p) && e@ == "invalid en passant square"@,
                },
            },
    {
        let board = match Board::from_fen(fen) {
            Ok(b) => b,
            Err(e) => {
                return Err(e);
            },
        };
        if !ep_is_sane(&board) {
            return Err(str_string("invalid en passant square"));
        }
        let ghost s = board.pos();
        proof {
            assert(board.line() =~= Seq::<Move>::empty());
        }
        Ok(Game { board, start_fen: str_string(fen), played: Vec::new(), redo: Vec::new(), start: Ghost(s) })
    }

    /// The current position, read-only.
    pub fn board(&self) -> (r: &Board)
        ensures
            *r == self.board_view(),
    {
        &self.board
    }

    /// The current position, to lend out (for instance to a search); the
    /// game stays whole when the board is given back in the same state (see
    /// [`Game::lemma_board_restored`]).
    pub fn board_mut(&mut self) -> (r: &mut Board)
        ensures
            *r == old(self).board_view(),
            final(self).board_view() == *final(r),
            final(self).same_but_board(old(self)),
    {
        &mut self.board
    }

    /// The moves played so far, in order.
    pub fn moves(&self) -> (r: &[Move])
        ensures
            r@ == self.played(),
    {
        self.played.as_slice()
    }

    /// The number of moves that can be redone.
    pub fn undone_len(&self) -> (r: usize)
        ensures
            r == self.undone().len(),
    {
        self.redo.len()
    }

    /// The move that [`Game::redo`] would replay.
    pub fn next_redo(&self) -> (m: Move)
        requires
            self.undone().len() > 0,
        ensures
            m == self.undone().last(),
    {
        self.redo[self.redo.len() - 1]
    }

    /// All legal moves in the current position.
    pub fn legal_moves(&self) -> (r: Vec<Move>)
        requires
            self.inv(),
        ensures
            forall|m: Move| #[trigger] r@.contains(m) <==> legal(self.pos(), m),
    {
        proof {
            self.lemma_inv();
        }
        let mut b = self.board.duplicate();
        let mut moves: MoveList = Vec::new();
        legal_moves(&mut b, &mut moves);
        moves
    }

    /// `true` if `mv` is legal right now.
    pub fn is_legal(&self, mv: Move) -> (r: bool)
        requires
            self.inv(),
        ensures
            r == legal(self.pos(), mv),
    {
        let moves = self.legal_moves();
        let mut i: usize = 0;
        while i < moves.len()
            invariant
                i <= moves@.len(),
                forall|j: int| 0 <= j < i ==> moves@[j] != mv,
                forall|m: Move| #[trigger] moves@.contains(m) <==> legal(self.pos(), m),
            decreases moves@.len() - i,
        {
            if moves[i] == mv {
                proof {
                    assert(moves@.contains(mv));
                }
                return true;
            }
            i = i + 1;
        }
        proof {
            if moves@.contains(mv) {
                let j = choose|j: int| 0 <= j < moves@.len() && moves@[j] == mv;
            }
        }
        false
    }

    /// Play a fully specified move; fails, leaving the game as it was, when
    /// it is not legal.
    pub fn play(&mut self, mv: Move) -> (r: Result<(), String>)
        requires
            old(self).inv(),
        ensures
            final(self).inv(),
            match r {
                Ok(_) => legal(old(self).pos(), mv) && final(self).played_from(old(self), mv),
                Err(e) => !legal(old(self).pos(), mv) && *final(self) == *old(self) && e@ == "illegal move "@
                    + uci_text(mv),
            },
    {
        if !self.is_legal(mv) {
            let mut v: Vec<char> = Vec::new();
            extend_str(&mut v, "illegal move ");
            mv.push_uci(&mut v);
            return Err(string_from_chars(v.as_slice()));
        }
        let ghost g0 = *self;
        let ghost n = self.played@.len() as int;
        proof {
            g0.lemma_inv();
            lemma_legal_sane(g0.pos(), mv);
            lemma_line_push(g0.start@, g0.played@, mv);
        }
        self.board.make_move_struct(mv);
        self.played.push(mv);
        self.redo.clear();
        proof {
            assert(self.board.line() =~= self.played@);
            assert forall|i: int| 0 <= i < n + 1 implies #[trigger] self.board.line_before()[i] == pos_after(
                self.start@,
                self.played@,
                i,
            ) by {
                assert(pos_after(self.start@, self.played@, i) == pos_after(g0.start@, g0.played@, i));
                if i < n {
                    assert(g0.board.line_before()[i] == pos_after(g0.start@, g0.played@, i));
                }
            }
        }
        Ok(())
    }

    /// Play a move given in UCI notation (`e2e4`, `e7e8q`). The text is
    /// resolved against the legal moves, so a promotion letter gives the
    /// mover's piece: `a2a1q` by Black promotes to a black queen. Fails,
    /// leaving the game as it was, on text that names no move
    /// (`bad UCI '..'`) or no legal move here (`illegal move '..'`).
    pub fn play_uci(&mut self, uci: &str) -> (r: Result<(), String>)
        requires
            old(self).inv(),
        ensures
            final(self).inv(),
            match parse_uci_trimmed(trim(uci@)) {
                None => *final(self) == *old(self) && (r matches Err(e) && e@ == "bad UCI '"@ + uci@ + "'"@),
                Some(q) => match named_legal(old(self).pos(), q) {
                    Some(m) => r is Ok && legal(old(self).pos(), m) && uci_names(m, q)
                        && final(self).played_from(old(self), m),
                    None => *final(self) == *old(self) && (r matches Err(e) && e@ == "illegal move '"@ + uci@
                        + "'"@),
                },
            },
    {
        let parsed = match Move::from_uci(uci) {
            Some(m) => m,
            None => {
                return Err(message("bad UCI '", uci, "'"));
            },
        };
        let moves = self.legal_moves();
        let found = first_named(&moves, parsed);
        proof {
            lemma_first_named(self.pos(), moves@, parsed, found);
        }
        match found {
            Some(m) => self.play(m),
            None => Err(message("illegal move '", uci, "'")),
        }
    }

    /// Play a move given in SAN (`Nf3`, `exd5`, `O-O`), read as
    /// [`san_to_move`] reads it. Fails, leaving the game as it was, when no
    /// legal move reads so (`illegal SAN '..'`).
    pub fn play_san(&mut self, san: &str) -> (r: Result<(), String>)
        requires
            old(self).inv(),
        ensures
            final(self).inv(),
            match r {
                Ok(_) => {
                    let m = final(self).played().last();
                    &&& legal(old(self).pos(), m)
                    &&& normalize_spec(san_text(old(self).pos(), m)) == normalize_spec(san@)
                    &&& normalize_spec(san@).len() > 0
                    &&& final(self).played_from(old(self), m)
                },
                Err(e) => {
                    &&& *final(self) == *old(self)
                    &&& e@ == "illegal SAN '"@ + san@ + "'"@
                    &&& (normalize_spec(san@).len() == 0 || !exists|m: Move| legal(old(self).pos(), m)
                        && normalize_spec(san_text(old(self).pos(), m)) == normalize_spec(san@))
                },
            },
    {
        proof {
            self.lemma_inv();
        }
        let mv = match san_to_move(&self.board, san) {
            Some(m) => m,
            None => {
                return Err(message("illegal SAN '", san, "'"));
            },
        };
        proof {
            lemma_legal_sane(self.pos(), mv);
        }
        self.play(mv)
    }

    /// Undo the last move, keeping it to be redone; `true` if there was one.
    pub fn undo(&mut self) -> (r: bool)
        requires
            old(self).inv(),
        ensures
            final(self).inv(),
            r == (old(self).played().len() > 0),
            !r ==> *final(self) == *old(self),
            r ==> {
                &&& final(self).played() == old(self).played().drop_last()
                &&& final(self).undone() == old(self).undone().push(old(self).played().last())
                &&& final(self).pos() == pos_after(old(self).start(), old(self).played(), old(self).played().len() - 1)
                &&& final(self).start() == old(self).start()
                &&& final(self).start_fen() == old(self).start_fen()
            },
    {
        let ghost g0 = *self;
        if self.played.len() == 0 {
            return false;
        }
        let ghost n = self.played@.len() as int;
        proof {
            g0.lemma_inv();
            lemma_line_pop(g0.start@, g0.played@);
            assert(g0.board.line_before()[n - 1] == pos_after(g0.start@, g0.played@, n - 1));
            assert(legal(pos_after(g0.start@, g0.played@, n - 1), g0.played@[n - 1]));
        }
        let mv = match self.played.pop() {
            Some(m) => m,
            None => {
                return false;
            },
        };
        self.board.unmake_move();
        self.redo.push(mv);
        proof {
            assert(self.board.line() =~= self.played@);
            assert(self.redo@.drop_last() =~= g0.redo@);
            assert forall|i: int| 0 <= i < n - 1 implies #[trigger] self.board.line_before()[i] == pos_after(
                self.start@,
                self.played@,
                i,
            ) by {
                assert(g0.board.line_before()[i] == pos_after(g0.start@, g0.played@, i));
            }
        }
        true
    }

    /// Replay the most recently undone move; `true` if there was one.
    pub fn redo(&mut self) -> (r: bool)
        requires
            old(self).inv(),
        ensures
            final(self).inv(),
            r == (old(self).undone().len() > 0),
            !r ==> *final(self) == *old(self),
            r ==> {
                &&& legal(old(self).pos(), old(self).undone().last())
                &&& final(self).played() == old(self).played().push(old(self).undone().last())
                &&& final(self).undone() == old(self).undone().drop_last()
                &&& final(self).pos() == old(self).pos().after(old(self).undone().last())
                &&& final(self).start() == old(self).start()
                &&& final(self).start_fen() == old(self).start_fen()
            },
    {
        let ghost g0 = *self;
        if self.redo.len() == 0 {
            return false;
        }
        let ghost n = self.played@.len() as int;
        proof {
            g0.lemma_inv();
            let m = g0.redo@.last();
            assert(legal(g0.pos(), m));
            lemma_legal_sane(g0.pos(), m);
            lemma_line_push(g0.start@, g0.played@, m);
        }
        let mv = match self.redo.pop() {
            Some(m) => m,
            None => {
                return false;
            },
        };
        self.board.make_move_struct(mv);
        self.played.push(mv);
        proof {
            assert(self.board.line() =~= self.played@);
            assert forall|i: int| 0 <= i < n + 1 implies #[trigger] self.board.line_before()[i] == pos_after(
                self.start@,
                self.played@,
                i,
            ) by {
                assert(pos_after(self.start@, self.played@, i) == pos_after(g0.start@, g0.played@, i));
                if i < n {
                    assert(g0.board.line_before()[i] == pos_after(g0.start@, g0.played@, i));
                }
            }
        }
        true
    }

    /// The game's status (ongoing, mate, stalemate, or a draw rule).
    pub fn status(&self) -> (r: GameStatus)
        requires
            self.inv(),
        ensures
            r == status_spec(self.board_view()),
    {
        proof {
            self.lemma_inv();
        }
        let mut b = self.board.duplicate();
        game_status(&mut b)
    }

    /// `true` if the game has ended (mate, stalemate, or a draw rule).
    pub fn is_over(&self) -> (r: bool)
        requires
            self.inv(),
        ensures
            r == !(status_spec(self.board_view()) is Ongoing),
    {
        match self.status() {
            GameStatus::Ongoing => false,
            _ => true,
        }
    }

    /// The moves played, each in SAN in the position it was played from.
    #[verifier::rlimit(40)]
    pub fn san_history(&self) -> (r: Vec<String>)
        requires
            self.inv(),
        ensures
            r@.len() == self.played().len(),
            forall|i: int| 0 <= i < r@.len() ==> #[trigger] r@[i]@ == san_text(
                pos_after(self.start(), self.played(), i),
                self.played()[i],
            ),
    {
        proof {
            self.lemma_inv();
        }
        let ghost p = self.start@;
        let mut b = match Board::from_fen(self.start_fen.as_str()) {
            Ok(b) => b,
            Err(_) => Board::startpos(),
        };
        let mut out: Vec<String> = Vec::new();
        let mut i: usize = 0;
        while i < self.played.len()
            invariant
                i <= self.played@.len(),
                legal_line(p, self.played@),
                b.wf(),
                b.pos() == pos_after(p, self.played@, i as int),
                out@.len() == i,
                forall|j: int| 0 <= j < i ==> #[trigger] out@[j]@ == san_text(pos_after(p, self.played@, j), self.played@[j]),
            decreases self.played@.len() - i,
        {
            let mv = self.played[i];
            proof {
                lemma_line_sane(p, self.played@, i as int);
                assert(legal(pos_after(p, self.played@, i as int), mv));
                lemma_legal_sane(pos_after(p, self.played@, i as int), mv);
            }
            let s = move_to_san(&b, mv);
            out.push(s);
            b.make_move_struct(mv);
            i = i + 1;
        }
        out
    }

    /// The game as PGN text: the default tags, the starting FEN when it is
    /// not the standard one, and the numbered SAN movetext ending in `*`.
    pub fn to_pgn(&self) -> (r: String)
        requires
            self.inv(),
            self.start().fullmove + self.played().len() < u32::MAX,
        ensures
            r@ == pgn_text(default_tags(), self.start_fen(), self.played(), "*"@),
    {
        let mut moves: Vec<Move> = Vec::new();
        let mut i: usize = 0;
        while i < self.played.len()
            invariant
                i <= self.played@.len(),
                moves@ == self.played@.subrange(0, i as int),
            decreases self.played@.len() - i,
        {
            moves.push(self.played[i]);
            i = i + 1;
        }
        proof {
            assert(moves@ =~= self.played@);
        }
        let g = PgnGame::from_moves(self.start_fen.as_str(), moves);
        g.to_pgn()
    }

    /// Replace the game by the one PGN text `text` holds, as
    /// [`PgnGame::parse`] reads it; on failure the game is left as it was.
    pub fn load_pgn(&mut self, text: &str) -> (r: Result<(), String>)
        requires
            old(self).inv(),
        ensures
            final(self).inv(),
            match r {
                Ok(_) => pgn_loaded(*final(self), text@),
                Err(_) => *final(self) == *old(self) && pgn_refused(text@),
            },
    {
        let parsed = match PgnGame::parse(text) {
            Ok(g) => g,
            Err(e) => {
                return Err(e);
            },
        };
        let mut board = match Board::from_fen(parsed.start_fen.as_str()) {
            Ok(b) => b,
            Err(e) => {
                return Err(e);
            },
        };
        let ghost p = board.pos();
        let ghost ms = parsed.moves@;
        proof {
            assert(board.line() =~= ms.subrange(0, 0));
        }
        let mut i: usize = 0;
        while i < parsed.moves.len()
            invariant
                i <= ms.len(),
                ms == parsed.moves@,
                legal_line(p, ms),
                board.valid(),
                board.pos() == pos_after(p, ms, i as int),
                board.line() == ms.subrange(0, i as int),
                forall|j: int| 0 <= j < i ==> #[trigger] board.line_before()[j] == pos_after(p, ms, j),
            decreases ms.len() - i,
        {
            let mv = parsed.moves[i];
            proof {
                lemma_line_sane(p, ms, i as int);
                assert(legal(pos_after(p, ms, i as int), mv));
                lemma_legal_sane(pos_after(p, ms, i as int), mv);
            }
            let ghost b0 = board;
            board.make_move_struct(mv);
            proof {
                assert(board.line() =~= ms.subrange(0, i as int + 1));
                assert forall|j: int| 0 <= j < i + 1 implies #[trigger] board.line_before()[j] == pos_after(p, ms, j) by {
                    if j < i {
                        assert(b0.line_before()[j] == pos_after(p, ms, j));
                    }
                }
            }
            i = i + 1;
        }
        proof {
            assert(ms.subrange(0, ms.len() as int) =~= ms);
        }
        self.start_fen = parsed.start_fen;
        self.board = board;
        self.played = parsed.moves;
        self.redo.clear();
        self.start = Ghost(p);
        Ok(())
    }
}

impl Default for Game {
    /// A new game from the standard starting position.
    fn default() -> (g: Game)
        ensures
            g.inv(),
            g.played().len() == 0,
            g.undone().len() == 0,
            g.start_fen() == START_FEN@,
            g.start() == start_of(START_FEN@),
    {
        Game::new()
    }
}

} // verus!
