//! [`GameController`] owns the game being played and keeps the position, the
//! move list, and the undo/redo history in step: it records moves in SAN,
//! plays engine moves from a real search, detects the end of the game, and
//! turns games into PGN text and back. Screens, prompts, and files are left
//! to the front end.

use crate::board::fen::parse_fen;
use crate::board::{Board, Pos, START_FEN};
use crate::engine::{status_spec, GameStatus};
use crate::game::{pgn_loaded, pgn_refused, Game};
use crate::movegen::{ep_sane, legal, legal_moves, lemma_legal_sane, pos_after};
use crate::movegen::named::{first_named, lemma_first_named, uci_choice};
use crate::moves::{parse_uci_trimmed, Move, MoveList};
use crate::pgn::{default_tags, pgn_text, start_of};
use crate::san::{move_to_san, normalize_spec, san_text, san_to_move};
use crate::search::{result_ok, search, search_outcome, some_legal, SearchLimits, SearchResult};
use crate::text::{chars_eq_str, extend_str, split_whitespace, split_ws, str_chars, str_string, string_from_chars, trim};
use crate::types::Color;
use vstd::prelude::*;

verus! {

/// How a finished game ended.
#[derive(Clone, Copy, Debug, PartialEq, Eq, Structural)]
pub enum GameResult {
    WhiteWins,
    BlackWins,
    Stalemate,
    Draw,
}

/// The result that a game status stands for; `None` while the game goes on.
pub open spec fn result_of(s: GameStatus) -> Option<GameResult> {
    match s {
        GameStatus::Ongoing => None,
        GameStatus::Checkmate { winner } => Some(
            if winner == Color::White {
                GameResult::WhiteWins
            } else {
                GameResult::BlackWins
            },
        ),
        GameStatus::Stalemate => Some(GameResult::Stalemate),
        _ => Some(GameResult::Draw),
    }
}

/// The SAN of the moves of `pv` from `p`, up to the first one that is not
/// legal where it stands.
pub open spec fn pv_san(p: Pos, pv: Seq<Move>) -> Seq<Seq<char>>
    decreases pv.len(),
{
    if pv.len() == 0 || !legal(p, pv[0]) {
        seq![]
    } else {
        seq![san_text(p, pv[0])] + pv_san(p.after(pv[0]), pv.drop_first())
    }
}

/// Words joined by single spaces.
pub open spec fn join_words(w: Seq<Seq<char>>) -> Seq<char>
    decreases w.len(),
{
    if w.len() == 0 {
        seq![]
    } else if w.len() == 1 {
        w[0]
    } else {
        join_words(w.drop_last()) + seq![' '] + w.last()
    }
}

/// What a player's command line asks of the game, once the controller has
/// done its part: a move played (with its SAN), a move taken back or
/// replayed, one of the screens the front end shows, a question it must
/// confirm first, a refusal with its message, or nothing typed.
#[derive(Clone, Debug, PartialEq, Eq)]
pub enum HumanAction {
    Played(String),
    Undone,
    Redone(Option<String>),
    Hint,
    Analyze,
    Eval,
    Fen,
    Flip,
    Save,
    ConfirmResign,
    ConfirmQuit,
    Help,
    Error(String),
    Empty,
}

/// The text `s` was read as the move last played in `n`, which follows `o`
/// by that move, with `san` its SAN: the legal move that `s` names in UCI,
/// or else the legal move whose SAN `s` matches.
pub open spec fn accepted_text(o: Game, n: Game, s: Seq<char>, san: Seq<char>) -> bool {
    let p = o.pos();
    let m = n.played().last();
    &&& legal(p, m)
    &&& n.played_from(&o, m)
    &&& san == san_text(p, m)
    &&& match uci_choice(p, s) {
        Some(u) => m == u,
        None => normalize_spec(san_text(p, m)) == normalize_spec(s) && normalize_spec(s).len() > 0,
    }
}

/// The text `s` names no legal move of `o`, neither in UCI nor in SAN.
pub open spec fn refused_text(o: Game, s: Seq<char>) -> bool {
    let p = o.pos();
    &&& uci_choice(p, s) is None
    &&& (normalize_spec(s).len() == 0 || !exists|m: Move| legal(p, m) && normalize_spec(san_text(p, m))
        == normalize_spec(s))
}

/// `n` is `o` with its last move taken back (`o` itself when nothing was
/// played).
pub open spec fn undo_step(o: Game, n: Game) -> bool {
    &&& o.played().len() == 0 ==> n == o
    &&& o.played().len() > 0 ==> n.played() == o.played().drop_last() && n.undone() == o.undone().push(
        o.played().last(),
    )
}

/// `n` is `o` with its last move taken back replayed, `r` giving its SAN;
/// `r` is `None`, and `n` is `o`, when nothing was taken back.
pub open spec fn redo_step(o: Game, n: Game, r: Option<String>) -> bool {
    match r {
        Some(san) => {
            let m = o.undone().last();
            &&& o.undone().len() > 0
            &&& n.played() == o.played().push(m)
            &&& n.undone() == o.undone().drop_last()
            &&& san@ == san_text(o.pos(), m)
        },
        None => o.undone().len() == 0 && n == o,
    }
}

/// A move typed as text `s` and tried on `o`, giving `n`, came back as
/// `r`: played, or refused with `prefix` before the refusal message.
pub open spec fn typed_move(o: Game, n: Game, s: Seq<char>, r: HumanAction, prefix: Seq<char>) -> bool {
    match r {
        HumanAction::Played(san) => accepted_text(o, n, s, san@),
        HumanAction::Error(e) => n == o && e@ == prefix + "illegal or unrecognized move '"@ + s + "'"@
            && refused_text(o, s),
        _ => false,
    }
}

/// The action for a command word that only shows something or asks for a
/// confirmation, if `w` is one.
pub open spec fn screen_action(w: Seq<char>) -> Option<HumanAction> {
    if w == "hint"@ || w == "h"@ {
        Some(HumanAction::Hint)
    } else if w == "analyze"@ {
        Some(HumanAction::Analyze)
    } else if w == "eval"@ {
        Some(HumanAction::Eval)
    } else if w == "fen"@ {
        Some(HumanAction::Fen)
    } else if w == "flip"@ || w == "f"@ {
        Some(HumanAction::Flip)
    } else if w == "save"@ {
        Some(HumanAction::Save)
    } else if w == "resign"@ {
        Some(HumanAction::ConfirmResign)
    } else if w == "menu"@ || w == "quit"@ || w == "exit"@ {
        Some(HumanAction::ConfirmQuit)
    } else if w == "help"@ {
        Some(HumanAction::Help)
    } else {
        None
    }
}

/// What the command line with words `w` does to the game `o`, giving `n`,
/// when it comes back as `r`: `move`/`m` plays the next word, `undo`/`u`
/// and `redo`/`r` step back and forward, a screen word changes nothing,
/// and any other first word is tried as a move.
pub open spec fn human_outcome(o: Game, n: Game, w: Seq<Seq<char>>, r: HumanAction) -> bool {
    if w.len() == 0 {
        r == HumanAction::Empty && n == o
    } else {
        let cmd = w[0];
        if cmd == "move"@ || cmd == "m"@ {
            if w.len() < 2 {
                (r matches HumanAction::Error(e) && e@ == "Usage: move e2e4"@) && n == o
            } else {
                typed_move(o, n, w[1], r, seq![])
            }
        } else if cmd == "undo"@ || cmd == "u"@ {
            r == HumanAction::Undone && undo_step(o, n)
        } else if cmd == "redo"@ || cmd == "r"@ {
            r matches HumanAction::Redone(x) && redo_step(o, n, x)
        } else if screen_action(cmd) is Some {
            r == screen_action(cmd)->0 && n == o
        } else {
            typed_move(o, n, cmd, r, "Invalid command or move: "@)
        }
    }
}

/// The game being played, and whether it is still on.
pub struct GameController {
    game: Game,
    game_active: bool,
}

impl GameController {
    /// The controller's consistency: the game's.
    pub closed spec fn inv(&self) -> bool {
        self.game.inv()
    }

    /// The game.
    pub closed spec fn game_view(&self) -> Game {
        self.game
    }

    /// The game is still on.
    pub closed spec fn active(&self) -> bool {
        self.game_active
    }

    /// A controller with a new game from the standard position, not yet
    /// started.
    pub fn new() -> (c: GameController)
        ensures
            c.inv(),
            !c.active(),
            c.game_view().played().len() == 0,
            c.game_view().undone().len() == 0,
            c.game_view().start_fen() == START_FEN@,
    {
        GameController { game: Game::new(), game_active: false }
    }

    /// The current position.
    pub fn board(&self) -> (r: &Board)
        ensures
            *r == self.game_view().board_view(),
    {
        self.game.board()
    }

    /// `true` while the game is on.
    pub fn is_active(&self) -> (r: bool)
        ensures
            r == self.active(),
    {
        self.game_active
    }

    /// Ends the game (a resignation, or leaving it).
    pub fn stop(&mut self)
        ensures
            final(self).game_view() == old(self).game_view(),
            !final(self).active(),
    {
        self.game_active = false;
    }

    /// Starts a new game from the standard position.
    pub fn reset_game(&mut self)
        ensures
            final(self).inv(),
            final(self).active(),
            final(self).game_view().played().len() == 0,
            final(self).game_view().undone().len() == 0,
            final(self).game_view().start_fen() == START_FEN@,
    {
        self.game = Game::new();
        self.game_active = true;
    }

    /// Plays the legal move `mv` and gives its SAN, computed in the position
    /// it is played from.
    pub fn commit(&mut self, mv: Move) -> (san: String)
        requires
            old(self).inv(),
            legal(old(self).game_view().pos(), mv),
        ensures
            final(self).inv(),
            final(self).active() == old(self).active(),
            final(self).game_view().played_from(&old(self).game_view(), mv),
            san@ == san_text(old(self).game_view().pos(), mv),
    {
        proof {
            self.game.lemma_inv();
            lemma_legal_sane(self.game.pos(), mv);
        }
        let san = move_to_san(self.game.board(), mv);
        match self.game.play(mv) {
            Ok(()) => {},
            Err(_) => {},
        }
        san
    }

    /// Takes back the last move, if any.
    pub fn undo(&mut self)
        requires
            old(self).inv(),
        ensures
            final(self).inv(),
            final(self).active() == old(self).active(),
            undo_step(old(self).game_view(), final(self).game_view()),
    {
        self.game.undo();
    }

    /// Replays the last move taken back, if any, and gives its SAN.
    pub fn redo_last(&mut self) -> (r: Option<String>)
        requires
            old(self).inv(),
        ensures
            final(self).inv(),
            final(self).active() == old(self).active(),
            redo_step(old(self).game_view(), final(self).game_view(), r),
    {
        if self.game.undone_len() == 0 {
            return None;
        }
        let mv = self.game.next_redo();
        proof {
            self.game.lemma_inv();
            self.game.lemma_redo_legal();
            lemma_legal_sane(self.game.pos(), mv);
        }
        let san = move_to_san(self.game.board(), mv);
        self.game.redo();
        Some(san)
    }

    /// The moves played, in SAN.
    pub fn history_san(&self) -> (r: Vec<String>)
        requires
            self.inv(),
        ensures
            r@.len() == self.game_view().played().len(),
            forall|i: int| 0 <= i < r@.len() ==> #[trigger] r@[i]@ == san_text(
                pos_after(self.game_view().start(), self.game_view().played(), i),
                self.game_view().played()[i],
            ),
    {
        self.game.san_history()
    }

    /// The legal move that the UCI text `s` names, if any.
    pub fn parse_uci_legal(&self, s: &str) -> (r: Option<Move>)
        requires
            self.inv(),
        ensures
            r == uci_choice(self.game_view().pos(), s@),
            r matches Some(m) ==> legal(self.game_view().pos(), m),
    {
        match Move::from_uci(s) {
            Some(q) => {
                let moves = self.game.legal_moves();
                let found = first_named(&moves, q);
                proof {
                    lemma_first_named(self.game_view().pos(), moves@, q, found);
                }
                found
            },
            None => None,
        }
    }

    /// Plays a move typed in UCI (`e2e4`) or, failing that, in SAN (`Nf3`),
    /// and gives its SAN; fails with `illegal or unrecognized move '..'`
    /// when neither reads as a legal move, leaving the game as it was.
    pub fn try_play(&mut self, s: &str) -> (r: Result<String, String>)
        requires
            old(self).inv(),
        ensures
            final(self).inv(),
            final(self).active() == old(self).active(),
            match r {
                Ok(san) => accepted_text(old(self).game_view(), final(self).game_view(), s@, san@),
                Err(e) => {
                    &&& final(self).game_view() == old(self).game_view()
                    &&& e@ == "illegal or unrecognized move '"@ + s@ + "'"@
                    &&& refused_text(old(self).game_view(), s@)
                },
            },
    {
        proof {
            self.game.lemma_inv();
        }
        let mv = match self.parse_uci_legal(s) {
            Some(m) => m,
            None => match san_to_move(self.game.board(), s) {
                Some(m) => m,
                None => {
                    let mut v: Vec<char> = Vec::new();
                    extend_str(&mut v, "illegal or unrecognized move '");
                    extend_str(&mut v, s);
                    extend_str(&mut v, "'");
                    return Err(string_from_chars(v.as_slice()));
                },
            },
        };
        let san = self.commit(mv);
        Ok(san)
    }

    /// Takes one command line from the player whose turn it is (see
    /// [`human_outcome`]) and does the game's part of it; the front end
    /// shows what the returned action names, confirms a resignation or a
    /// quit, and asks again after anything but a move played, taken back,
    /// or replayed.
    pub fn human_command(&mut self, line: &str) -> (r: HumanAction)
        requires
            old(self).inv(),
        ensures
            final(self).inv(),
            final(self).active() == old(self).active(),
            human_outcome(old(self).game_view(), final(self).game_view(), split_ws(line@), r),
    {
        let chars = str_chars(line);
        let toks = split_whitespace(chars.as_slice());
        let ghost w = split_ws(line@);
        if toks.len() == 0 {
            return HumanAction::Empty;
        }
        proof {
            assert(toks@[0]@ == w[0]);
        }
        let cmd = toks[0].as_slice();
        if chars_eq_str(cmd, "move") || chars_eq_str(cmd, "m") {
            if toks.len() < 2 {
                return HumanAction::Error(str_string("Usage: move e2e4"));
            }
            proof {
                assert(toks@[1]@ == w[1]);
            }
            let s = string_from_chars(toks[1].as_slice());
            let r = match self.try_play(s.as_str()) {
                Ok(san) => HumanAction::Played(san),
                Err(e) => HumanAction::Error(e),
            };
            proof {
                assert(Seq::<char>::empty() + "illegal or unrecognized move '"@ =~= "illegal or unrecognized move '"@);
            }
            r
        } else if chars_eq_str(cmd, "undo") || chars_eq_str(cmd, "u") {
            self.undo();
            HumanAction::Undone
        } else if chars_eq_str(cmd, "redo") || chars_eq_str(cmd, "r") {
            HumanAction::Redone(self.redo_last())
        } else if chars_eq_str(cmd, "hint") || chars_eq_str(cmd, "h") {
            HumanAction::Hint
        } else if chars_eq_str(cmd, "analyze") {
            HumanAction::Analyze
        } else if chars_eq_str(cmd, "eval") {
            HumanAction::Eval
        } else if chars_eq_str(cmd, "fen") {
            HumanAction::Fen
        } else if chars_eq_str(cmd, "flip") || chars_eq_str(cmd, "f") {
            HumanAction::Flip
        } else if chars_eq_str(cmd, "save") {
            HumanAction::Save
        } else if chars_eq_str(cmd, "resign") {
            HumanAction::ConfirmResign
        } else if chars_eq_str(cmd, "menu") || chars_eq_str(cmd, "quit") || chars_eq_str(cmd, "exit") {
            HumanAction::ConfirmQuit
        } else if chars_eq_str(cmd, "help") {
            HumanAction::Help
        } else {
            let s = string_from_chars(cmd);
            match self.try_play(s.as_str()) {
                Ok(san) => HumanAction::Played(san),
                Err(e) => {
                    let mut v: Vec<char> = Vec::new();
                    extend_str(&mut v, "Invalid command or move: ");
                    extend_str(&mut v, e.as_str());
                    proof {
                        assert(v@ =~= "Invalid command or move: "@ + "illegal or unrecognized move '"@ + s@ + "'"@);
                    }
                    HumanAction::Error(string_from_chars(v.as_slice()))
                },
            }
        }
    }

    /// How the game has ended, if it has.
    pub fn check_game_end(&self) -> (r: Option<GameResult>)
        requires
            self.inv(),
        ensures
            r == result_of(status_spec(self.game_view().board_view())),
    {
        match self.game.status() {
            GameStatus::Ongoing => None,
            GameStatus::Checkmate { winner } => Some(
                if winner == Color::White {
                    GameResult::WhiteWins
                } else {
                    GameResult::BlackWins
                },
            ),
            GameStatus::Stalemate => Some(GameResult::Stalemate),
            GameStatus::DrawFiftyMove => Some(GameResult::Draw),
            GameStatus::DrawRepetition => Some(GameResult::Draw),
            GameStatus::DrawInsufficientMaterial => Some(GameResult::Draw),
        }
    }

    /// Searches the position with `limits` and plays the best move, giving
    /// it with the search result; when the search has no move the game
    /// stops and `None` comes back.
    pub fn engine_play_move(&mut self, limits: SearchLimits) -> (r: Option<(String, SearchResult)>)
        requires
            old(self).inv(),
            limits.max_depth <= 46340,
        ensures
            final(self).inv(),
            match r {
                Some((san, res)) => {
                    let p = old(self).game_view().pos();
                    &&& search_outcome(res, p, limits)
                    &&& res.best_move matches Some(m)
                    &&& final(self).game_view().played_from(&old(self).game_view(), m)
                    &&& san@ == san_text(p, m)
                    &&& final(self).active() == old(self).active()
                },
                None => !final(self).active() && final(self).game_view().pos() == old(self).game_view().pos()
                    && final(self).game_view().played() == old(self).game_view().played(),
            },
            limits.movetime_ms is None && limits.max_depth >= 1 && some_legal(old(self).game_view().pos()) ==> r is Some,
    {
        proof {
            self.game.lemma_inv();
        }
        let ghost g0 = self.game;
        let res = {
            let b = self.game.board_mut();
            search(b, limits)
        };
        proof {
            Game::lemma_board_restored(&g0, &self.game);
        }
        match res.best_move {
            Some(mv) => {
                let san = self.commit(mv);
                Some((san, res))
            },
            None => {
                self.game_active = false;
                None
            },
        }
    }

    /// The principal variation `pv` in SAN, separated by spaces, up to its
    /// first move that is not legal where it stands.
    #[verifier::spinoff_prover]
    #[verifier::rlimit(50)]
    pub fn pv_to_san(&self, pv: &[Move]) -> (r: String)
        requires
            self.inv(),
        ensures
            r@ == join_words(pv_san(self.game_view().pos(), pv@)),
    {
        proof {
            self.game.lemma_inv();
        }
        let mut b = self.game.board().duplicate();
        let ghost p0 = b.pos();
        let mut words: Vec<String> = Vec::new();
        let ghost mut ws: Seq<Seq<char>> = seq![];
        let mut i: usize = 0;
        proof {
            assert(pv@.subrange(0, pv@.len() as int) =~= pv@);
            assert(ws + pv_san(p0, pv@) =~= pv_san(p0, pv@));
        }
        while i < pv.len()
            invariant
                i <= pv@.len(),
                b.wf(),
                ep_sane(b.pos()),
                words@.len() == ws.len(),
                forall|k: int| 0 <= k < ws.len() ==> #[trigger] words@[k]@ == ws[k],
                pv_san(p0, pv@) == ws + pv_san(b.pos(), pv@.subrange(i as int, pv@.len() as int)),
            ensures
                words@.len() == ws.len(),
                forall|k: int| 0 <= k < ws.len() ==> #[trigger] words@[k]@ == ws[k],
                pv_san(p0, pv@) == ws,
            decreases pv@.len() - i,
        {
            let mv = pv[i];
            let ghost rest = pv@.subrange(i as int, pv@.len() as int);
            proof {
                if i + 1 == pv@.len() {
                    assert(pv@.subrange(i as int + 1, pv@.len() as int) =~= Seq::<Move>::empty());
                }
            }
            let ghost q = b.pos();
            if !is_legal_on(&mut b, mv) {
                proof {
                    assert(rest[0] == mv);
                    assert(pv_san(q, rest) =~= Seq::<Seq<char>>::empty());
                    assert(ws + Seq::<Seq<char>>::empty() =~= ws);
                }
                break;
            }
            proof {
                lemma_legal_sane(q, mv);
                assert(rest.drop_first() =~= pv@.subrange(i as int + 1, pv@.len() as int));
                assert(rest[0] == mv);
            }
            let san = move_to_san(&b, mv);
            proof {
                assert(pv_san(q, rest) == seq![san_text(q, mv)] + pv_san(q.after(mv), rest.drop_first()));
                assert(ws.push(san@) + pv_san(q.after(mv), rest.drop_first()) =~= ws + pv_san(q, rest));
                ws = ws.push(san@);
            }
            words.push(san);
            b.make_move_struct(mv);
            i = i + 1;
        }
        join_strings(&words, Ghost(ws))
    }

    /// The game as PGN text.
    pub fn pgn_text(&self) -> (r: String)
        requires
            self.inv(),
            self.game_view().start().fullmove + self.game_view().played().len() < u32::MAX,
        ensures
            r@ == pgn_text(default_tags(), self.game_view().start_fen(), self.game_view().played(), "*"@),
    {
        self.game.to_pgn()
    }

    /// Replaces the game by the one PGN text `text` holds and starts it; on
    /// failure the controller is left as it was. Gives the number of moves
    /// read.
    pub fn load_pgn_text(&mut self, text: &str) -> (r: Result<usize, String>)
        requires
            old(self).inv(),
        ensures
            final(self).inv(),
            match r {
                Ok(n) => n == final(self).game_view().played().len() && final(self).active() && pgn_loaded(
                    final(self).game_view(),
                    text@,
                ),
                Err(_) => final(self).game_view() == old(self).game_view() && final(self).active() == old(
                    self,
                ).active() && pgn_refused(text@),
            },
    {
        match self.game.load_pgn(text) {
            Ok(()) => {
                self.game_active = true;
                Ok(self.game.moves().len())
            },
            Err(e) => Err(e),
        }
    }
}

/// `true` if `mv` is legal on `board`.
fn is_legal_on(board: &mut Board, mv: Move) -> (r: bool)
    requires
        old(board).wf(),
        ep_sane(old(board).pos()),
    ensures
        final(board).wf(),
        final(board).same_state(old(board)),
        r == legal(old(board).pos(), mv),
{
    let mut list: MoveList = Vec::new();
    legal_moves(board, &mut list);
    let mut found = false;
    let mut j: usize = 0;
    while j < list.len()
        invariant
            j <= list@.len(),
            found == list@.subrange(0, j as int).contains(mv),
        decreases list@.len() - j,
    {
        proof {
            lemma_contains_step(list@, j as int, mv);
        }
        if list[j] == mv {
            found = true;
        }
        j = j + 1;
    }
    proof {
        assert(list@.subrange(0, list@.len() as int) =~= list@);
    }
    found
}

/// The words joined by single spaces.
fn join_strings(words: &Vec<String>, Ghost(ws): Ghost<Seq<Seq<char>>>) -> (r: String)
    requires
        words@.len() == ws.len(),
        forall|k: int| 0 <= k < ws.len() ==> #[trigger] words@[k]@ == ws[k],
    ensures
        r@ == join_words(ws),
{
    let mut out: Vec<char> = Vec::new();
    let mut k: usize = 0;
    while k < words.len()
        invariant
            k <= words@.len(),
            words@.len() == ws.len(),
            forall|i: int| 0 <= i < ws.len() ==> #[trigger] words@[i]@ == ws[i],
            out@ == join_words(ws.subrange(0, k as int)),
        decreases words@.len() - k,
    {
        if k > 0 {
            out.push(' ');
        }
        extend_str(&mut out, words[k].as_str());
        proof {
            let sub = ws.subrange(0, k as int + 1);
            assert(sub.drop_last() =~= ws.subrange(0, k as int));
            assert(sub.last() == words@[k as int]@);
            assert(out@ =~= join_words(sub));
        }
        k = k + 1;
    }
    proof {
        assert(ws.subrange(0, ws.len() as int) =~= ws);
    }
    string_from_chars(out.as_slice())
}

/// Membership in a growing prefix.
proof fn lemma_contains_step(s: Seq<Move>, j: int, m: Move)
    requires
        0 <= j < s.len(),
    ensures
        s.subrange(0, j + 1).contains(m) <==> s.subrange(0, j).contains(m) || s[j] == m,
{
    let a = s.subrange(0, j);
    let b = s.subrange(0, j + 1);
    if b.contains(m) {
        let k = choose|k: int| 0 <= k < b.len() && b[k] == m;
        if k < j {
            assert(a[k] == m);
        }
    }
    if a.contains(m) {
        let k = choose|k: int| 0 <= k < a.len() && a[k] == m;
        assert(b[k] == m);
    }
    if s[j] == m {
        assert(b[j] == m);
    }
}

impl Default for GameController {
    /// A controller with a new game from the standard position.
    fn default() -> (c: GameController)
        ensures
            c.inv(),
            !c.active(),
    {
        GameController::new()
    }
}

} // verus!
