//! The board: position state, FEN (de)serialization, and fully reversible
//! `make`/`unmake` with an incrementally maintained Zobrist key.
//!
//! Special-move semantics (captures, en passant, castling, double pawn pushes)
//! are derived from the board state at apply time. Every applied move pushes
//! a compact undo record holding exactly what is needed to restore the
//! previous position, including its key.

use crate::moves::Move;
use crate::types::square::{self, idx_of, sq_at, spec_file, spec_rank, valid};
use crate::types::{Color, Piece, PieceKind, Sq, CASTLE_BK, CASTLE_BQ, CASTLE_WK, CASTLE_WQ};
use crate::zobrist::{
    castling_key, castling_key_of, ep_key, ep_key_of, hash_cells, hash_features, hash_of,
    lemma_hash_cells_update, piece_key, piece_key_of, side_key, side_key_of, zkey, SIDE_INDEX,
};
use vstd::prelude::*;

pub mod fen;

verus! {

/// The canonical starting position in FEN.
pub const START_FEN: &'static str = "rnbqkbnr/pppppppp/8/8/8/8/PPPPPPPP/RNBQKBNR w KQkq - 0 1";

/// The mathematical content of a position: everything but the move history.
pub ghost struct Pos {
    pub cells: Seq<Piece>,
    pub side_white: bool,
    pub castling: u8,
    pub ep: Option<usize>,
    pub halfmove: u32,
    pub fullmove: u32,
    pub key: u64,
}

/// `|a - b|` on integers.
pub open spec fn iabs(a: int) -> int {
    if a < 0 {
        -a
    } else {
        a
    }
}

/// The castling-rights mask that survives a piece leaving or arriving on `s`.
pub open spec fn castle_mask(s: int) -> u8 {
    if s == 0x04 {
        !(CASTLE_WK | CASTLE_WQ)
    } else if s == 0x74 {
        !(CASTLE_BK | CASTLE_BQ)
    } else if s == 0x07 {
        !CASTLE_WK
    } else if s == 0x00 {
        !CASTLE_WQ
    } else if s == 0x77 {
        !CASTLE_BK
    } else if s == 0x70 {
        !CASTLE_BQ
    } else {
        0xFF
    }
}

/// `x + 1` with wrap-around at `u32::MAX`.
pub open spec fn wrap_inc(x: u32) -> u32 {
    if x == u32::MAX {
        0
    } else {
        (x + 1) as u32
    }
}

impl Pos {
    /// The hash of the position's features.
    pub open spec fn hash(self) -> u64 {
        hash_features(self.cells, self.side_white, self.castling, self.ep)
    }

    /// A well-formed position: 128 cells, off-board cells empty, castling
    /// rights within the four bits, an on-board en-passant target, and a key
    /// equal to the hash of the position.
    pub open spec fn wf(self) -> bool {
        &&& self.cells.len() == 128
        &&& forall|s: int| 0 <= s < 128 && !valid(s) ==> #[trigger] self.cells[s] == Piece::Empty
        &&& self.castling < 16
        &&& (self.ep matches Some(e) ==> valid(e as int))
        &&& self.key == self.hash()
    }

    pub open spec fn side(self) -> Color {
        if self.side_white {
            Color::White
        } else {
            Color::Black
        }
    }

    pub open spec fn moved(self, mv: Move) -> Piece {
        self.cells[mv.from as int]
    }

    /// `mv` is a pawn's diagonal step onto the en-passant target.
    pub open spec fn is_ep_capture(self, mv: Move) -> bool {
        &&& self.moved(mv).has_kind(PieceKind::Pawn)
        &&& self.ep == Some(mv.to)
        &&& spec_file(mv.from as int) != spec_file(mv.to as int)
    }

    /// The square of the piece `mv` captures (behind the target for en
    /// passant).
    pub open spec fn cap_sq(self, mv: Move) -> int {
        if self.is_ep_capture(mv) {
            square::spec_make(spec_rank(mv.from as int), spec_file(mv.to as int))
        } else {
            mv.to as int
        }
    }

    pub open spec fn captured(self, mv: Move) -> Piece {
        self.cells[self.cap_sq(mv)]
    }

    /// The piece standing on the destination after `mv`: the promotion piece
    /// re-colored to the mover (a queen if it names no kind), or the mover.
    pub open spec fn placed(self, mv: Move) -> Piece {
        match mv.promotion {
            Some(q) => Piece::spec_make(
                self.moved(mv).spec_color()->0,
                match q.spec_kind() {
                    Some(k) => k,
                    None => PieceKind::Queen,
                },
            ),
            None => self.moved(mv),
        }
    }

    /// `mv` is a king move of two files: castling.
    pub open spec fn is_castle(self, mv: Move) -> bool {
        self.moved(mv).has_kind(PieceKind::King) && iabs(
            spec_file(mv.from as int) - spec_file(mv.to as int),
        ) == 2
    }

    pub open spec fn cells_after(self, mv: Move) -> Seq<Piece> {
        let c1 = self.cells.update(mv.from as int, Piece::Empty);
        let c2 = if !self.captured(mv).spec_is_empty() {
            c1.update(self.cap_sq(mv), Piece::Empty)
        } else {
            c1
        };
        let c3 = c2.update(mv.to as int, self.placed(mv));
        if self.is_castle(mv) {
            let rook = c3[rook_from(mv)];
            c3.update(rook_from(mv), Piece::Empty).update(rook_to(mv), rook)
        } else {
            c3
        }
    }

    pub open spec fn castling_after(self, mv: Move) -> u8 {
        (self.castling & castle_mask(mv.from as int)) & castle_mask(mv.to as int)
    }

    pub open spec fn ep_after(self, mv: Move) -> Option<usize> {
        if self.moved(mv).has_kind(PieceKind::Pawn) && iabs(
            spec_rank(mv.to as int) - spec_rank(mv.from as int),
        ) == 2 {
            Some(
                square::spec_make(
                    (spec_rank(mv.from as int) + spec_rank(mv.to as int)) / 2,
                    spec_file(mv.from as int),
                ) as usize,
            )
        } else {
            None
        }
    }

    pub open spec fn halfmove_after(self, mv: Move) -> u32 {
        if self.moved(mv).has_kind(PieceKind::Pawn) || !self.captured(mv).spec_is_empty() {
            0
        } else {
            wrap_inc(self.halfmove)
        }
    }

    pub open spec fn fullmove_after(self, mv: Move) -> u32 {
        if !self.side_white {
            wrap_inc(self.fullmove)
        } else {
            self.fullmove
        }
    }

    /// The position after playing `mv` (its key is the hash of the result).
    pub open spec fn after(self, mv: Move) -> Pos {
        let cells = self.cells_after(mv);
        let side_white = !self.side_white;
        let castling = self.castling_after(mv);
        let ep = self.ep_after(mv);
        Pos {
            cells,
            side_white,
            castling,
            ep,
            halfmove: self.halfmove_after(mv),
            fullmove: self.fullmove_after(mv),
            key: hash_features(cells, side_white, castling, ep),
        }
    }

    /// A move that make/unmake can apply and take back exactly: distinct real
    /// origin and destination, a piece on the origin, an empty en-passant
    /// target behind a real capture, and for castling, rook squares apart from
    /// the king's squares with the rook's destination empty.
    pub open spec fn reversible(self, mv: Move) -> bool {
        &&& valid(mv.from as int)
        &&& valid(mv.to as int)
        &&& mv.from != mv.to
        &&& !self.moved(mv).spec_is_empty()
        &&& (self.is_ep_capture(mv) ==> spec_rank(mv.from as int) != spec_rank(mv.to as int)
            && self.cells[mv.to as int].spec_is_empty())
        &&& (self.is_castle(mv) ==> rook_from(mv) != mv.from as int && rook_from(mv) != mv.to as int
            && rook_to(mv) != mv.from as int && rook_to(mv) != mv.to as int
            && self.cells[rook_to(mv)].spec_is_empty())
    }
}

/// Rook origin of a castling move.
pub open spec fn rook_from(mv: Move) -> int {
    if spec_file(mv.to as int) == 6 {
        square::spec_make(spec_rank(mv.from as int), 7)
    } else {
        square::spec_make(spec_rank(mv.from as int), 0)
    }
}

/// Rook destination of a castling move.
pub open spec fn rook_to(mv: Move) -> int {
    if spec_file(mv.to as int) == 6 {
        square::spec_make(spec_rank(mv.from as int), 5)
    } else {
        square::spec_make(spec_rank(mv.from as int), 3)
    }
}

/// Information required to reverse a single make.
#[derive(Clone, Copy)]
pub struct Undo {
    pub mv: Move,
    pub moved: Piece,
    pub captured: Piece,
    pub captured_sq: Sq,
    pub prev_castling: u8,
    pub prev_ep: Option<Sq>,
    pub prev_halfmove: u32,
    pub prev_fullmove: u32,
    pub prev_side_white: bool,
    pub prev_key: u64,
}

/// The undo record of `mv` made from `p`.
pub open spec fn undo_of(p: Pos, mv: Move) -> Undo {
    Undo {
        mv,
        moved: p.moved(mv),
        captured: p.captured(mv),
        captured_sq: p.cap_sq(mv) as usize,
        prev_castling: p.castling,
        prev_ep: p.ep,
        prev_halfmove: p.halfmove,
        prev_fullmove: p.fullmove,
        prev_side_white: p.side_white,
        prev_key: p.key,
    }
}

/// What unmake computes from the current position and an undo record.
pub open spec fn restore(cur: Pos, u: Undo) -> Pos {
    let mv = u.mv;
    let c4 = cur.cells;
    let c5 = if u.moved.has_kind(PieceKind::King) && iabs(
        spec_file(mv.from as int) - spec_file(mv.to as int),
    ) == 2 {
        let rook = c4[rook_to(mv)];
        c4.update(rook_to(mv), Piece::Empty).update(rook_from(mv), rook)
    } else {
        c4
    };
    let c6 = c5.update(mv.from as int, u.moved).update(mv.to as int, Piece::Empty);
    let c7 = if !u.captured.spec_is_empty() {
        c6.update(u.captured_sq as int, u.captured)
    } else {
        c6
    };
    Pos {
        cells: c7,
        side_white: u.prev_side_white,
        castling: u.prev_castling,
        ep: u.prev_ep,
        halfmove: u.prev_halfmove,
        fullmove: u.prev_fullmove,
        key: u.prev_key,
    }
}

impl Pos {
    /// The position that unmaking `mv` computes from `self`, given the
    /// position `before` that `mv` was made from.
    pub open spec fn unmade(self, before: Pos, mv: Move) -> Pos {
        restore(self, undo_of(before, mv))
    }
}

/// Unmaking a move restores exactly the position it was made from (cells,
/// side, castling rights, en-passant target, both clocks, and the key); and a
/// move applied to a well-formed position gives a well-formed position.
pub proof fn lemma_unmake_inverts_make(p: Pos, mv: Move)
    requires
        p.wf(),
        p.reversible(mv),
    ensures
        p.after(mv).unmade(p, mv) == p,
        p.after(mv).wf(),
{
    let q = p.after(mv);
    let u = undo_of(p, mv);
    let r = restore(q, u);
    crate::types::lemma_piece_recompose(p.moved(mv));
    assert(r.cells =~= p.cells) by {
        assert forall|s: int| 0 <= s < 128 implies r.cells[s] == p.cells[s] by {
            if p.is_ep_capture(mv) {
                assert(spec_file(mv.from as int) != spec_file(mv.to as int));
                assert(p.cap_sq(mv) != mv.from as int);
                assert(p.cap_sq(mv) != mv.to as int);
            }
        }
    }
    lemma_after_wf(p, mv);
}

pub proof fn lemma_after_wf(p: Pos, mv: Move)
    requires
        p.wf(),
        p.reversible(mv),
    ensures
        p.after(mv).wf(),
{
    let q = p.after(mv);
    let c = p.castling;
    let m1 = castle_mask(mv.from as int);
    let m2 = castle_mask(mv.to as int);
    assert((c & m1) & m2 <= c) by (bit_vector);
    if p.is_ep_capture(mv) {
        assert(valid(p.cap_sq(mv)));
    }
    if p.is_castle(mv) {
        assert(valid(rook_from(mv)));
        assert(valid(rook_to(mv)));
    }
    assert forall|s: int| 0 <= s < 128 && !valid(s) implies #[trigger] q.cells[s]
        == Piece::Empty by {
        assert(p.cells[s] == Piece::Empty);
        if p.is_ep_capture(mv) {
            assert(valid(p.cap_sq(mv)));
        }
    }
    if q.ep is Some {
        let rf = spec_rank(mv.from as int);
        let rt = spec_rank(mv.to as int);
        assert(0 <= (rf + rt) / 2 < 8);
    }
}


/// A full chess position plus its move history.
#[derive(Clone)]
pub struct Board {
    /// The `0x88` piece array (128 entries; half are off-board sentinels).
    pub cells: [Piece; 128],
    /// `true` if it is White's turn.
    pub side_white: bool,
    /// Castling-rights bitmask of `CASTLE_WK | CASTLE_WQ | CASTLE_BK | CASTLE_BQ`.
    pub castling: u8,
    /// The square a pawn may capture en passant onto, if any.
    pub ep: Option<Sq>,
    /// Halfmove clock for the fifty-move rule (plies since pawn move/capture).
    pub halfmove_clock: u32,
    /// Fullmove number (starts at 1, increments after Black moves).
    pub fullmove: u32,
    /// Incrementally maintained Zobrist hash of the current position.
    pub key: u64,
    /// Undo records of the moves on the current line, oldest first.
    pub history: Vec<Undo>,
    /// Moves that were undone and can be redone.
    pub redo: Vec<Move>,
    /// `key_history[i]` is the key before the i-th move of `history`.
    pub key_history: Vec<u64>,
    /// The position each recorded move was made from.
    pub before: Ghost<Seq<Pos>>,
    /// The position each recorded move produced.
    pub after: Ghost<Seq<Pos>>,
}

impl Board {
    /// The current position.
    pub open spec fn pos(&self) -> Pos {
        Pos {
            cells: self.cells@,
            side_white: self.side_white,
            castling: self.castling,
            ep: self.ep,
            halfmove: self.halfmove_clock,
            fullmove: self.fullmove,
            key: self.key,
        }
    }

    /// The moves recorded on the current line, oldest first.
    pub open spec fn line(&self) -> Seq<Move> {
        Seq::new(self.history@.len(), |i: int| self.history@[i].mv)
    }

    /// The position each recorded move was made from.
    pub open spec fn line_before(&self) -> Seq<Pos> {
        self.before@
    }

    /// The position each recorded move produced.
    pub open spec fn line_after(&self) -> Seq<Pos> {
        self.after@
    }

    /// The moves that were undone and can be redone (last one first out).
    pub open spec fn redo_stack(&self) -> Seq<Move> {
        self.redo@
    }

    /// The keys of the positions the recorded moves were made from.
    pub open spec fn key_line(&self) -> Seq<u64> {
        self.key_history@
    }

    /// Internal consistency: the position is well formed, and every recorded
    /// move was a reversible move made from a well-formed position, with its
    /// undo record and key matching that position.
    pub open spec fn wf(&self) -> bool {
        &&& self.pos().wf()
        &&& self.history@.len() == self.before@.len()
        &&& self.history@.len() == self.after@.len()
        &&& self.history@.len() == self.key_history@.len()
        &&& forall|i: int|
            0 <= i < self.history@.len() ==> {
                &&& (#[trigger] self.before@[i]).wf()
                &&& self.before@[i].reversible(self.history@[i].mv)
                &&& self.history@[i] == undo_of(self.before@[i], self.history@[i].mv)
                &&& self.after@[i] == self.before@[i].after(self.history@[i].mv)
                &&& self.key_history@[i] == self.before@[i].key
            }
    }

    /// The current position is the one the last recorded move produced.
    pub open spec fn top_ok(&self) -> bool {
        self.line_after().len() == 0 || self.pos() == self.line_after().last()
    }

    /// Each recorded move was made from the position the previous one
    /// produced.
    pub open spec fn chained(&self) -> bool {
        forall|i: int|
            0 < i < self.line_after().len() ==> #[trigger] self.line_before()[i]
                == self.line_after()[i - 1]
    }

    /// `self` and `o` are in the same position with the same recorded line
    /// and redo stack.
    pub open spec fn same_state(&self, o: &Board) -> bool {
        &&& self.pos() == o.pos()
        &&& self.line() == o.line()
        &&& self.line_before() == o.line_before()
        &&& self.line_after() == o.line_after()
        &&& self.key_line() == o.key_line()
        &&& self.redo_stack() == o.redo_stack()
    }

    /// The full invariant that the public move API keeps.
    pub open spec fn valid(&self) -> bool {
        self.wf() && self.top_ok() && self.chained()
    }

    pub proof fn lemma_wf_facts(&self)
        requires
            self.wf(),
        ensures
            self.pos().wf(),
            self.line().len() == self.line_before().len(),
            self.line().len() == self.line_after().len(),
            self.line().len() == self.key_line().len(),
            forall|i: int|
                0 <= i < self.line().len() ==> (#[trigger] self.line_before()[i]).wf()
                    && self.line_before()[i].reversible(self.line()[i])
                    && self.line_after()[i] == self.line_before()[i].after(self.line()[i])
                    && self.key_line()[i] == self.line_before()[i].key,
    {
    }

    /// An empty board with White to move and no rights.
    pub fn empty() -> (b: Board)
        ensures
            b.valid(),
            forall|s: int| 0 <= s < 128 ==> b.pos().cells[s] == Piece::Empty,
            b.side_white,
            b.castling == 0,
            b.ep is None,
            b.halfmove_clock == 0,
            b.fullmove == 1,
            b.line().len() == 0,
            b.redo_stack().len() == 0,
    {
        let cells = [Piece::Empty; 128];
        let b = Board {
            cells,
            side_white: true,
            castling: 0,
            ep: None,
            halfmove_clock: 0,
            fullmove: 1,
            key: 0,
            history: Vec::new(),
            redo: Vec::new(),
            key_history: Vec::new(),
            before: Ghost(Seq::empty()),
            after: Ghost(Seq::empty()),
        };
        proof {
            assert(cells == vstd::array::spec_array_fill_for_copy_type::<Piece, 128>(Piece::Empty));
            assert forall|i: int| 0 <= i < 128 implies b.cells@[i] == Piece::Empty by {}
            lemma_hash_empty(b.cells@, 128);
            assert((0u64 ^ 0u64) ^ 0u64 ^ 0u64 == 0u64) by (bit_vector);
            assert(b.line() =~= Seq::<Move>::empty());
        }
        b
    }

    /// The color whose turn it is.
    pub fn side_to_move(&self) -> (c: Color)
        ensures
            c == self.pos().side(),
    {
        if self.side_white {
            Color::White
        } else {
            Color::Black
        }
    }

    /// The piece on `s`.
    pub fn piece_at(&self, s: Sq) -> (p: Piece)
        requires
            s < 128,
        ensures
            p == self.cells@[s as int],
    {
        self.cells[s]
    }

    /// Number of plies recorded in the move history.
    pub fn ply(&self) -> (n: usize)
        ensures
            n == self.line().len(),
    {
        self.history.len()
    }

    /// The castling-rights mask that survives a piece leaving or arriving on
    /// `s`.
    fn castle_mask_for(s: Sq) -> (m: u8)
        ensures
            m == castle_mask(s as int),
    {
        if s == 0x04 {
            !(CASTLE_WK | CASTLE_WQ)
        } else if s == 0x74 {
            !(CASTLE_BK | CASTLE_BQ)
        } else if s == 0x07 {
            !CASTLE_WK
        } else if s == 0x00 {
            !CASTLE_WQ
        } else if s == 0x77 {
            !CASTLE_BK
        } else if s == 0x70 {
            !CASTLE_BQ
        } else {
            0xFF
        }
    }

    /// Apply `mv` to the board, updating all state and the Zobrist key, and
    /// push an undo record. Callers pass moves produced by the generator
    /// (which are all reversible). Does not touch the redo stack.
    /// Moves the pieces for `mv` (mover, capture, promotion, castling rook),
    /// updating the running hash `h` of the position; returns the new hash,
    /// the captured piece and its square.
    #[verifier::rlimit(40)]
    fn relocate(&mut self, mv: Move, h: u64) -> (r: (u64, Piece, Sq))
        requires
            old(self).pos().wf(),
            old(self).pos().reversible(mv),
            h == old(self).pos().hash(),
        ensures
            final(self).cells@ == old(self).pos().cells_after(mv),
            r.0 == hash_features(final(self).cells@, old(self).side_white, old(self).castling, old(self).ep),
            r.1 == old(self).pos().captured(mv),
            r.2 == old(self).pos().cap_sq(mv),
            final(self).side_white == old(self).side_white,
            final(self).castling == old(self).castling,
            final(self).ep == old(self).ep,
            final(self).halfmove_clock == old(self).halfmove_clock,
            final(self).fullmove == old(self).fullmove,
            final(self).key == old(self).key,
            final(self).history == old(self).history,
            final(self).redo == old(self).redo,
            final(self).key_history == old(self).key_history,
            final(self).before == old(self).before,
            final(self).after == old(self).after,
    {
        let ghost p0 = self.pos();
        let mut h = h;
        let from = mv.from;
        let to = mv.to;
        let moved = self.cells[from];
        let color = match moved.color() {
            Some(c) => c,
            None => Color::White,
        };
        let moved_pawn = match moved.kind() {
            Some(PieceKind::Pawn) => true,
            _ => false,
        };
        let is_ep = moved_pawn && (match self.ep {
            Some(e) => e == to,
            None => false,
        }) && square::file(from) != square::file(to);
        let (captured, captured_sq) = if is_ep {
            let cap_sq = square::make(square::rank(from), square::file(to));
            (self.cells[cap_sq], cap_sq)
        } else {
            (self.cells[to], to)
        };
        assert(is_ep == p0.is_ep_capture(mv));
        assert(captured_sq == p0.cap_sq(mv));
        if is_ep {
            assert(captured_sq != from);
            assert(captured_sq != to);
        }
        proof {
            self.lemma_cell_step(h, from as int, Piece::Empty);
        }
        h = h ^ piece_key_of(moved, from);
        self.cells[from] = Piece::Empty;
        let ghost c1 = self.cells@;
        if !captured.is_empty() {
            proof {
                self.lemma_cell_step(h, captured_sq as int, Piece::Empty);
            }
            h = h ^ piece_key_of(captured, captured_sq);
            self.cells[captured_sq] = Piece::Empty;
        }
        let ghost c2 = self.cells@;
        let placed = match mv.promotion {
            Some(promo) => Piece::make(
                color,
                match promo.kind() {
                    Some(k) => k,
                    None => PieceKind::Queen,
                },
            ),
            None => moved,
        };
        proof {
            crate::types::lemma_piece_recompose(moved);
            assert(placed == p0.placed(mv));
            assert(self.cells@[to as int] == Piece::Empty);
            self.lemma_cell_step(h, to as int, placed);
        }
        h = h ^ piece_key_of(placed, to);
        self.cells[to] = placed;
        let ghost c3 = self.cells@;
        let king_move = match moved.kind() {
            Some(PieceKind::King) => true,
            _ => false,
        };
        let fd = square::file(from) - square::file(to);
        if king_move && (fd == 2 || fd == -2) {
            let rank = square::rank(from);
            let (rf, rt) = if square::file(to) == 6 {
                (square::make(rank, 7), square::make(rank, 5))
            } else {
                (square::make(rank, 0), square::make(rank, 3))
            };
            assert(rf == rook_from(mv) && rt == rook_to(mv));
            let rook = self.cells[rf];
            proof {
                self.lemma_cell_step(h, rf as int, Piece::Empty);
            }
            h = h ^ piece_key_of(rook, rf);
            self.cells[rf] = Piece::Empty;
            proof {
                assert(self.cells@[rt as int] == Piece::Empty);
                self.lemma_cell_step(h, rt as int, rook);
            }
            h = h ^ piece_key_of(rook, rt);
            self.cells[rt] = rook;
        }
        assert(self.cells@ =~= p0.cells_after(mv));
        (h, captured, captured_sq)
    }

    /// Apply `mv` to the board, updating all state and the Zobrist key, and
    /// push an undo record. Callers pass moves produced by the generator
    /// (which are all reversible). Does not touch the redo stack.
    pub fn make_move_struct(&mut self, mv: Move)
        requires
            old(self).wf(),
            old(self).pos().reversible(mv),
        ensures
            final(self).wf(),
            final(self).top_ok(),
            final(self).pos() == old(self).pos().after(mv),
            final(self).line() == old(self).line().push(mv),
            final(self).line_before() == old(self).line_before().push(old(self).pos()),
            final(self).line_after() == old(self).line_after().push(old(self).pos().after(mv)),
            final(self).key_line() == old(self).key_line().push(old(self).key),
            final(self).redo_stack() == old(self).redo_stack(),
            old(self).chained() && old(self).top_ok() ==> final(self).chained(),
    {
        let ghost p0 = self.pos();
        let from = mv.from;
        let to = mv.to;
        let moved = self.cells[from];
        let moved_pawn = match moved.kind() {
            Some(PieceKind::Pawn) => true,
            _ => false,
        };
        let undo = Undo {
            mv,
            moved,
            captured: Piece::Empty,
            captured_sq: 0,
            prev_castling: self.castling,
            prev_ep: self.ep,
            prev_halfmove: self.halfmove_clock,
            prev_fullmove: self.fullmove,
            prev_side_white: self.side_white,
            prev_key: self.key,
        };
        let (h, captured, captured_sq) = self.relocate(mv, self.key);
        let undo = Undo { captured, captured_sq, ..undo };
        let mut h = h;

        // Update castling rights (king/rook moved or rook captured).
        let mut new_castling = self.castling;
        new_castling = new_castling & Self::castle_mask_for(from);
        new_castling = new_castling & Self::castle_mask_for(to);
        if new_castling != self.castling {
            proof {
                let hc = hash_cells(self.cells@, 128);
                lemma_feature_swap(hc, castling_key(self.castling), ep_key(self.ep), side_key(self.side_white), castling_key(new_castling));
            }
            h = h ^ castling_key_of(self.castling);
            h = h ^ castling_key_of(new_castling);
            self.castling = new_castling;
        }
        assert(h == hash_features(self.cells@, self.side_white, self.castling, self.ep));

        // En-passant target square.
        let old_ek = ep_key_of(self.ep);
        let rank_from = square::rank(from);
        let rank_to = square::rank(to);
        let rd = rank_to - rank_from;
        let new_ep = if moved_pawn && (rd == 2 || rd == -2) {
            Some(square::make((rank_from + rank_to) / 2, square::file(from)))
        } else {
            None
        };
        let new_ek = ep_key_of(new_ep);
        proof {
            let hc = hash_cells(self.cells@, 128);
            lemma_ep_swap(hc, castling_key(self.castling), old_ek, side_key(self.side_white), new_ek);
        }
        h = h ^ old_ek;
        h = h ^ new_ek;
        self.ep = new_ep;

        // Clocks.
        if moved_pawn || !captured.is_empty() {
            self.halfmove_clock = 0;
        } else {
            self.halfmove_clock = self.halfmove_clock.wrapping_add(1);
        }
        if !self.side_white {
            self.fullmove = self.fullmove.wrapping_add(1);
        }

        // Flip the side to move.
        proof {
            let hc = hash_cells(self.cells@, 128);
            lemma_side_flip(hc, castling_key(self.castling), ep_key(self.ep), self.side_white);
        }
        self.side_white = !self.side_white;
        h = h ^ side_key_of(false);
        self.key = h;
        assert(self.pos() == p0.after(mv));

        self.key_history.push(undo.prev_key);
        self.history.push(undo);
        proof {
            self.before@ = self.before@.push(p0);
            self.after@ = self.after@.push(p0.after(mv));
            lemma_record_pushed(*old(self), *self, p0, mv);
        }
    }

    /// Convenience wrapper taking the move's parts.
    pub fn make_move(&mut self, from: Sq, to: Sq, promotion: Option<Piece>)
        requires
            old(self).wf(),
            old(self).pos().reversible(Move { from, to, promotion }),
        ensures
            final(self).wf(),
            final(self).top_ok(),
            final(self).pos() == old(self).pos().after(Move { from, to, promotion }),
            final(self).line() == old(self).line().push(Move { from, to, promotion }),
            final(self).line_before() == old(self).line_before().push(old(self).pos()),
            final(self).line_after() == old(self).line_after().push(
                old(self).pos().after(Move { from, to, promotion }),
            ),
            final(self).key_line() == old(self).key_line().push(old(self).key),
            final(self).redo_stack() == old(self).redo_stack(),
            old(self).chained() && old(self).top_ok() ==> final(self).chained(),
    {
        self.make_move_struct(Move { from, to, promotion });
    }

    /// Reverse the most recent make. Returns the move that was undone, or
    /// `None` if there was nothing to undo. Does not touch the redo stack.
    pub fn unmake_move(&mut self) -> (r: Option<Move>)
        requires
            old(self).wf(),
            old(self).top_ok(),
        ensures
            final(self).wf(),
            final(self).redo_stack() == old(self).redo_stack(),
            old(self).line().len() == 0 ==> r is None && final(self).pos() == old(self).pos()
                && final(self).line() == old(self).line() && final(self).line_before()
                == old(self).line_before() && final(self).line_after() == old(self).line_after()
                && final(self).key_line() == old(self).key_line(),
            old(self).line().len() > 0 ==> r == Some(old(self).line().last()) && final(self).pos()
                == old(self).line_before().last() && final(self).line() == old(self).line().drop_last()
                && final(self).line_before() == old(self).line_before().drop_last()
                && final(self).line_after() == old(self).line_after().drop_last()
                && final(self).key_line() == old(self).key_line().drop_last(),
            old(self).chained() ==> final(self).chained() && final(self).top_ok(),
    {
        let ghost b0 = *self;
        let u = match self.history.pop() {
            Some(u) => u,
            None => {
                return None;
            },
        };
        self.key_history.pop();
        let ghost n = b0.history@.len() - 1;
        let ghost p = b0.before@[n];
        proof {
            assert(b0.before@[n].wf());
            assert(u == b0.history@[n]);
            assert(b0.line().last() == u.mv);
            lemma_unmake_inverts_make(p, u.mv);
            assert(self.pos() == p.after(u.mv));
        }
        let from = u.mv.from;
        let to = u.mv.to;
        let king_move = match u.moved.kind() {
            Some(PieceKind::King) => true,
            _ => false,
        };
        let fd = square::file(from) - square::file(to);
        if king_move && (fd == 2 || fd == -2) {
            let rank = square::rank(from);
            let (rf, rt) = if square::file(to) == 6 {
                (square::make(rank, 7), square::make(rank, 5))
            } else {
                (square::make(rank, 0), square::make(rank, 3))
            };
            let rook = self.cells[rt];
            self.cells[rt] = Piece::Empty;
            self.cells[rf] = rook;
        }
        self.cells[from] = u.moved;
        self.cells[to] = Piece::Empty;
        if !u.captured.is_empty() {
            self.cells[u.captured_sq] = u.captured;
        }
        self.castling = u.prev_castling;
        self.ep = u.prev_ep;
        self.halfmove_clock = u.prev_halfmove;
        self.fullmove = u.prev_fullmove;
        self.side_white = u.prev_side_white;
        self.key = u.prev_key;
        proof {
            assert(self.cells@ =~= restore(b0.pos(), u).cells);
            assert(self.pos() == p);
            self.before@ = self.before@.drop_last();
            self.after@ = self.after@.drop_last();
            assert(self.line() =~= b0.line().drop_last());
            assert(self.key_line() =~= b0.key_line().drop_last());
            assert forall|i: int| 0 <= i < self.history@.len() implies {
                &&& (#[trigger] self.before@[i]).wf()
                &&& self.before@[i].reversible(self.history@[i].mv)
                &&& self.history@[i] == undo_of(self.before@[i], self.history@[i].mv)
                &&& self.after@[i] == self.before@[i].after(self.history@[i].mv)
                &&& self.key_history@[i] == self.before@[i].key
            } by {
                assert(b0.before@[i].wf());
            }
            if b0.chained() {
                if n > 0 {
                    assert(b0.line_before()[n] == b0.line_after()[n - 1]);
                }
                assert forall|i: int| 0 < i < self.line_after().len() implies #[trigger] self.line_before()[i]
                    == self.line_after()[i - 1] by {
                    assert(b0.line_before()[i] == b0.line_after()[i - 1]);
                }
            }
        }
        Some(u.mv)
    }

    /// Play a move as part of real gameplay: applies it and discards any
    /// pending redo history.
    pub fn play_move(&mut self, mv: Move)
        requires
            old(self).wf(),
            old(self).pos().reversible(mv),
        ensures
            final(self).wf(),
            final(self).top_ok(),
            final(self).pos() == old(self).pos().after(mv),
            final(self).line() == old(self).line().push(mv),
            final(self).line_before() == old(self).line_before().push(old(self).pos()),
            final(self).line_after() == old(self).line_after().push(old(self).pos().after(mv)),
            final(self).key_line() == old(self).key_line().push(old(self).key),
            final(self).redo_stack().len() == 0,
            old(self).chained() && old(self).top_ok() ==> final(self).chained(),
    {
        self.make_move_struct(mv);
        self.redo.clear();
    }

    /// Undo the last move and remember it so it can be redone. Returns `true`
    /// if a move was undone.
    pub fn undo_move(&mut self) -> (r: bool)
        requires
            old(self).wf(),
            old(self).top_ok(),
        ensures
            final(self).wf(),
            r == (old(self).line().len() > 0),
            !r ==> final(self).pos() == old(self).pos() && final(self).line() == old(self).line()
                && final(self).redo_stack() == old(self).redo_stack(),
            r ==> final(self).pos() == old(self).line_before().last() && final(self).line()
                == old(self).line().drop_last() && final(self).redo_stack()
                == old(self).redo_stack().push(old(self).line().last()),
            old(self).chained() ==> final(self).chained() && final(self).top_ok(),
    {
        match self.unmake_move() {
            Some(mv) => {
                self.redo.push(mv);
                true
            },
            None => false,
        }
    }

    /// Re-apply the most recently undone move. Returns `true` if one was
    /// redone.
    pub fn redo_move(&mut self) -> (r: bool)
        requires
            old(self).wf(),
            old(self).redo_stack().len() > 0 ==> old(self).pos().reversible(
                old(self).redo_stack().last(),
            ),
        ensures
            final(self).wf(),
            r == (old(self).redo_stack().len() > 0),
            !r ==> final(self).pos() == old(self).pos() && final(self).line() == old(self).line(),
            r ==> final(self).pos() == old(self).pos().after(old(self).redo_stack().last())
                && final(self).line() == old(self).line().push(old(self).redo_stack().last())
                && final(self).redo_stack() == old(self).redo_stack().drop_last()
                && final(self).top_ok(),
            r && old(self).chained() && old(self).top_ok() ==> final(self).chained(),
    {
        let ghost b0 = *self;
        match self.redo.pop() {
            Some(mv) => {
                proof {
                    if b0.chained() {
                        assert forall|i: int| 0 < i < self.line_after().len() implies #[trigger] self.line_before()[i]
                            == self.line_after()[i - 1] by {
                            assert(b0.line_before()[i] == b0.line_after()[i - 1]);
                        }
                    }
                }
                self.make_move_struct(mv);
                true
            },
            None => false,
        }
    }

    /// Locate the king of `color`: the first square in a1..h8 order holding
    /// it, or `None` if it is missing.
    pub fn king_square(&self, color: Color) -> (r: Option<Sq>)
        ensures
            r == king_sq(self.pos(), color),
    {
        let king = Piece::make(color, PieceKind::King);
        let mut i: usize = 0;
        while i < 64
            invariant
                i <= 64,
                king == Piece::spec_make(color, PieceKind::King),
                forall|j: int| 0 <= j < i ==> self.cells@[#[trigger] sq_at(j)] != king,
            decreases 64 - i,
        {
            let s = square::nth_square(i);
            if self.cells[s] == king {
                proof {
                    lemma_first_king(self.pos(), color, i as int);
                }
                return Some(s);
            }
            i = i + 1;
        }
        proof {
            lemma_first_king(self.pos(), color, 64);
        }
        None
    }

    /// Number of times the current position's key has occurred on this line
    /// (including the current occurrence), looking back no further than the
    /// halfmove clock allows. `>= 3` is a threefold repetition.
    pub fn repetition_count(&self) -> (n: usize)
        requires
            self.wf(),
        ensures
            n == capped(repetition_spec(self.key_line(), self.halfmove_clock, self.key)),
    {
        let len = self.key_history.len();
        let limit = self.halfmove_clock as usize;
        let start = if len > limit {
            len - limit
        } else {
            0
        };
        let mut count: usize = 1;
        let mut j = start;
        while j < len
            invariant
                start <= j <= len,
                len == self.key_history@.len(),
                start == window_start(len as int, self.halfmove_clock),
                count == capped(1 + count_key(self.key_history@, self.key, start as int, j as int)),
            decreases len - j,
        {
            if self.key_history[j] == self.key && count < usize::MAX {
                count = count + 1;
            }
            j = j + 1;
        }
        count
    }

    /// `true` if the position is drawn by the fifty-move rule (100 plies).
    pub fn is_fifty_move_draw(&self) -> (r: bool)
        ensures
            r == (self.halfmove_clock >= 100),
    {
        self.halfmove_clock >= 100
    }

    /// `true` if neither side has sufficient material to deliver checkmate
    /// (K vs K, K+minor vs K, and any number of bishops all on one square
    /// color).
    pub fn is_insufficient_material(&self) -> (r: bool)
        ensures
            r == insufficient_spec(self.cells@),
    {
        let mut knights: u32 = 0;
        let mut bishops_light: u32 = 0;
        let mut bishops_dark: u32 = 0;
        let mut i: usize = 0;
        while i < 64
            invariant
                i <= 64,
                self.cells@.len() == 128,
                forall|j: int| 0 <= j < i ==> !is_heavy(#[trigger] self.cells@[sq_at(j)]),
                knights == count_knights(self.cells@, i as int),
                bishops_dark == count_bishops(self.cells@, 0, i as int),
                bishops_light == count_bishops(self.cells@, 1, i as int),
                knights <= i && bishops_dark <= i && bishops_light <= i,
            decreases 64 - i,
        {
            let s = square::nth_square(i);
            let r = square::rank(s);
            let f = square::file(s);
            match self.cells[s].kind() {
                None => {},
                Some(PieceKind::King) => {},
                Some(PieceKind::Knight) => {
                    knights = knights + 1;
                },
                Some(PieceKind::Bishop) => {
                    if (r + f) % 2 == 0 {
                        bishops_dark = bishops_dark + 1;
                    } else {
                        bishops_light = bishops_light + 1;
                    }
                },
                _ => {
                    assert(is_heavy(self.cells@[sq_at(i as int)]));
                    return false;
                },
            }
            i = i + 1;
        }
        let bishops = bishops_light + bishops_dark;
        if knights == 0 && bishops == 0 {
            true
        } else if knights == 1 && bishops == 0 {
            true
        } else if knights == 0 && bishops == 1 {
            true
        } else if knights == 0 {
            bishops_light == 0 || bishops_dark == 0
        } else {
            false
        }
    }

    /// `true` for any drawn-by-rule position (fifty-move, threefold, or
    /// insufficient material).
    pub fn is_draw(&self) -> (r: bool)
        requires
            self.wf(),
        ensures
            r == (self.halfmove_clock >= 100 || capped(
                repetition_spec(self.key_line(), self.halfmove_clock, self.key),
            ) >= 3 || insufficient_spec(self.cells@)),
    {
        self.is_fifty_move_draw() || self.repetition_count() >= 3 || self.is_insufficient_material()
    }

    /// `true` if the incrementally maintained key matches a fresh full hash.
    pub fn debug_key_ok(&self) -> (r: bool)
        ensures
            r == (self.key == self.pos().hash()),
            self.wf() ==> r,
    {
        self.key == hash_of(&self.cells, self.side_white, self.castling, self.ep)
    }

    /// A copy of the board, history included.
    pub fn duplicate(&self) -> (r: Board)
        ensures
            r.pos() == self.pos(),
            r.history@ == self.history@,
            r.redo@ == self.redo@,
            r.key_history@ == self.key_history@,
            r.before == self.before,
            r.after == self.after,
            r.line() == self.line(),
            self.wf() ==> r.wf(),
            self.top_ok() ==> r.top_ok(),
            self.chained() ==> r.chained(),
    {
        let mut history: Vec<Undo> = Vec::new();
        let mut i: usize = 0;
        while i < self.history.len()
            invariant
                i <= self.history@.len(),
                history@ == self.history@.subrange(0, i as int),
            decreases self.history@.len() - i,
        {
            history.push(self.history[i]);
            i = i + 1;
        }
        let mut redo: Vec<Move> = Vec::new();
        let mut i: usize = 0;
        while i < self.redo.len()
            invariant
                i <= self.redo@.len(),
                redo@ == self.redo@.subrange(0, i as int),
            decreases self.redo@.len() - i,
        {
            redo.push(self.redo[i]);
            i = i + 1;
        }
        let mut key_history: Vec<u64> = Vec::new();
        let mut i: usize = 0;
        while i < self.key_history.len()
            invariant
                i <= self.key_history@.len(),
                key_history@ == self.key_history@.subrange(0, i as int),
            decreases self.key_history@.len() - i,
        {
            key_history.push(self.key_history[i]);
            i = i + 1;
        }
        assert(history@ =~= self.history@);
        assert(redo@ =~= self.redo@);
        assert(key_history@ =~= self.key_history@);
        let r = Board {
            cells: self.cells,
            side_white: self.side_white,
            castling: self.castling,
            ep: self.ep,
            halfmove_clock: self.halfmove_clock,
            fullmove: self.fullmove,
            key: self.key,
            history,
            redo,
            key_history,
            before: self.before,
            after: self.after,
        };
        assert(r.line() =~= self.line());
        proof {
            lemma_same_history(*self, r);
        }
        r
    }

    /// The color-and-rank mirror of this position: every piece is reflected
    /// to the opposite rank with its color swapped, the side to move flips,
    /// and castling rights / en-passant are mirrored accordingly. The history
    /// is not carried over.
    pub fn mirror(&self) -> (b: Board)
        requires
            self.pos().wf(),
        ensures
            b.pos() == mirror_pos(self.pos()),
            b.valid(),
            b.line().len() == 0,
            b.redo_stack().len() == 0,
    {
        let mut b = Board::empty();
        let mut i: usize = 0;
        proof {
            square::lemma_sq_enum();
        }
        while i < 64
            invariant
                i <= 64,
                b.cells@.len() == 128,
                self.cells@.len() == 128,
                forall|t: int| 0 <= t < 128 ==> #[trigger] b.cells@[t] == if valid(t) && idx_of(mirror_sq(t)) < i {
                    flip_piece(self.cells@[mirror_sq(t)])
                } else {
                    Piece::Empty
                },
                b.side_white,
                b.castling == 0,
                b.ep is None,
                b.halfmove_clock == 0,
                b.fullmove == 1,
                b.redo@.len() == 0,
                b.history@.len() == 0,
                b.before@.len() == 0,
                b.after@.len() == 0,
                b.key_history@.len() == 0,
            decreases 64 - i,
        {
            let s = square::nth_square(i);
            let r = square::rank(s);
            let f = square::file(s);
            let p = self.cells[s];
            let ms = square::make(7 - r, f);
            assert(mirror_sq(ms as int) == s);
            assert(valid(ms as int) && idx_of(mirror_sq(ms as int)) == i);
            proof {
                crate::types::lemma_piece_recompose(p);
            }
            match (p.color(), p.kind()) {
                (Some(c), Some(k)) => {
                    b.cells[ms] = Piece::make(c.flip(), k);
                },
                _ => {},
            }
            proof {
                assert forall|t: int| 0 <= t < 128 implies #[trigger] b.cells@[t] == if valid(t) && idx_of(mirror_sq(t)) < i + 1 {
                    flip_piece(self.cells@[mirror_sq(t)])
                } else {
                    Piece::Empty
                } by {
                    if valid(t) && t != ms {
                        assert(mirror_sq(mirror_sq(t)) == t);
                        assert(idx_of(mirror_sq(t)) != i);
                    }
                }
            }
            i = i + 1;
        }
        b.side_white = !self.side_white;
        let c = self.castling;
        b.castling = ((c & 3) << 2) | ((c >> 2) & 3);
        b.ep = match self.ep {
            Some(e) => Some(square::make(7 - square::rank(e), square::file(e))),
            None => None,
        };
        b.halfmove_clock = self.halfmove_clock;
        b.fullmove = self.fullmove;
        b.key = hash_of(&b.cells, b.side_white, b.castling, b.ep);
        proof {
            assert(b.cells@ =~= mirror_pos(self.pos()).cells);
            assert(c < 16 ==> ((c & 3) << 2) | ((c >> 2) & 3) < 16) by (bit_vector);
            assert(b.pos() == mirror_pos(self.pos()));
            assert(b.line() =~= Seq::<Move>::empty());
        }
        b
    }

    /// Replacing the piece on square `s` by `p` and XOR-ing the old and new
    /// piece keys into a hash of the whole position keeps them in step.
    proof fn lemma_cell_step(&self, h: u64, s: int, p: Piece)
        requires
            0 <= s < 128,
            h == hash_features(self.cells@, self.side_white, self.castling, self.ep),
        ensures
            (h ^ piece_key(self.cells@[s], s)) ^ piece_key(p, s) == hash_features(
                self.cells@.update(s, p),
                self.side_white,
                self.castling,
                self.ep,
            ),
            p == Piece::Empty ==> h ^ piece_key(self.cells@[s], s) == hash_features(
                self.cells@.update(s, p),
                self.side_white,
                self.castling,
                self.ep,
            ),
            self.cells@[s] == Piece::Empty ==> h ^ piece_key(p, s) == hash_features(
                self.cells@.update(s, p),
                self.side_white,
                self.castling,
                self.ep,
            ),
    {
        let hc = hash_cells(self.cells@, 128);
        let x = piece_key(self.cells@[s], s);
        let y = piece_key(p, s);
        lemma_hash_cells_update(self.cells@, s, p, 128);
        lemma_cell_swap(hc, castling_key(self.castling), ep_key(self.ep), side_key(self.side_white), x, y);
    }
}

/// Pushing the record of a move made from the well-formed position `p0` onto
/// a consistent history keeps it consistent.
proof fn lemma_record_pushed(b0: Board, b1: Board, p0: Pos, mv: Move)
    requires
        b0.wf(),
        p0 == b0.pos(),
        p0.reversible(mv),
        b1.pos() == p0.after(mv),
        b1.history@ == b0.history@.push(undo_of(p0, mv)),
        b1.key_history@ == b0.key_history@.push(p0.key),
        b1.before@ == b0.before@.push(p0),
        b1.after@ == b0.after@.push(p0.after(mv)),
        b1.redo@ == b0.redo@,
    ensures
        b1.wf(),
        b1.top_ok(),
        b1.line() == b0.line().push(mv),
        b1.redo_stack() == b0.redo_stack(),
        b0.chained() && b0.top_ok() ==> b1.chained(),
{
    lemma_after_wf(p0, mv);
    assert(b1.line() =~= b0.line().push(mv));
    assert forall|i: int| 0 <= i < b1.history@.len() implies {
        &&& (#[trigger] b1.before@[i]).wf()
        &&& b1.before@[i].reversible(b1.history@[i].mv)
        &&& b1.history@[i] == undo_of(b1.before@[i], b1.history@[i].mv)
        &&& b1.after@[i] == b1.before@[i].after(b1.history@[i].mv)
        &&& b1.key_history@[i] == b1.before@[i].key
    } by {
        if i < b0.history@.len() {
            assert(b0.before@[i].wf());
        }
    }
    if b0.chained() && b0.top_ok() {
        assert forall|i: int| 0 < i < b1.line_after().len() implies #[trigger] b1.line_before()[i]
            == b1.line_after()[i - 1] by {
            if i < b0.line_after().len() {
                assert(b0.line_before()[i] == b0.line_after()[i - 1]);
            }
        }
    }
}

/// The square of the first king of `color` in a1..h8 order.
pub open spec fn king_sq(p: Pos, color: Color) -> Option<usize> {
    let king = Piece::spec_make(color, PieceKind::King);
    if exists|i: int| 0 <= i < 64 && p.cells[sq_at(i)] == king {
        let i = choose|i: int|
            0 <= i < 64 && p.cells[sq_at(i)] == king && forall|j: int|
                0 <= j < i ==> p.cells[sq_at(j)] != king;
        Some(sq_at(i) as usize)
    } else {
        None
    }
}

proof fn lemma_first_king(p: Pos, color: Color, i: int)
    requires
        0 <= i <= 64,
        forall|j: int| 0 <= j < i ==> p.cells[#[trigger] sq_at(j)] != Piece::spec_make(color, PieceKind::King),
        i < 64 ==> p.cells[sq_at(i)] == Piece::spec_make(color, PieceKind::King),
    ensures
        i < 64 ==> king_sq(p, color) == Some(sq_at(i) as usize),
        i == 64 ==> king_sq(p, color) is None,
{
    let king = Piece::spec_make(color, PieceKind::King);
    if i < 64 {
        assert(exists|k: int| 0 <= k < 64 && p.cells[sq_at(k)] == king);
        let k = choose|k: int|
            0 <= k < 64 && p.cells[sq_at(k)] == king && forall|j: int|
                0 <= j < k ==> p.cells[sq_at(j)] != king;
        assert(0 <= i < 64 && p.cells[sq_at(i)] == king && forall|j: int|
            0 <= j < i ==> p.cells[sq_at(j)] != king);
        if k < i {
            assert(p.cells[sq_at(k)] != king);
        } else if k > i {
            assert(p.cells[sq_at(i)] != king);
        }
    }
}

/// Number of entries equal to `k` in `s[lo..hi]`.
pub open spec fn count_key(s: Seq<u64>, k: u64, lo: int, hi: int) -> nat
    decreases hi - lo,
{
    if hi <= lo {
        0
    } else {
        count_key(s, k, lo, hi - 1) + if s[hi - 1] == k {
            1nat
        } else {
            0nat
        }
    }
}

/// `n`, or `usize::MAX` if it does not fit.
pub open spec fn capped(n: nat) -> usize {
    if n > usize::MAX {
        usize::MAX
    } else {
        n as usize
    }
}

/// Two boards with the same recorded positions are chained alike.
proof fn lemma_same_history(a: Board, b: Board)
    requires
        a.before == b.before,
        a.after == b.after,
    ensures
        a.chained() == b.chained(),
{
    if a.chained() {
        assert forall|i: int| 0 < i < b.line_after().len() implies #[trigger] b.line_before()[i]
            == b.line_after()[i - 1] by {
            assert(a.line_before()[i] == a.line_after()[i - 1]);
        }
    }
    if b.chained() {
        assert forall|i: int| 0 < i < a.line_after().len() implies #[trigger] a.line_before()[i]
            == a.line_after()[i - 1] by {
            assert(b.line_before()[i] == b.line_after()[i - 1]);
        }
    }
}

/// Where the repetition scan starts: no further back than the halfmove clock.
pub open spec fn window_start(len: int, halfmove: u32) -> int {
    if len > halfmove {
        len - halfmove
    } else {
        0
    }
}

/// One (the current occurrence) plus the number of earlier positions on the
/// line within the halfmove window whose key equals `key`.
pub open spec fn repetition_spec(keys: Seq<u64>, halfmove: u32, key: u64) -> nat {
    1 + count_key(keys, key, window_start(keys.len() as int, halfmove), keys.len() as int)
}

/// A pawn, rook or queen: enough for mate on its own.
pub open spec fn is_heavy(p: Piece) -> bool {
    p.has_kind(PieceKind::Pawn) || p.has_kind(PieceKind::Rook) || p.has_kind(PieceKind::Queen)
}

/// Knights (of either color) on the first `n` squares in a1..h8 order.
pub open spec fn count_knights(cells: Seq<Piece>, n: int) -> nat
    decreases n,
{
    if n <= 0 {
        0
    } else {
        count_knights(cells, n - 1) + if cells[sq_at(n - 1)].has_kind(PieceKind::Knight) {
            1nat
        } else {
            0nat
        }
    }
}

/// Bishops (of either color) on the first `n` squares whose rank + file has
/// parity `parity`.
pub open spec fn count_bishops(cells: Seq<Piece>, parity: int, n: int) -> nat
    decreases n,
{
    if n <= 0 {
        0
    } else {
        count_bishops(cells, parity, n - 1) + if cells[sq_at(n - 1)].has_kind(PieceKind::Bishop)
            && (spec_rank(sq_at(n - 1)) + spec_file(sq_at(n - 1))) % 2 == parity {
            1nat
        } else {
            0nat
        }
    }
}

/// Neither side can mate: no pawn, rook or queen, and either no minor piece,
/// a single minor piece, or only bishops all standing on one square color.
pub open spec fn insufficient_spec(cells: Seq<Piece>) -> bool {
    let knights = count_knights(cells, 64);
    let dark = count_bishops(cells, 0, 64);
    let light = count_bishops(cells, 1, 64);
    let bishops = dark + light;
    &&& forall|i: int| 0 <= i < 64 ==> !is_heavy(#[trigger] cells[sq_at(i)])
    &&& if knights == 0 && bishops == 0 {
        true
    } else if knights == 1 && bishops == 0 {
        true
    } else if knights == 0 && bishops == 1 {
        true
    } else if knights == 0 {
        light == 0 || dark == 0
    } else {
        false
    }
}

/// The square on the opposite rank, same file.
pub open spec fn mirror_sq(s: int) -> int {
    square::spec_make(7 - spec_rank(s), spec_file(s))
}

/// The same kind of piece in the other color (the empty piece stays empty).
pub open spec fn flip_piece(p: Piece) -> Piece {
    if p.spec_is_empty() {
        Piece::Empty
    } else {
        Piece::spec_make(p.spec_color()->0.spec_flip(), p.spec_kind()->0)
    }
}

/// Castling rights with White's and Black's swapped.
pub open spec fn swap_castling(c: u8) -> u8 {
    ((c & 3) << 2) | ((c >> 2) & 3)
}

/// The color-and-rank mirror of a position.
pub open spec fn mirror_pos(p: Pos) -> Pos {
    let cells = Seq::new(
        128,
        |t: int|
            if valid(t) {
                flip_piece(p.cells[mirror_sq(t)])
            } else {
                Piece::Empty
            },
    );
    let side_white = !p.side_white;
    let castling = swap_castling(p.castling);
    let ep = match p.ep {
        Some(e) => Some(mirror_sq(e as int) as usize),
        None => None,
    };
    Pos {
        cells,
        side_white,
        castling,
        ep,
        halfmove: p.halfmove,
        fullmove: p.fullmove,
        key: hash_features(cells, side_white, castling, ep),
    }
}

/// Mirroring a position twice gives the position back, and the mirror of a
/// well-formed position is well formed.
#[verifier::spinoff_prover]
#[verifier::rlimit(40)]
pub proof fn lemma_mirror_involution(p: Pos)
    requires
        p.wf(),
    ensures
        mirror_pos(mirror_pos(p)) == p,
        mirror_pos(p).wf(),
{
    let m = mirror_pos(p);
    let mm = mirror_pos(m);
    assert forall|t: int| 0 <= t < 128 implies #[trigger] mm.cells[t] == p.cells[t] by {
        if valid(t) {
            let u = mirror_sq(t);
            assert(valid(u));
            assert(mirror_sq(u) == t);
            crate::types::lemma_piece_recompose(p.cells[t]);
            crate::types::lemma_piece_recompose(flip_piece(p.cells[t]));
        }
    }
    assert(mm.cells =~= p.cells);
    let c = p.castling;
    assert(c < 16 ==> ((((c & 3) << 2) | ((c >> 2) & 3)) & 3) << 2 | (((((c & 3) << 2) | ((c
        >> 2) & 3)) >> 2) & 3) == c) by (bit_vector);
    assert(c < 16 ==> ((c & 3) << 2) | ((c >> 2) & 3) < 16) by (bit_vector);
    if let Some(e) = p.ep {
        assert(mirror_sq(mirror_sq(e as int)) == e);
    }
    assert forall|s: int| 0 <= s < 128 && !valid(s) implies #[trigger] m.cells[s] == Piece::Empty by {}
}

proof fn lemma_hash_empty(cells: Seq<Piece>, n: nat)
    requires
        n <= cells.len(),
        forall|i: int| 0 <= i < cells.len() ==> cells[i] == Piece::Empty,
    ensures
        hash_cells(cells, n) == 0,
    decreases n,
{
    if n > 0 {
        lemma_hash_empty(cells, (n - 1) as nat);
        assert(0u64 ^ 0u64 == 0u64) by (bit_vector);
    }
}

proof fn lemma_cell_swap(hc: u64, ck: u64, ek: u64, sk: u64, x: u64, y: u64)
    ensures
        ((((hc ^ ck) ^ ek) ^ sk) ^ x) ^ y == (((hc ^ x) ^ y) ^ ck ^ ek) ^ sk,
        (((hc ^ ck) ^ ek) ^ sk) ^ x == (((hc ^ x) ^ 0) ^ ck ^ ek) ^ sk,
        (((hc ^ ck) ^ ek) ^ sk) ^ y == (((hc ^ 0) ^ y) ^ ck ^ ek) ^ sk,
{
    assert(((((hc ^ ck) ^ ek) ^ sk) ^ x) ^ y == (((hc ^ x) ^ y) ^ ck ^ ek) ^ sk) by (bit_vector);
    assert((((hc ^ ck) ^ ek) ^ sk) ^ x == (((hc ^ x) ^ 0) ^ ck ^ ek) ^ sk) by (bit_vector);
    assert((((hc ^ ck) ^ ek) ^ sk) ^ y == (((hc ^ 0) ^ y) ^ ck ^ ek) ^ sk) by (bit_vector);
}

proof fn lemma_feature_swap(hc: u64, ck: u64, ek: u64, sk: u64, ck2: u64)
    ensures
        ((((hc ^ ck) ^ ek) ^ sk) ^ ck) ^ ck2 == ((hc ^ ck2) ^ ek) ^ sk,
{
    assert(((((hc ^ ck) ^ ek) ^ sk) ^ ck) ^ ck2 == ((hc ^ ck2) ^ ek) ^ sk) by (bit_vector);
}

proof fn lemma_ep_swap(hc: u64, ck: u64, ek: u64, sk: u64, ek2: u64)
    ensures
        ((((hc ^ ck) ^ ek) ^ sk) ^ ek) ^ ek2 == ((hc ^ ck) ^ ek2) ^ sk,
{
    assert(((((hc ^ ck) ^ ek) ^ sk) ^ ek) ^ ek2 == ((hc ^ ck) ^ ek2) ^ sk) by (bit_vector);
}

proof fn lemma_side_flip(hc: u64, ck: u64, ek: u64, side_white: bool)
    ensures
        (((hc ^ ck) ^ ek) ^ side_key(side_white)) ^ zkey(SIDE_INDEX) == ((hc ^ ck) ^ ek)
            ^ side_key(!side_white),
{
    let z = zkey(SIDE_INDEX);
    assert((((hc ^ ck) ^ ek) ^ 0u64) ^ z == ((hc ^ ck) ^ ek) ^ z) by (bit_vector);
    assert((((hc ^ ck) ^ ek) ^ z) ^ z == ((hc ^ ck) ^ ek) ^ 0u64) by (bit_vector);
}

} // verus!
