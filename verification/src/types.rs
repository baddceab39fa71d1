//! Core value types shared across the whole engine: colors, pieces, piece
//! kinds, castling-right bits, and (in [`square`]) the `0x88` square model.
//!
//! Squares are stored in a 128-entry array indexed `0..=127`. A square index
//! is split into a rank (`index >> 4`) and a file (`index & 7`); a valid
//! square has no bit of the mask `0x88` set.

use vstd::prelude::*;

pub mod square;

verus! {

/// A board square in the `0x88` representation (`0..=127`).
pub type Sq = usize;

/// The number of indices in the `0x88` board array.
pub const BOARD_ARRAY_SIZE: usize = 128;

/// Sentinel used where "no square" must be representable in a `Sq` slot.
pub const NO_SQ: Sq = 127;

/// White kingside castling right (`O-O`).
pub const CASTLE_WK: u8 = 1;

/// White queenside castling right (`O-O-O`).
pub const CASTLE_WQ: u8 = 2;

/// Black kingside castling right (`O-O`).
pub const CASTLE_BK: u8 = 4;

/// Black queenside castling right (`O-O-O`).
pub const CASTLE_BQ: u8 = 8;

/// The side to move / piece owner.
#[derive(Copy, Clone, PartialEq, Eq, Structural, Debug, Hash)]
pub enum Color {
    White,
    Black,
}

impl Color {
    pub open spec fn spec_flip(self) -> Color {
        match self {
            Color::White => Color::Black,
            Color::Black => Color::White,
        }
    }

    pub open spec fn spec_index(self) -> usize {
        match self {
            Color::White => 0,
            Color::Black => 1,
        }
    }

    pub open spec fn spec_sign(self) -> i32 {
        match self {
            Color::White => 1,
            Color::Black => -1i32,
        }
    }

    /// The opposing color.
    #[verifier::when_used_as_spec(spec_flip)]
    pub fn flip(self) -> (r: Color)
        ensures
            r == self.spec_flip(),
    {
        match self {
            Color::White => Color::Black,
            Color::Black => Color::White,
        }
    }

    /// `true` for [`Color::White`].
    pub fn is_white(self) -> (r: bool)
        ensures
            r == (self == Color::White),
    {
        match self {
            Color::White => true,
            Color::Black => false,
        }
    }

    /// A stable index: white = 0, black = 1.
    #[verifier::when_used_as_spec(spec_index)]
    pub fn index(self) -> (r: usize)
        ensures
            r == self.spec_index(),
    {
        match self {
            Color::White => 0,
            Color::Black => 1,
        }
    }

    /// The sign used to fold a white-relative score into the color's
    /// perspective: `+1` for white, `-1` for black.
    #[verifier::when_used_as_spec(spec_sign)]
    pub fn sign(self) -> (r: i32)
        ensures
            r == self.spec_sign(),
    {
        match self {
            Color::White => 1,
            Color::Black => -1,
        }
    }

    /// The color's name in lower case.
    pub fn name(self) -> (r: &'static str)
        ensures
            self == Color::White ==> r@ == "white"@,
            self == Color::Black ==> r@ == "black"@,
    {
        match self {
            Color::White => "white",
            Color::Black => "black",
        }
    }
}

/// A piece type, independent of color.
#[derive(Copy, Clone, PartialEq, Eq, Structural, Debug, Hash)]
pub enum PieceKind {
    Pawn,
    Knight,
    Bishop,
    Rook,
    Queen,
    King,
}

impl PieceKind {
    pub open spec fn spec_index(self) -> usize {
        match self {
            PieceKind::Pawn => 0,
            PieceKind::Knight => 1,
            PieceKind::Bishop => 2,
            PieceKind::Rook => 3,
            PieceKind::Queen => 4,
            PieceKind::King => 5,
        }
    }

    pub open spec fn spec_to_char(self) -> char {
        match self {
            PieceKind::Pawn => 'p',
            PieceKind::Knight => 'n',
            PieceKind::Bishop => 'b',
            PieceKind::Rook => 'r',
            PieceKind::Queen => 'q',
            PieceKind::King => 'k',
        }
    }

    /// A stable `0..=5` index for table lookups.
    #[verifier::when_used_as_spec(spec_index)]
    pub fn index(self) -> (r: usize)
        ensures
            r == self.spec_index(),
            r < 6,
    {
        match self {
            PieceKind::Pawn => 0,
            PieceKind::Knight => 1,
            PieceKind::Bishop => 2,
            PieceKind::Rook => 3,
            PieceKind::Queen => 4,
            PieceKind::King => 5,
        }
    }

    /// Lowercase letter for the piece kind (`'p'` for the pawn).
    #[verifier::when_used_as_spec(spec_to_char)]
    pub fn to_char(self) -> (r: char)
        ensures
            r == self.spec_to_char(),
    {
        match self {
            PieceKind::Pawn => 'p',
            PieceKind::Knight => 'n',
            PieceKind::Bishop => 'b',
            PieceKind::Rook => 'r',
            PieceKind::Queen => 'q',
            PieceKind::King => 'k',
        }
    }
}

/// A colored piece occupying a square, or [`Piece::Empty`].
#[derive(Copy, Clone, PartialEq, Eq, Structural, Debug, Hash)]
pub enum Piece {
    Empty,
    WP,
    WN,
    WB,
    WR,
    WQ,
    WK,
    BP,
    BN,
    BB,
    BR,
    BQ,
    BK,
}

impl Piece {
    pub open spec fn spec_from_char(c: char) -> Piece {
        if c == 'P' {
            Piece::WP
        } else if c == 'N' {
            Piece::WN
        } else if c == 'B' {
            Piece::WB
        } else if c == 'R' {
            Piece::WR
        } else if c == 'Q' {
            Piece::WQ
        } else if c == 'K' {
            Piece::WK
        } else if c == 'p' {
            Piece::BP
        } else if c == 'n' {
            Piece::BN
        } else if c == 'b' {
            Piece::BB
        } else if c == 'r' {
            Piece::BR
        } else if c == 'q' {
            Piece::BQ
        } else if c == 'k' {
            Piece::BK
        } else {
            Piece::Empty
        }
    }

    pub open spec fn spec_to_char(self) -> char {
        match self {
            Piece::WP => 'P',
            Piece::WN => 'N',
            Piece::WB => 'B',
            Piece::WR => 'R',
            Piece::WQ => 'Q',
            Piece::WK => 'K',
            Piece::BP => 'p',
            Piece::BN => 'n',
            Piece::BB => 'b',
            Piece::BR => 'r',
            Piece::BQ => 'q',
            Piece::BK => 'k',
            Piece::Empty => '.',
        }
    }

    pub open spec fn spec_make(color: Color, kind: PieceKind) -> Piece {
        match color {
            Color::White => match kind {
                PieceKind::Pawn => Piece::WP,
                PieceKind::Knight => Piece::WN,
                PieceKind::Bishop => Piece::WB,
                PieceKind::Rook => Piece::WR,
                PieceKind::Queen => Piece::WQ,
                PieceKind::King => Piece::WK,
            },
            Color::Black => match kind {
                PieceKind::Pawn => Piece::BP,
                PieceKind::Knight => Piece::BN,
                PieceKind::Bishop => Piece::BB,
                PieceKind::Rook => Piece::BR,
                PieceKind::Queen => Piece::BQ,
                PieceKind::King => Piece::BK,
            },
        }
    }

    pub open spec fn spec_is_white(self) -> bool {
        self is WP || self is WN || self is WB || self is WR || self is WQ || self is WK
    }

    pub open spec fn spec_is_black(self) -> bool {
        self is BP || self is BN || self is BB || self is BR || self is BQ || self is BK
    }

    pub open spec fn spec_is_empty(self) -> bool {
        self is Empty
    }

    pub open spec fn spec_color(self) -> Option<Color> {
        if self.spec_is_white() {
            Some(Color::White)
        } else if self.spec_is_black() {
            Some(Color::Black)
        } else {
            None
        }
    }

    pub open spec fn spec_kind(self) -> Option<PieceKind> {
        match self {
            Piece::WP | Piece::BP => Some(PieceKind::Pawn),
            Piece::WN | Piece::BN => Some(PieceKind::Knight),
            Piece::WB | Piece::BB => Some(PieceKind::Bishop),
            Piece::WR | Piece::BR => Some(PieceKind::Rook),
            Piece::WQ | Piece::BQ => Some(PieceKind::Queen),
            Piece::WK | Piece::BK => Some(PieceKind::King),
            Piece::Empty => None,
        }
    }

    pub open spec fn spec_zobrist_index(self) -> Option<usize> {
        match self {
            Piece::WP => Some(0),
            Piece::WN => Some(1),
            Piece::WB => Some(2),
            Piece::WR => Some(3),
            Piece::WQ => Some(4),
            Piece::WK => Some(5),
            Piece::BP => Some(6),
            Piece::BN => Some(7),
            Piece::BB => Some(8),
            Piece::BR => Some(9),
            Piece::BQ => Some(10),
            Piece::BK => Some(11),
            Piece::Empty => None,
        }
    }

    pub open spec fn spec_is_color(self, color: Color) -> bool {
        match color {
            Color::White => self.spec_is_white(),
            Color::Black => self.spec_is_black(),
        }
    }

    /// `true` if the piece has kind `kind` (any color).
    pub open spec fn has_kind(self, kind: PieceKind) -> bool {
        self.spec_kind() == Some(kind)
    }

    /// Parse a FEN/SAN piece letter. Unknown characters map to
    /// [`Piece::Empty`].
    #[verifier::when_used_as_spec(spec_from_char)]
    pub fn from_char(c: char) -> (r: Piece)
        ensures
            r == Piece::spec_from_char(c),
    {
        match c {
            'P' => Piece::WP,
            'N' => Piece::WN,
            'B' => Piece::WB,
            'R' => Piece::WR,
            'Q' => Piece::WQ,
            'K' => Piece::WK,
            'p' => Piece::BP,
            'n' => Piece::BN,
            'b' => Piece::BB,
            'r' => Piece::BR,
            'q' => Piece::BQ,
            'k' => Piece::BK,
            _ => Piece::Empty,
        }
    }

    /// The FEN/UI letter for this piece (`'.'` for empty).
    #[verifier::when_used_as_spec(spec_to_char)]
    pub fn to_char(self) -> (r: char)
        ensures
            r == self.spec_to_char(),
    {
        match self {
            Piece::WP => 'P',
            Piece::WN => 'N',
            Piece::WB => 'B',
            Piece::WR => 'R',
            Piece::WQ => 'Q',
            Piece::WK => 'K',
            Piece::BP => 'p',
            Piece::BN => 'n',
            Piece::BB => 'b',
            Piece::BR => 'r',
            Piece::BQ => 'q',
            Piece::BK => 'k',
            Piece::Empty => '.',
        }
    }

    /// Build a colored piece from a color and kind.
    #[verifier::when_used_as_spec(spec_make)]
    pub fn make(color: Color, kind: PieceKind) -> (r: Piece)
        ensures
            r == Piece::spec_make(color, kind),
    {
        match color {
            Color::White => match kind {
                PieceKind::Pawn => Piece::WP,
                PieceKind::Knight => Piece::WN,
                PieceKind::Bishop => Piece::WB,
                PieceKind::Rook => Piece::WR,
                PieceKind::Queen => Piece::WQ,
                PieceKind::King => Piece::WK,
            },
            Color::Black => match kind {
                PieceKind::Pawn => Piece::BP,
                PieceKind::Knight => Piece::BN,
                PieceKind::Bishop => Piece::BB,
                PieceKind::Rook => Piece::BR,
                PieceKind::Queen => Piece::BQ,
                PieceKind::King => Piece::BK,
            },
        }
    }

    #[verifier::when_used_as_spec(spec_is_white)]
    pub fn is_white(self) -> (r: bool)
        ensures
            r == self.spec_is_white(),
    {
        match self {
            Piece::WP | Piece::WN | Piece::WB | Piece::WR | Piece::WQ | Piece::WK => true,
            _ => false,
        }
    }

    #[verifier::when_used_as_spec(spec_is_black)]
    pub fn is_black(self) -> (r: bool)
        ensures
            r == self.spec_is_black(),
    {
        match self {
            Piece::BP | Piece::BN | Piece::BB | Piece::BR | Piece::BQ | Piece::BK => true,
            _ => false,
        }
    }

    #[verifier::when_used_as_spec(spec_is_empty)]
    pub fn is_empty(self) -> (r: bool)
        ensures
            r == self.spec_is_empty(),
    {
        match self {
            Piece::Empty => true,
            _ => false,
        }
    }

    /// The color of the piece, or `None` if empty.
    #[verifier::when_used_as_spec(spec_color)]
    pub fn color(self) -> (r: Option<Color>)
        ensures
            r == self.spec_color(),
    {
        if self.is_white() {
            Some(Color::White)
        } else if self.is_black() {
            Some(Color::Black)
        } else {
            None
        }
    }

    /// The kind of the piece, or `None` if empty.
    #[verifier::when_used_as_spec(spec_kind)]
    pub fn kind(self) -> (r: Option<PieceKind>)
        ensures
            r == self.spec_kind(),
    {
        match self {
            Piece::WP | Piece::BP => Some(PieceKind::Pawn),
            Piece::WN | Piece::BN => Some(PieceKind::Knight),
            Piece::WB | Piece::BB => Some(PieceKind::Bishop),
            Piece::WR | Piece::BR => Some(PieceKind::Rook),
            Piece::WQ | Piece::BQ => Some(PieceKind::Queen),
            Piece::WK | Piece::BK => Some(PieceKind::King),
            Piece::Empty => None,
        }
    }

    /// Dense `0..=11` index (white pieces `0..=5`, black `6..=11`) used by the
    /// Zobrist piece-key table. Returns `None` for [`Piece::Empty`].
    #[verifier::when_used_as_spec(spec_zobrist_index)]
    pub fn zobrist_index(self) -> (r: Option<usize>)
        ensures
            r == self.spec_zobrist_index(),
    {
        match self {
            Piece::WP => Some(0),
            Piece::WN => Some(1),
            Piece::WB => Some(2),
            Piece::WR => Some(3),
            Piece::WQ => Some(4),
            Piece::WK => Some(5),
            Piece::BP => Some(6),
            Piece::BN => Some(7),
            Piece::BB => Some(8),
            Piece::BR => Some(9),
            Piece::BQ => Some(10),
            Piece::BK => Some(11),
            Piece::Empty => None,
        }
    }

    /// `true` if `self` belongs to `color`.
    #[verifier::when_used_as_spec(spec_is_color)]
    pub fn is_color(self, color: Color) -> (r: bool)
        ensures
            r == self.spec_is_color(color),
    {
        match color {
            Color::White => self.is_white(),
            Color::Black => self.is_black(),
        }
    }
}

/// A piece built from a color and a kind has that color and that kind.
pub proof fn lemma_make_decompose(color: Color, kind: PieceKind)
    ensures
        Piece::spec_make(color, kind).spec_color() == Some(color),
        Piece::spec_make(color, kind).spec_kind() == Some(kind),
        Piece::spec_make(color, kind).spec_is_color(color),
        !Piece::spec_make(color, kind).spec_is_color(color.spec_flip()),
{
}

/// Every letter of `PNBRQKpnbrqk` parses to a piece that prints back as the
/// same letter; every other character parses to the empty piece.
pub proof fn lemma_piece_char_roundtrip(c: char)
    ensures
        !Piece::spec_from_char(c).spec_is_empty() ==> Piece::spec_from_char(c).spec_to_char()
            == c,
        Piece::spec_from_char(c).spec_is_empty() <==> !(c == 'P' || c == 'N' || c == 'B' || c
            == 'R' || c == 'Q' || c == 'K' || c == 'p' || c == 'n' || c == 'b' || c == 'r' || c
            == 'q' || c == 'k'),
{
}

/// A non-empty piece has exactly one color and one kind, and rebuilding it
/// from them gives it back.
pub proof fn lemma_piece_recompose(p: Piece)
    ensures
        !p.spec_is_empty() ==> p.spec_color() is Some && p.spec_kind() is Some && Piece::spec_make(
            p.spec_color()->0,
            p.spec_kind()->0,
        ) == p,
        p.spec_is_empty() <==> p.spec_color() is None,
        p.spec_is_empty() <==> p.spec_kind() is None,
{
}

} // verus!
