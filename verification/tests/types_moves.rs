//! Colors, pieces, squares and UCI move text.

use rust_chess_engine::moves::Move;
use rust_chess_engine::types::{square, Color, Piece, PieceKind, NO_SQ};

#[test]
fn color_roundtrip() {
    assert_eq!(Color::White.flip(), Color::Black);
    assert_eq!(Color::Black.flip(), Color::White);
    assert_eq!(Color::White.sign(), 1);
    assert_eq!(Color::Black.sign(), -1);
}

#[test]
fn piece_make_and_decompose() {
    for &c in &[Color::White, Color::Black] {
        for &k in &[
            PieceKind::Pawn,
            PieceKind::Knight,
            PieceKind::Bishop,
            PieceKind::Rook,
            PieceKind::Queen,
            PieceKind::King,
        ] {
            let p = Piece::make(c, k);
            assert_eq!(p.color(), Some(c));
            assert_eq!(p.kind(), Some(k));
            assert!(p.is_color(c));
            assert!(!p.is_color(c.flip()));
        }
    }
    assert_eq!(Piece::Empty.color(), None);
    assert_eq!(Piece::Empty.kind(), None);
}

#[test]
fn piece_char_roundtrip() {
    for c in "PNBRQKpnbrqk".chars() {
        assert_eq!(Piece::from_char(c).to_char(), c);
    }
    assert_eq!(Piece::from_char('x'), Piece::Empty);
}

#[test]
fn square_on_board() {
    assert!(square::on_board(square::make(0, 0)));
    assert!(square::on_board(square::make(7, 7)));
    let a2 = square::make(1, 0);
    assert!(!square::on_board_i32(a2 as i32 + 15));
}

#[test]
fn algebraic_roundtrip() {
    for r in 0..8 {
        for f in 0..8 {
            let s = square::make(r, f);
            let alg = square::to_alg(s);
            assert_eq!(square::from_alg(&alg), Some(s));
        }
    }
    assert_eq!(square::from_alg("z9"), None);
    assert_eq!(square::from_alg(""), None);
    assert_eq!(square::to_alg(NO_SQ), "??");
}

#[test]
fn uci_roundtrip() {
    let m = Move::new(square::from_alg("e2").unwrap(), square::from_alg("e4").unwrap());
    assert_eq!(m.to_uci(), "e2e4");
    assert_eq!(Move::from_uci("e2e4"), Some(m));
}

#[test]
fn uci_promotion() {
    let m = Move::from_uci("e7e8q").unwrap();
    assert_eq!(m.from, square::from_alg("e7").unwrap());
    assert_eq!(m.to, square::from_alg("e8").unwrap());
    assert_eq!(m.promotion, Some(Piece::WQ));
    assert_eq!(m.to_uci(), "e7e8q");
}

#[test]
fn uci_rejects_garbage() {
    assert_eq!(Move::from_uci("zz99"), None);
    assert_eq!(Move::from_uci("e2"), None);
    assert_eq!(Move::from_uci("e2e4x"), None);
}
