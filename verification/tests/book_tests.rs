use rust_engine::bitboard::bitboards;
use rust_engine::book::{choose_book_move, decode_book_move, promo_piece};
use rust_engine::position::{Position, DEFAULT_FEN};
use rust_engine::types::{Move, MoveFlag, Piece, Square};

const E2E4: u16 = (1 << 9) | (4 << 6) | (3 << 3) | 4;
const E2E3: u16 = (1 << 9) | (4 << 6) | (2 << 3) | 4;
const E7E5: u16 = (6 << 9) | (4 << 6) | (4 << 3) | 4;

#[test]
fn book_promotion_codes() {
    assert_eq!(promo_piece(0), Some(None));
    assert_eq!(promo_piece(1), Some(Some(Piece::Knight)));
    assert_eq!(promo_piece(4), Some(Some(Piece::Queen)));
    assert_eq!(promo_piece(5), None);
}

#[test]
fn book_moves_decode() {
    assert_eq!(decode_book_move(E2E4), Some((Square::E2, Square::E4, None)));
    assert_eq!(decode_book_move(E2E4 | (5 << 12)), None);
    // A king taking its own rook is the castle.
    let e1h1: u16 = (4 << 6) | 7;
    assert_eq!(decode_book_move(e1h1), Some((Square::E1, Square::G1, None)));
    let e8a8: u16 = (7 << 9) | (4 << 6) | (7 << 3);
    assert_eq!(decode_book_move(e8a8), Some((Square::E8, Square::C8, None)));
    let a7a8q: u16 = (4 << 12) | (6 << 9) | (7 << 3);
    assert_eq!(decode_book_move(a7a8q), Some((Square::A7, Square::A8, Some(Piece::Queen))));
}

#[test]
fn book_chooses_heaviest_legal_entry() {
    let bbs = bitboards();
    let pos = Position::from_fen(DEFAULT_FEN);
    let e2e4 = Move::new(Square::E2, Square::E4, MoveFlag::DoublePush);
    let e2e3 = Move::new(Square::E2, Square::E3, MoveFlag::Quiet);
    assert_eq!(choose_book_move(&pos, &bbs, &[(E2E4, 10), (E2E3, 30)]), Some(e2e3));
    assert_eq!(choose_book_move(&pos, &bbs, &[(E2E4, 30), (E2E3, 30)]), Some(e2e4));
    assert_eq!(choose_book_move(&pos, &bbs, &[(E7E5, 100), (E2E4, 1)]), Some(e2e4));
    assert_eq!(choose_book_move(&pos, &bbs, &[(E7E5, 100)]), None);
    assert_eq!(choose_book_move(&pos, &bbs, &[]), None);
    assert_eq!(choose_book_move(&pos, &bbs, &[(E2E4, 1), (E2E4 | (6 << 12), 5)]), None);
}
