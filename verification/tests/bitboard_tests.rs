use rust_engine::bitboard::{bitboards, Bitboard};
use rust_engine::position::{Position, StateInfo};
use rust_engine::types::{Colour, Square};

fn set_board(fen: &str) -> (Position, StateInfo) {
    let pos = Position::from_fen(fen);
    let mut state = StateInfo::new();
    state.set_from_position(&pos);
    return (pos, state);
}

#[test]
fn bitboard_updates_work() {
    let mut bb = Bitboard::new(0);
    let mut bb_value: u64 = 0;
    bb.set_square(Square::E4);
    bb_value += 1 << Square::E4.u8();
    assert_eq!(bb.0, bb_value);
    bb.set_square(Square::H8);
    bb_value += 1 << Square::H8.u8();
    assert_eq!(bb.0, bb_value);

    bb.clear_square(Square::E4);
    bb_value -= 1 << Square::E4.u8();
    assert_eq!(bb.0, bb_value);
    bb.clear_square(Square::H8);
    bb_value -= 1 << Square::H8.u8();
    assert_eq!(bb.0, bb_value);
}

#[test]
fn bitboard_lsb_is_correct() {
    let (pos, _) = set_board("8/1B6/5k2/1P5p/6r1/2NK4/8/8 w - - 0 1");
    assert_eq!(pos.occupancy[Colour::White.idx()].lsb(), Square::C3);
    assert_eq!(pos.occupancy[Colour::Black.idx()].lsb(), Square::G4);
    assert_eq!(pos.occupancy[2].lsb(), Square::C3);
}

#[test]
fn bitboard_pop_lsb_is_correct() {
    let (mut pos, _) = set_board("8/1B6/5k2/1P5p/6r1/2NK4/8/8 w - - 0 1");
    let (start, _) = set_board("8/1B6/5k2/1P5p/6r1/2NK4/8/8 w - - 0 1");

    assert_eq!(pos.occupancy[Colour::White.idx()].pop_lsb(), Square::C3);
    assert_ne!(
        pos.occupancy[Colour::White.idx()],
        start.occupancy[Colour::White.idx()]
    );

    assert_eq!(pos.occupancy[Colour::Black.idx()].pop_lsb(), Square::G4);
    assert_eq!(pos.occupancy[Colour::Black.idx()].pop_lsb(), Square::H5);
    assert_ne!(
        pos.occupancy[Colour::Black.idx()],
        start.occupancy[Colour::Black.idx()]
    );
}

#[test]
fn bitboard_lsb_bb_is_correct() {
    let (pos, _) = set_board("8/1B6/5k2/1P5p/6r1/2NK4/8/8 w - - 0 1");
    assert_eq!(
        pos.occupancy[Colour::White.idx()].lsb_bb(),
        Square::C3.bit()
    );
    assert_eq!(
        pos.occupancy[Colour::Black.idx()].lsb_bb(),
        Square::G4.bit()
    );
    assert_eq!(pos.occupancy[2].lsb_bb(), Square::C3.bit());
    assert_eq!(Bitboard::new(0).lsb_bb(), 0u64);
}

#[test]
fn bitboard_ops_basic() {
    let a = Bitboard::new(0x0F0F_0000_0000_F0F0);
    let b = Bitboard::new(0x00FF_00FF_00FF_00FF);

    assert_eq!((a & b).u64(), 0x000F_0000_0000_00F0);
    assert_eq!((a | b).u64(), 0x0FFF_00FF_00FF_F0FF);
    assert_eq!((a ^ b).u64(), 0x0FF0_00FF_00FF_F00F);
    assert_eq!((!a).u64(), 0xF0F0_FFFF_FFFF_0F0F);
    assert_eq!((!b).u64(), 0xFF00_FF00_FF00_FF00);
}

#[test]
fn bitboard_shift_ops() {
    let a = Bitboard::new(0xFFFF_0000_0000_FFFF);
    let b = Bitboard::new(0x0000_0000_0000_0001);
    let c = Bitboard::new(0xF000_0000_0000_0000);

    assert_eq!((a << 1).u64(), 0xFFFE_0000_0001_FFFE);
    assert_eq!((a << 8).u64(), 0xFF00_0000_00FF_FF00);
    assert_eq!((b << 1).u64(), 0x2);
    assert_eq!((b << 8).u64(), 0x100);

    assert_eq!((a >> 1).u64(), 0x7FFF_8000_0000_7FFF);
    assert_eq!((a >> 8).u64(), 0x00FF_FF00_0000_00FF);
    assert_eq!((c >> 1).u64(), 0x7800_0000_0000_0000);
    assert_eq!((c >> 63).u64(), 0x1);
}

#[test]
fn bitboard_assign_ops() {
    let mut b = Bitboard::new(0xFFFF_0000_0000_FFFF);
    b &= Bitboard::new(0xFF00_FF00_00FF_00FF);
    assert_eq!(b.u64(), 0xFF00_0000_0000_00FF);

    b |= Bitboard::new(0xFFF0_0F00_FF00_F000);
    assert_eq!(b.u64(), 0xFFF0_0F00_FF00_F0FF);

    b ^= Bitboard::new(0xFF00_F000_0FF0_00F0);
    assert_eq!(b.u64(), 0x00F0_FF00_F0F0_F00F);
}

#[test]
fn init_evasion_masks_correctly() {
    let bbs = bitboards();

    for i in 0..64u8 {
        let s = Square::new(i);
        assert_eq!(bbs.evasion_mask(s, s).0, 0);
    }

    // Init same rank correctly
    assert_eq!(bbs.evasion_mask(Square::A1, Square::H1).0, 0xFE);
    assert_eq!(bbs.evasion_mask(Square::H6, Square::B6).0, 0x7E00_0000_0000);

    // Init same file correctly
    assert_eq!(bbs.evasion_mask(Square::B1, Square::B8).0, 0x0202_0202_0202_0200);
    assert_eq!(bbs.evasion_mask(Square::F7, Square::F2).0, 0x0000_2020_2020_2000);

    // Init same diag correctly
    assert_eq!(bbs.evasion_mask(Square::A1, Square::H8).0, 0x8040_2010_0804_0200);
    assert_eq!(bbs.evasion_mask(Square::E7, Square::B4).0, 0x0000_0804_0200_0000);

    // Non-inline squares return only the end square
    assert_eq!(bbs.evasion_mask(Square::B1, Square::C7).0, 0x0004_0000_0000_0000);
    assert_eq!(bbs.evasion_mask(Square::F7, Square::G2).0, 0x4000);
}

#[test]
fn init_line_bbs_correct() {
    let bbs = bitboards();

    for i in 0..64u8 {
        let s = Square::new(i);
        assert_eq!(bbs.line_bb(s, s).0, 0);
    }

    // Init same rank correctly
    assert_eq!(bbs.line_bb(Square::A1, Square::H1).0, 0xFF);
    assert_eq!(bbs.line_bb(Square::H6, Square::B6).0, 0xFF00_0000_0000);

    // Init same file correctly
    assert_eq!(bbs.line_bb(Square::B1, Square::B8).0, 0x0202_0202_0202_0202);
    assert_eq!(bbs.line_bb(Square::F7, Square::F2).0, 0x2020_2020_2020_2020);

    // Init same diag correctly
    assert_eq!(bbs.line_bb(Square::B2, Square::G7).0, 0x8040_2010_0804_0201);
    assert_eq!(bbs.line_bb(Square::E7, Square::B4).0, 0x2010_0804_0201_0000);

    // Non-inline squares return 0
    assert_eq!(bbs.line_bb(Square::B1, Square::C7).0, 0);
    assert_eq!(bbs.line_bb(Square::F7, Square::G2).0, 0);
}

#[test]
fn init_king_attacks_correctly() {
    let bbs = bitboards();

    // Check that center squares are correct
    let expected_e5 = Square::D6.bitboard()
        | Square::E6.bitboard()
        | Square::F6.bitboard()
        | Square::F5.bitboard()
        | Square::F4.bitboard()
        | Square::E4.bitboard()
        | Square::D4.bitboard()
        | Square::D5.bitboard();

    assert_eq!(bbs.king_attacks(Square::E5), expected_e5);

    // Check that edge squares are correct
    let expected_a8 = Square::A7.bitboard() | Square::B7.bitboard() | Square::B8.bitboard();

    assert_eq!(bbs.king_attacks(Square::A8), expected_a8);
}

#[test]
fn init_knight_attacks_correctly() {
    let bbs = bitboards();

    // Check that center squares are correct
    let expected_d5 = Square::C7.bitboard()
        | Square::E7.bitboard()
        | Square::F6.bitboard()
        | Square::F4.bitboard()
        | Square::E3.bitboard()
        | Square::C3.bitboard()
        | Square::B4.bitboard()
        | Square::B6.bitboard();

    assert_eq!(bbs.knight_attacks(Square::D5), expected_d5);

    // Check that edge squares are correct
    let expected_h2 = Square::G4.bitboard() | Square::F3.bitboard() | Square::F1.bitboard();

    assert_eq!(bbs.knight_attacks(Square::H2), expected_h2);
}

#[test]
fn init_pawn_attacks_correctly() {
    let bbs = bitboards();

    // Ensure white and black attacks are not equal
    assert_ne!(
        bbs.pawn_attacks(Square::E4, Colour::White),
        bbs.pawn_attacks(Square::E4, Colour::Black)
    );

    // Check center attacks
    let white_expected_d4 = Square::C5.bitboard() | Square::E5.bitboard();
    let black_expected_d4 = Square::C3.bitboard() | Square::E3.bitboard();

    assert_eq!(bbs.pawn_attacks(Square::D4, Colour::White), white_expected_d4);
    assert_eq!(bbs.pawn_attacks(Square::D4, Colour::Black), black_expected_d4);

    // Check edge square attacks
    let white_expected_a5 = Square::B6.bitboard();
    let black_expected_h6 = Square::G5.bitboard();

    assert_eq!(bbs.pawn_attacks(Square::A5, Colour::White), white_expected_a5);
    assert_eq!(bbs.pawn_attacks(Square::H6, Colour::Black), black_expected_h6);

    // Check promotion rank squares
    let white_expected_c8 = Bitboard::new(0);
    let black_expected_d1 = Bitboard::new(0);

    assert_eq!(bbs.pawn_attacks(Square::C8, Colour::White), white_expected_c8);
    assert_eq!(bbs.pawn_attacks(Square::D1, Colour::Black), black_expected_d1);
}
