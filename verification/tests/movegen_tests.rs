use rust_engine::bitboard::Bitboards;
use rust_engine::movegen::{
    generate_all, generate_bishop_slider_moves, generate_king_moves, generate_knight_moves,
    generate_pawn_moves, generate_rook_slider_moves, GenType, MoveList,
};
use rust_engine::position::Position;
use rust_engine::types::{Move, MoveFlag, Piece, Square};


fn assert_same_moves(actual: &MoveList, expected: &[Move]) {
    let mut a = actual.as_slice().to_vec();
    let mut e = expected.to_vec();

    a.sort_by_key(|m| (m.from().idx(), m.to().idx(), m.flag().bits()));
    e.sort_by_key(|m| (m.from().idx(), m.to().idx(), m.flag().bits()));

    assert_eq!(a, e);
}

fn assert_both_sides(
    pos: &mut Position,
    bbs: &Bitboards,
    expected_white: &[Move],
    expected_black: &[Move],
    piece: Piece,
    moves: &mut MoveList,
) {
    let generate_moves = match piece {
        Piece::Pawn => generate_pawn_moves,
        Piece::Knight => generate_knight_moves,
        Piece::Bishop => generate_bishop_slider_moves,
        Piece::Rook => generate_rook_slider_moves,
        Piece::King => generate_king_moves,
        _ => unreachable!(),
    };

    generate_moves(pos, bbs, moves, GenType::All);
    assert_same_moves(moves, expected_white);

    moves.clear();
    pos.side_to_move = pos.side_to_move.opposite();
    generate_moves(pos, bbs, moves, GenType::All);
    assert_same_moves(moves, expected_black);

    moves.clear();
}

#[test]
fn generates_correct_knight_moves() {
    let mut pos = Position::default();
    let bbs = Bitboards::init();
    let mut moves = MoveList::new();

    // Generates the correct moves in the starting position as white and black
    let expected_white = [
        Move::new(Square::B1, Square::A3, MoveFlag::Quiet),
        Move::new(Square::B1, Square::C3, MoveFlag::Quiet),
        Move::new(Square::G1, Square::F3, MoveFlag::Quiet),
        Move::new(Square::G1, Square::H3, MoveFlag::Quiet),
    ];
    let expected_black = [
        Move::new(Square::B8, Square::A6, MoveFlag::Quiet),
        Move::new(Square::B8, Square::C6, MoveFlag::Quiet),
        Move::new(Square::G8, Square::F6, MoveFlag::Quiet),
        Move::new(Square::G8, Square::H6, MoveFlag::Quiet),
    ];
    assert_both_sides(
        &mut pos,
        &bbs,
        &expected_white,
        &expected_black,
        Piece::Knight,
        &mut moves,
    );

    // Generates correct moves in other position
    let mut pos = Position::from_fen(
        "r1bqkb1r/ppp2ppp/n3pn2/2Pp2B1/3P4/2N2N2/PP2PPPP/R2QKB1R w KQkq - 0 1",
    );

    let expected_white = [
        Move::new(Square::C3, Square::D5, MoveFlag::Capture),
        Move::new(Square::C3, Square::B5, MoveFlag::Quiet),
        Move::new(Square::C3, Square::A4, MoveFlag::Quiet),
        Move::new(Square::C3, Square::B1, MoveFlag::Quiet),
        Move::new(Square::C3, Square::E4, MoveFlag::Quiet),
        Move::new(Square::F3, Square::E5, MoveFlag::Quiet),
        Move::new(Square::F3, Square::H4, MoveFlag::Quiet),
        Move::new(Square::F3, Square::G1, MoveFlag::Quiet),
        Move::new(Square::F3, Square::D2, MoveFlag::Quiet),
    ];
    let expected_black = [
        Move::new(Square::A6, Square::B4, MoveFlag::Quiet),
        Move::new(Square::A6, Square::B8, MoveFlag::Quiet),
        Move::new(Square::A6, Square::C5, MoveFlag::Capture),
        Move::new(Square::F6, Square::G8, MoveFlag::Quiet),
        Move::new(Square::F6, Square::H5, MoveFlag::Quiet),
        Move::new(Square::F6, Square::G4, MoveFlag::Quiet),
        Move::new(Square::F6, Square::E4, MoveFlag::Quiet),
        Move::new(Square::F6, Square::D7, MoveFlag::Quiet),
    ];
    assert_both_sides(
        &mut pos,
        &bbs,
        &expected_white,
        &expected_black,
        Piece::Knight,
        &mut moves,
    );
}

#[test]
fn generates_correct_king_moves() {
    let mut pos = Position::default();
    let bbs = Bitboards::init();
    let mut moves = MoveList::new();

    // Default position should yield no king moves
    assert_both_sides(&mut pos, &bbs, &[], &[], Piece::King, &mut moves);

    // Gets correct king moves in other position
    let expected_white = [
        Move::new(Square::D6, Square::C7, MoveFlag::Quiet),
        Move::new(Square::D6, Square::D7, MoveFlag::Quiet),
        Move::new(Square::D6, Square::E7, MoveFlag::Quiet),
        Move::new(Square::D6, Square::E6, MoveFlag::Capture),
        Move::new(Square::D6, Square::D5, MoveFlag::Quiet),
        Move::new(Square::D6, Square::C5, MoveFlag::Quiet),
        Move::new(Square::D6, Square::C6, MoveFlag::Quiet),
    ];
    let expected_black = [
        Move::new(Square::A8, Square::B8, MoveFlag::Quiet),
        Move::new(Square::A8, Square::B7, MoveFlag::Capture),
        Move::new(Square::A8, Square::A7, MoveFlag::Quiet),
    ];
    let mut pos = Position::from_fen("k7/1N3rp1/3Kp2p/4P2P/8/6B1/8/8 w - - 0 1");
    assert_both_sides(
        &mut pos,
        &bbs,
        &expected_white,
        &expected_black,
        Piece::King,
        &mut moves,
    );

    // Correctly generates castling moves
    let expected_white = [
        Move::new(Square::E1, Square::G1, MoveFlag::KingCastle),
        Move::new(Square::E1, Square::C1, MoveFlag::QueenCastle),
        Move::new(Square::E1, Square::F1, MoveFlag::Quiet),
        Move::new(Square::E1, Square::D1, MoveFlag::Quiet),
    ];
    let expected_black = [
        Move::new(Square::E8, Square::G8, MoveFlag::KingCastle),
        Move::new(Square::E8, Square::C8, MoveFlag::QueenCastle),
        Move::new(Square::E8, Square::F8, MoveFlag::Quiet),
        Move::new(Square::E8, Square::D8, MoveFlag::Quiet),
    ];
    let mut pos = Position::from_fen("r3k2r/pppppppp/8/8/8/8/PPPPPPPP/R3K2R w KQkq - 0 1");
    assert_both_sides(
        &mut pos,
        &bbs,
        &expected_white,
        &expected_black,
        Piece::King,
        &mut moves,
    );

    let expected_white = [
        Move::new(Square::E1, Square::C1, MoveFlag::QueenCastle),
        Move::new(Square::E1, Square::F1, MoveFlag::Quiet),
        Move::new(Square::E1, Square::D1, MoveFlag::Quiet),
    ];
    let expected_black = [
        Move::new(Square::E8, Square::C8, MoveFlag::QueenCastle),
        Move::new(Square::E8, Square::D8, MoveFlag::Quiet),
    ];
    let mut pos = Position::from_fen("r3kb1r/pppppppp/8/8/8/8/PPPPPPPP/R3K2R w Qkq - 0 1");
    assert_both_sides(
        &mut pos,
        &bbs,
        &expected_white,
        &expected_black,
        Piece::King,
        &mut moves,
    );
}

#[test]
fn generates_correct_pawn_moves() {
    let mut pos = Position::default();
    let bbs = Bitboards::init();
    let mut moves = MoveList::new();

    // Generates correct pawn moves in starting position
    let expected_white = [
        Move::new(Square::A2, Square::A3, MoveFlag::Quiet),
        Move::new(Square::A2, Square::A4, MoveFlag::DoublePush),
        Move::new(Square::B2, Square::B3, MoveFlag::Quiet),
        Move::new(Square::B2, Square::B4, MoveFlag::DoublePush),
        Move::new(Square::C2, Square::C3, MoveFlag::Quiet),
        Move::new(Square::C2, Square::C4, MoveFlag::DoublePush),
        Move::new(Square::D2, Square::D3, MoveFlag::Quiet),
        Move::new(Square::D2, Square::D4, MoveFlag::DoublePush),
        Move::new(Square::E2, Square::E3, MoveFlag::Quiet),
        Move::new(Square::E2, Square::E4, MoveFlag::DoublePush),
        Move::new(Square::F2, Square::F3, MoveFlag::Quiet),
        Move::new(Square::F2, Square::F4, MoveFlag::DoublePush),
        Move::new(Square::G2, Square::G3, MoveFlag::Quiet),
        Move::new(Square::G2, Square::G4, MoveFlag::DoublePush),
        Move::new(Square::H2, Square::H3, MoveFlag::Quiet),
        Move::new(Square::H2, Square::H4, MoveFlag::DoublePush),
    ];
    let expected_black = [
        Move::new(Square::A7, Square::A6, MoveFlag::Quiet),
        Move::new(Square::A7, Square::A5, MoveFlag::DoublePush),
        Move::new(Square::B7, Square::B6, MoveFlag::Quiet),
        Move::new(Square::B7, Square::B5, MoveFlag::DoublePush),
        Move::new(Square::C7, Square::C6, MoveFlag::Quiet),
        Move::new(Square::C7, Square::C5, MoveFlag::DoublePush),
        Move::new(Square::D7, Square::D6, MoveFlag::Quiet),
        Move::new(Square::D7, Square::D5, MoveFlag::DoublePush),
        Move::new(Square::E7, Square::E6, MoveFlag::Quiet),
        Move::new(Square::E7, Square::E5, MoveFlag::DoublePush),
        Move::new(Square::F7, Square::F6, MoveFlag::Quiet),
        Move::new(Square::F7, Square::F5, MoveFlag::DoublePush),
        Move::new(Square::G7, Square::G6, MoveFlag::Quiet),
        Move::new(Square::G7, Square::G5, MoveFlag::DoublePush),
        Move::new(Square::H7, Square::H6, MoveFlag::Quiet),
        Move::new(Square::H7, Square::H5, MoveFlag::DoublePush),
    ];
    assert_both_sides(
        &mut pos,
        &bbs,
        &expected_white,
        &expected_black,
        Piece::Pawn,
        &mut moves,
    );

    // Correctly finds double moves
    let expected_white = [
        Move::new(Square::A2, Square::A3, MoveFlag::Quiet),
        Move::new(Square::A2, Square::A4, MoveFlag::DoublePush),
        Move::new(Square::H3, Square::H4, MoveFlag::Quiet),
    ];
    let expected_black = [
        Move::new(Square::H7, Square::H6, MoveFlag::Quiet),
        Move::new(Square::H7, Square::H5, MoveFlag::DoublePush),
        Move::new(Square::A6, Square::A5, MoveFlag::Quiet),
    ];
    let mut pos = Position::from_fen("4k3/7p/p7/8/8/7P/P7/4K3 w - - 0 1");
    assert_both_sides(
        &mut pos,
        &bbs,
        &expected_white,
        &expected_black,
        Piece::Pawn,
        &mut moves,
    );

    // Correctly finds capture moves
    let expected_white = [
        Move::new(Square::C4, Square::D5, MoveFlag::Capture),
        Move::new(Square::C4, Square::C5, MoveFlag::Quiet),
        Move::new(Square::H3, Square::G4, MoveFlag::Capture),
    ];
    let expected_black = [
        Move::new(Square::D5, Square::C4, MoveFlag::Capture),
        Move::new(Square::D5, Square::D4, MoveFlag::Quiet),
        Move::new(Square::H4, Square::G3, MoveFlag::Capture),
    ];
    let mut pos = Position::from_fen("4k3/8/8/rN1p4/P1P1p1np/n3P1BP/8/4K3 w - - 0 1");
    assert_both_sides(
        &mut pos,
        &bbs,
        &expected_white,
        &expected_black,
        Piece::Pawn,
        &mut moves,
    );

    // Correctly finds en passant captures
    let expected_white = [
        Move::new(Square::C5, Square::C6, MoveFlag::Quiet),
        Move::new(Square::E5, Square::E6, MoveFlag::Quiet),
        Move::new(Square::C5, Square::D6, MoveFlag::EpCapture),
        Move::new(Square::E5, Square::D6, MoveFlag::EpCapture),
    ];
    let pos = Position::from_fen("3k4/8/8/2PpP3/8/8/8/3K4 w - d6 0 1");
    generate_pawn_moves(&pos, &bbs, &mut moves, GenType::All);
    assert_same_moves(&moves, &expected_white);
    moves.clear();

    let expected_black = [
        Move::new(Square::C4, Square::C3, MoveFlag::Quiet),
        Move::new(Square::E4, Square::E3, MoveFlag::Quiet),
        Move::new(Square::C4, Square::D3, MoveFlag::EpCapture),
        Move::new(Square::E4, Square::D3, MoveFlag::EpCapture),
    ];
    let pos = Position::from_fen("3k4/8/8/8/2pPp3/8/8/3K4 b - d3 0 1");
    generate_pawn_moves(&pos, &bbs, &mut moves, GenType::All);
    assert_same_moves(&moves, &expected_black);
    moves.clear();

    // Correctly finds promotion moves
    let expected_white = [
        Move::new(Square::G7, Square::G8, MoveFlag::PromoN),
        Move::new(Square::G7, Square::G8, MoveFlag::PromoB),
        Move::new(Square::G7, Square::G8, MoveFlag::PromoR),
        Move::new(Square::G7, Square::G8, MoveFlag::PromoQ),
    ];
    let expected_black = [
        Move::new(Square::A2, Square::A1, MoveFlag::PromoN),
        Move::new(Square::A2, Square::A1, MoveFlag::PromoB),
        Move::new(Square::A2, Square::A1, MoveFlag::PromoR),
        Move::new(Square::A2, Square::A1, MoveFlag::PromoQ),
    ];
    let mut pos = Position::from_fen("3k4/6P1/8/8/8/8/p7/3K4 w - - 0 1");
    assert_both_sides(
        &mut pos,
        &bbs,
        &expected_white,
        &expected_black,
        Piece::Pawn,
        &mut moves,
    );

    // Correctly finds capturing promotions
    let expected_white = [
        Move::new(Square::H7, Square::G8, MoveFlag::PromoCaptureN),
        Move::new(Square::H7, Square::G8, MoveFlag::PromoCaptureB),
        Move::new(Square::H7, Square::G8, MoveFlag::PromoCaptureR),
        Move::new(Square::H7, Square::G8, MoveFlag::PromoCaptureQ),
    ];
    let expected_black = [
        Move::new(Square::G2, Square::F1, MoveFlag::PromoCaptureN),
        Move::new(Square::G2, Square::F1, MoveFlag::PromoCaptureB),
        Move::new(Square::G2, Square::F1, MoveFlag::PromoCaptureR),
        Move::new(Square::G2, Square::F1, MoveFlag::PromoCaptureQ),
    ];
    let mut pos = Position::from_fen("3k2nr/7P/8/8/8/8/6p1/3K1BN1 w - - 0 1");
    assert_both_sides(
        &mut pos,
        &bbs,
        &expected_white,
        &expected_black,
        Piece::Pawn,
        &mut moves,
    );
}

#[test]
fn generates_correct_bishop_sliders() {
    let mut pos = Position::default();
    let bbs = Bitboards::init();
    let mut moves = MoveList::new();

    // No moves in the default position
    let expected_white = [];
    let expected_black = [];
    assert_both_sides(
        &mut pos,
        &bbs,
        &expected_white,
        &expected_black,
        Piece::Bishop,
        &mut moves,
    );

    let expected_white = [
        Move::new(Square::C2, Square::B1, MoveFlag::Quiet),
        Move::new(Square::C2, Square::B3, MoveFlag::Quiet),
        Move::new(Square::C2, Square::D3, MoveFlag::Quiet),
        Move::new(Square::C2, Square::E4, MoveFlag::Capture),
        Move::new(Square::D1, Square::E2, MoveFlag::Quiet),
        Move::new(Square::D1, Square::F3, MoveFlag::Quiet),
        Move::new(Square::D1, Square::G4, MoveFlag::Capture),
    ];
    let expected_black = [
        Move::new(Square::D8, Square::C7, MoveFlag::Capture),
        Move::new(Square::D8, Square::E7, MoveFlag::Quiet),
        Move::new(Square::G4, Square::H5, MoveFlag::Quiet),
        Move::new(Square::G4, Square::H3, MoveFlag::Quiet),
        Move::new(Square::G4, Square::F3, MoveFlag::Quiet),
        Move::new(Square::G4, Square::E2, MoveFlag::Quiet),
        Move::new(Square::G4, Square::D1, MoveFlag::Capture),
    ];
    let mut pos = Position::from_fen("2rqk3/2N5/5p2/3p1n2/N2Pp1b1/6n1/2B5/3QK3 w - - 0 1");
    assert_both_sides(
        &mut pos,
        &bbs,
        &expected_white,
        &expected_black,
        Piece::Bishop,
        &mut moves,
    );
}

#[test]
fn generates_correct_rook_sliders() {
    let mut pos = Position::default();
    let bbs = Bitboards::init();
    let mut moves = MoveList::new();

    // No moves in the default position
    let expected_white = [];
    let expected_black = [];
    assert_both_sides(
        &mut pos,
        &bbs,
        &expected_white,
        &expected_black,
        Piece::Rook,
        &mut moves,
    );

    let expected_white = [
        Move::new(Square::B1, Square::C1, MoveFlag::Quiet),
        Move::new(Square::B1, Square::D1, MoveFlag::Quiet),
        Move::new(Square::B1, Square::B2, MoveFlag::Quiet),
        Move::new(Square::B1, Square::B3, MoveFlag::Quiet),
        Move::new(Square::B1, Square::B4, MoveFlag::Capture),
        Move::new(Square::D2, Square::D1, MoveFlag::Quiet),
        Move::new(Square::D2, Square::E2, MoveFlag::Quiet),
        Move::new(Square::D2, Square::F2, MoveFlag::Quiet),
        Move::new(Square::D2, Square::C2, MoveFlag::Capture),
        Move::new(Square::D2, Square::D3, MoveFlag::Quiet),
        Move::new(Square::D2, Square::D4, MoveFlag::Capture),
    ];
    let expected_black = [
        Move::new(Square::B4, Square::C4, MoveFlag::Quiet),
        Move::new(Square::B4, Square::B3, MoveFlag::Quiet),
        Move::new(Square::B4, Square::B2, MoveFlag::Quiet),
        Move::new(Square::B4, Square::B1, MoveFlag::Capture),
        Move::new(Square::D4, Square::C4, MoveFlag::Quiet),
        Move::new(Square::D4, Square::E4, MoveFlag::Quiet),
        Move::new(Square::D4, Square::F4, MoveFlag::Capture),
        Move::new(Square::D4, Square::D3, MoveFlag::Quiet),
        Move::new(Square::D4, Square::D2, MoveFlag::Capture),
    ];
    let mut pos = Position::from_fen("4k3/8/8/1n1p4/pr1q1N2/8/2bQ2B1/BR2K3 w - - 0 1");
    assert_both_sides(
        &mut pos,
        &bbs,
        &expected_white,
        &expected_black,
        Piece::Rook,
        &mut moves,
    );
}

#[test]
fn generates_correct_pseudo_legal() {
    let mut pos = Position::default();
    let bbs = Bitboards::init();
    let mut moves = MoveList::new();

    // Generates correct moves in starting position
    let expected_white = [
        Move::new(Square::A2, Square::A3, MoveFlag::Quiet),
        Move::new(Square::A2, Square::A4, MoveFlag::DoublePush),
        Move::new(Square::B2, Square::B3, MoveFlag::Quiet),
        Move::new(Square::B2, Square::B4, MoveFlag::DoublePush),
        Move::new(Square::C2, Square::C3, MoveFlag::Quiet),
        Move::new(Square::C2, Square::C4, MoveFlag::DoublePush),
        Move::new(Square::D2, Square::D3, MoveFlag::Quiet),
        Move::new(Square::D2, Square::D4, MoveFlag::DoublePush),
        Move::new(Square::E2, Square::E3, MoveFlag::Quiet),
        Move::new(Square::E2, Square::E4, MoveFlag::DoublePush),
        Move::new(Square::F2, Square::F3, MoveFlag::Quiet),
        Move::new(Square::F2, Square::F4, MoveFlag::DoublePush),
        Move::new(Square::G2, Square::G3, MoveFlag::Quiet),
        Move::new(Square::G2, Square::G4, MoveFlag::DoublePush),
        Move::new(Square::H2, Square::H3, MoveFlag::Quiet),
        Move::new(Square::H2, Square::H4, MoveFlag::DoublePush),
        Move::new(Square::B1, Square::A3, MoveFlag::Quiet),
        Move::new(Square::B1, Square::C3, MoveFlag::Quiet),
        Move::new(Square::G1, Square::F3, MoveFlag::Quiet),
        Move::new(Square::G1, Square::H3, MoveFlag::Quiet),
    ];
    let expected_black = [
        Move::new(Square::A7, Square::A6, MoveFlag::Quiet),
        Move::new(Square::A7, Square::A5, MoveFlag::DoublePush),
        Move::new(Square::B7, Square::B6, MoveFlag::Quiet),
        Move::new(Square::B7, Square::B5, MoveFlag::DoublePush),
        Move::new(Square::C7, Square::C6, MoveFlag::Quiet),
        Move::new(Square::C7, Square::C5, MoveFlag::DoublePush),
        Move::new(Square::D7, Square::D6, MoveFlag::Quiet),
        Move::new(Square::D7, Square::D5, MoveFlag::DoublePush),
        Move::new(Square::E7, Square::E6, MoveFlag::Quiet),
        Move::new(Square::E7, Square::E5, MoveFlag::DoublePush),
        Move::new(Square::F7, Square::F6, MoveFlag::Quiet),
        Move::new(Square::F7, Square::F5, MoveFlag::DoublePush),
        Move::new(Square::G7, Square::G6, MoveFlag::Quiet),
        Move::new(Square::G7, Square::G5, MoveFlag::DoublePush),
        Move::new(Square::H7, Square::H6, MoveFlag::Quiet),
        Move::new(Square::H7, Square::H5, MoveFlag::DoublePush),
        Move::new(Square::B8, Square::A6, MoveFlag::Quiet),
        Move::new(Square::B8, Square::C6, MoveFlag::Quiet),
        Move::new(Square::G8, Square::F6, MoveFlag::Quiet),
        Move::new(Square::G8, Square::H6, MoveFlag::Quiet),
    ];

    generate_all(&pos, &bbs, &mut moves);
    assert_same_moves(&moves, &expected_white);

    moves.clear();
    pos.side_to_move = pos.side_to_move.opposite();
    generate_all(&pos, &bbs, &mut moves);
    assert_same_moves(&moves, &expected_black);

    moves.clear();
}
