use rust_engine::bitboard::{bitboards, Bitboard};
use rust_engine::movegen::{generate_all, generate_evasions, MoveList};
use rust_engine::position::{fen_ok_check, Position, StateInfo, DEFAULT_FEN};
use rust_engine::types::{Castling, Colour, Move, MoveFlag, Piece, Square};
use rust_engine::zobrist::ZKey;

struct GoalState {
    ep_square: Square,
    castling_rights: Castling,
    halfmove_clock: u8,
    fullmove_counter: u16,
}

fn check_state_correctness(pos: &Position, state: &StateInfo, goal: &GoalState) {
    assert_eq!(
        state.zkey,
        ZKey::compute_zobrist_key(
            &pos.mailbox,
            pos.side_to_move,
            pos.castling_rights,
            pos.ep_square
        )
    );
    assert_eq!(state.ep_square, goal.ep_square);
    assert_eq!(state.castling_rights, goal.castling_rights);
    assert_eq!(state.captured_piece, None);
    assert_eq!(state.halfmove_clock, goal.halfmove_clock);
    assert_eq!(state.fullmove_counter, goal.fullmove_counter);
}

fn check_position_correctness(actual: &Position, expected: &Position) {
    assert_eq!(actual.pieces, expected.pieces);
    assert_eq!(actual.occupancy, expected.occupancy);
    assert_eq!(actual.mailbox, expected.mailbox);
    assert_eq!(actual.pinned_pieces, expected.pinned_pieces);
    assert_eq!(actual.pinners, expected.pinners);

    assert_eq!(actual.white_king_square, expected.white_king_square);
    assert_eq!(actual.black_king_square, expected.black_king_square);
    assert_eq!(actual.zkey, expected.zkey);

    // Other fields which are not touched by place_piece
    assert_eq!(actual.side_to_move, expected.side_to_move);
    assert_eq!(actual.ep_square, expected.ep_square);
    assert_eq!(actual.halfmove_clock, expected.halfmove_clock);
    assert_eq!(actual.fullmove_counter, expected.fullmove_counter);
    assert_eq!(actual.castling_rights, expected.castling_rights);
}

struct MoveCase {
    name: &'static str,
    start_fen: &'static str,
    mv: Move,
    expected_fen: &'static str,
    expected_captured_piece: Option<Piece>,
}

fn move_cases() -> Vec<MoveCase> {
    vec![
        MoveCase {
            name: "quiet_knight_move",
            start_fen: "rnbqkbnr/pppppppp/8/8/4P3/8/PPPP1PPP/RNBQKBNR b KQkq e3 0 1",
            mv: Move::new(Square::B8, Square::C6, MoveFlag::Quiet),
            expected_fen: "r1bqkbnr/pppppppp/2n5/8/4P3/8/PPPP1PPP/RNBQKBNR w KQkq - 1 2",
            expected_captured_piece: None,
        },
        MoveCase {
            name: "double_push_set_ep",
            start_fen: DEFAULT_FEN,
            mv: Move::new(Square::D2, Square::D4, MoveFlag::DoublePush),
            expected_fen: "rnbqkbnr/pppppppp/8/8/3P4/8/PPP1PPPP/RNBQKBNR b KQkq d3 0 1",
            expected_captured_piece: None,
        },
        MoveCase {
            name: "ep_capture",
            start_fen: "rnbqkbnr/1ppppppp/8/pP6/8/8/P1PPPPPP/RNBQKBNR w KQkq a6 0 4",
            mv: Move::new(Square::B5, Square::A6, MoveFlag::EpCapture),
            expected_fen: "rnbqkbnr/1ppppppp/P7/8/8/8/P1PPPPPP/RNBQKBNR b KQkq - 0 4",
            expected_captured_piece: Some(Piece::Pawn),
        },
        MoveCase {
            name: "normal_capture",
            start_fen: "rnbqkbnr/ppp1pppp/8/3p4/2PP4/8/PP2PPPP/RNBQKBNR b KQkq c3 0 2",
            mv: Move::new(Square::D5, Square::C4, MoveFlag::Capture),
            expected_fen: "rnbqkbnr/ppp1pppp/8/8/2pP4/8/PP2PPPP/RNBQKBNR w KQkq - 0 3",
            expected_captured_piece: Some(Piece::Pawn),
        },
        MoveCase {
            name: "promotion_to_queen",
            start_fen: "r1bqkbnr/pPpppppp/3n4/8/8/8/PP1PPPPP/RNBQKBNR w KQkq - 1 5",
            mv: Move::new(Square::B7, Square::B8, MoveFlag::PromoQ),
            expected_fen: "rQbqkbnr/p1pppppp/3n4/8/8/8/PP1PPPPP/RNBQKBNR b KQkq - 0 5",
            expected_captured_piece: None,
        },
        MoveCase {
            name: "capturing_promotion_to_knight",
            start_fen: "r1bqkbnr/pPpppppp/3n4/8/8/8/PP1PPPPP/RNBQKBNR w KQkq - 1 5",
            mv: Move::new(Square::B7, Square::A8, MoveFlag::PromoCaptureN),
            expected_fen: "N1bqkbnr/p1pppppp/3n4/8/8/8/PP1PPPPP/RNBQKBNR b KQk - 0 5",
            expected_captured_piece: Some(Piece::Rook),
        },
        MoveCase {
            name: "black_kingside_castle",
            start_fen: "rnbqk2r/ppp1bppp/4pn2/3p2B1/2PP4/2N1P3/PP3PPP/R2QKBNR b KQkq - 0 5",
            mv: Move::new(Square::E8, Square::G8, MoveFlag::KingCastle),
            expected_fen: "rnbq1rk1/ppp1bppp/4pn2/3p2B1/2PP4/2N1P3/PP3PPP/R2QKBNR w KQ - 1 6",
            expected_captured_piece: None,
        },
        MoveCase {
            name: "white_queenside_castle",
            start_fen: "rnbqkb1r/1pp2ppp/p3pn2/3p4/3P1B2/2N5/PPPQPPPP/R3KBNR w KQkq - 0 5",
            mv: Move::new(Square::E1, Square::C1, MoveFlag::QueenCastle),
            expected_fen: "rnbqkb1r/1pp2ppp/p3pn2/3p4/3P1B2/2N5/PPPQPPPP/2KR1BNR b kq - 1 5",
            expected_captured_piece: None,
        },
    ]
}

#[test]
fn stateinfo_set_from_position_is_correct() {
    // Check against default position
    let pos = Position::default();
    let mut state = StateInfo::new();
    state.set_from_position(&pos);

    let goal = GoalState {
        ep_square: Square::NONE,
        castling_rights: Castling::DEFAULT,
        halfmove_clock: 0,
        fullmove_counter: 1,
    };
    check_state_correctness(&pos, &state, &goal);

    // Update state to new position
    let fen = "rnbq1rk1/ppp2ppp/4pn2/b2p2B1/1PPP4/P1N2N2/4PPPP/R2QKB1R b KQ b3 0 7";
    let pos = Position::from_fen(&fen);
    state.set_from_position(&pos);

    let goal = GoalState {
        ep_square: Square::B3,
        castling_rights: Castling::WHITE_CASTLING,
        halfmove_clock: 0,
        fullmove_counter: 7,
    };
    check_state_correctness(&pos, &state, &goal);
}

#[test]
fn position_place_piece_is_correct() {
    let mut pos = Position::new();

    pos.place_piece(Colour::White, Piece::King, Square::E1);
    pos.place_piece(Colour::Black, Piece::King, Square::E8);
    pos.place_piece(Colour::White, Piece::Rook, Square::A1);
    pos.place_piece(Colour::Black, Piece::Rook, Square::H8);
    pos.place_piece(Colour::White, Piece::Bishop, Square::G5);
    pos.place_piece(Colour::Black, Piece::Bishop, Square::G7);
    pos.place_piece(Colour::White, Piece::Knight, Square::H3);
    pos.place_piece(Colour::Black, Piece::Knight, Square::C6);
    pos.place_piece(Colour::White, Piece::Pawn, Square::E2);
    pos.place_piece(Colour::Black, Piece::Pawn, Square::E7);

    let expected_fen = "4k2r/4p1b1/2n5/6B1/8/7N/4P3/R3K3 w - - 0 0";
    let mut expected_pos = Position::from_fen(expected_fen);
    expected_pos.zkey = pos.zkey;
    check_position_correctness(&pos, &expected_pos);
}

#[test]
fn position_remove_piece_is_correct() {
    let mut pos = Position::default();

    pos.remove_piece(Colour::White, Piece::Pawn, Square::H2);
    pos.remove_piece(Colour::White, Piece::Pawn, Square::D2);
    pos.remove_piece(Colour::White, Piece::Rook, Square::A1);
    pos.remove_piece(Colour::White, Piece::Queen, Square::D1);
    pos.remove_piece(Colour::Black, Piece::Pawn, Square::D7);
    pos.remove_piece(Colour::Black, Piece::Pawn, Square::G7);
    pos.remove_piece(Colour::Black, Piece::Knight, Square::B8);
    pos.remove_piece(Colour::Black, Piece::Bishop, Square::F8);

    // Note that remove_piece does not update castling rights
    let expected_fen = "r1bqk1nr/ppp1pp1p/8/8/8/8/PPP1PPP1/1NB1KBNR w KkQq - 0 1";
    let mut expected_pos = Position::from_fen(expected_fen);
    expected_pos.zkey = pos.zkey;
    check_position_correctness(&pos, &expected_pos);
}

#[test]
fn position_make_move_is_correct() {
    let bbs = bitboards();
    for case in move_cases() {
        let mut pos = Position::from_fen(case.start_fen);
        let start = Position::from_fen(case.start_fen);
        let mut state = StateInfo::new();
        state.set_from_position(&pos);

        pos.make_move(case.mv, &mut state, &bbs);
        let mut expected_pos = Position::from_fen(case.expected_fen);
        expected_pos.zkey = pos.zkey;

        check_position_correctness(&pos, &expected_pos);

        // Validate state snapshot
        assert_eq!(state.zkey, start.zkey, "failed case: {}", case.name);
        assert_eq!(state.ep_square, start.ep_square, "failed case: {}", case.name);
        assert_eq!(
            state.castling_rights, start.castling_rights,
            "failed case: {}",
            case.name
        );
        assert_eq!(
            state.halfmove_clock, start.halfmove_clock,
            "failed case: {}",
            case.name
        );
        assert_eq!(
            state.fullmove_counter, start.fullmove_counter,
            "failed case: {}",
            case.name
        );
        assert_eq!(
            state.captured_piece, case.expected_captured_piece,
            "failed case: {}",
            case.name
        );
    }
}

#[test]
fn position_undo_move_is_correct() {
    let bbs = bitboards();
    for case in move_cases() {
        let mut pos = Position::from_fen(case.start_fen);
        let start = Position::from_fen(case.start_fen);
        let mut state = StateInfo::new();
        state.set_from_position(&pos);

        pos.make_move(case.mv, &mut state, &bbs);
        pos.undo_move(case.mv, &state, &bbs);

        check_position_correctness(&pos, &start);
    }
}

#[test]
fn position_make_null_move_is_correct() {
    let bbs = bitboards();
    let pos = Position::from_fen("4k3/5n2/8/2Pp3B/1b6/8/3R4/4K3 w - d6 0 1");
    let mut key = pos.zkey;
    let mut mut_pos = pos;

    let mut state = StateInfo::new();
    state.set_from_position(&mut_pos);
    mut_pos.make_null_move(&mut state, &bbs);

    // Check null move only changes exactly what is required
    assert_eq!(mut_pos.ep_square, Square::NONE);
    assert_eq!(mut_pos.side_to_move, Colour::Black);
    key.toggle_side();
    key.toggle_ep_file(Square::D6);
    assert_eq!(mut_pos.zkey, key);
    assert_eq!(pos.halfmove_clock + 1, mut_pos.halfmove_clock);
    assert_eq!(pos.checkers, mut_pos.checkers); // Both positions have no checkers, so both empty

    // Null move leaves everything else unchanged
    assert_eq!(pos.occupancy, mut_pos.occupancy);
    assert_eq!(pos.pieces, mut_pos.pieces);
    assert_eq!(pos.mailbox, mut_pos.mailbox);
    assert_eq!(pos.castling_rights, mut_pos.castling_rights);
}

#[test]
fn position_undo_null_move_is_correct() {
    let bbs = bitboards();
    let pos = Position::from_fen("4k3/5n2/8/2Pp3B/1b6/8/3R4/4K3 w - d6 0 1");
    let mut mut_pos = pos;

    let mut state = StateInfo::new();
    state.set_from_position(&pos);
    mut_pos.make_null_move(&mut state, &bbs);
    mut_pos.undo_null_move(&state, &bbs);

    assert_eq!(mut_pos, pos);
}

#[test]
fn position_can_castle_is_correct() {
    let pos = Position::default();
    assert!(pos.can_castle(Castling::WHITE_OO));
    assert!(pos.can_castle(Castling::WHITE_OOO));
    assert!(pos.can_castle(Castling::BLACK_OO));
    assert!(pos.can_castle(Castling::BLACK_OOO));

    let pos = Position::from_fen("rnbqkbnr/pppppppp/8/8/8/8/PPPPPPPP/RNBQKBNR w - - 0 1");
    assert_eq!(pos.can_castle(Castling::WHITE_OO), false);
    assert_eq!(pos.can_castle(Castling::WHITE_OOO), false);
    assert_eq!(pos.can_castle(Castling::BLACK_OO), false);
    assert_eq!(pos.can_castle(Castling::BLACK_OOO), false);
}

#[test]
fn position_castling_impeded_is_correct() {
    let pos = Position::default();
    assert!(pos.castling_impeded(Castling::WHITE_OO));
    assert!(pos.castling_impeded(Castling::WHITE_OOO));
    assert!(pos.castling_impeded(Castling::BLACK_OO));
    assert!(pos.castling_impeded(Castling::BLACK_OOO));

    let pos = Position::from_fen("r3k2r/pppppppp/8/8/8/8/PPPPPPPP/R3K2R w KQkq - 0 1");
    assert_eq!(pos.castling_impeded(Castling::WHITE_OO), false);
    assert_eq!(pos.castling_impeded(Castling::WHITE_OOO), false);
    assert_eq!(pos.castling_impeded(Castling::BLACK_OO), false);
    assert_eq!(pos.castling_impeded(Castling::BLACK_OOO), false);
}

#[test]
fn is_pseudo_legal_on_pawn_moves() {
    let bbs = bitboards();
    // Correct singe/double push filtering
    let pos =
        Position::from_fen("rnbqkbnr/pppppppp/8/8/P1p5/1P1p4/PPPPPPPP/RNBQKBNR w KQkq - 0 1");
    let valid1 = Move::new(Square::A2, Square::A3, MoveFlag::Quiet);
    let valid2 = Move::new(Square::C2, Square::C3, MoveFlag::Quiet);
    let valid3 = Move::new(Square::E2, Square::E3, MoveFlag::Quiet);
    let valid4 = Move::new(Square::E2, Square::E4, MoveFlag::DoublePush);
    let blocked1 = Move::new(Square::A2, Square::A4, MoveFlag::DoublePush);
    let blocked2 = Move::new(Square::B2, Square::B4, MoveFlag::DoublePush);
    let blocked3 = Move::new(Square::C2, Square::C4, MoveFlag::DoublePush);
    let blocked4 = Move::new(Square::D2, Square::D4, MoveFlag::DoublePush);
    let blocked5 = Move::new(Square::B2, Square::B3, MoveFlag::Quiet);
    let blocked6 = Move::new(Square::D2, Square::D3, MoveFlag::Quiet);

    assert!(pos.is_pseudo_legal(valid1, &bbs));
    assert!(pos.is_pseudo_legal(valid2, &bbs));
    assert!(pos.is_pseudo_legal(valid3, &bbs));
    assert!(pos.is_pseudo_legal(valid4, &bbs));
    assert_eq!(pos.is_pseudo_legal(blocked1, &bbs), false);
    assert_eq!(pos.is_pseudo_legal(blocked2, &bbs), false);
    assert_eq!(pos.is_pseudo_legal(blocked3, &bbs), false);
    assert_eq!(pos.is_pseudo_legal(blocked4, &bbs), false);
    assert_eq!(pos.is_pseudo_legal(blocked5, &bbs), false);
    assert_eq!(pos.is_pseudo_legal(blocked6, &bbs), false);

    // Correctly validates en passant moves
    let pos =
        Position::from_fen("rnbqkbnr/1p2pppp/p7/1PppP3/8/8/PPPPPPPP/RNBQKBNR w KQkq d6 0 1");
    let valid_ep = Move::new(Square::E5, Square::D6, MoveFlag::EpCapture);
    let invalid_ep1 = Move::new(Square::B5, Square::C6, MoveFlag::EpCapture);
    let invalid_ep2 = Move::new(Square::B5, Square::A6, MoveFlag::EpCapture);

    assert!(pos.is_pseudo_legal(valid_ep, &bbs));
    assert_eq!(pos.is_pseudo_legal(invalid_ep1, &bbs), false);
    assert_eq!(pos.is_pseudo_legal(invalid_ep2, &bbs), false);
}

#[test]
fn is_pseudo_legal_on_sliders() {
    let bbs = bitboards();
    // Test blocked vs open bishop diagonals
    let open = Position::from_fen("3k4/8/8/8/8/3B4/8/3K4 w - - 0 1");
    let blocked = Position::from_fen("3k4/8/6p1/1P6/8/3B4/8/3K4 w - - 0 1");

    let blocked1 = Move::new(Square::D3, Square::A6, MoveFlag::Quiet);
    let blocked2 = Move::new(Square::D3, Square::B5, MoveFlag::Quiet);
    let blocked3 = Move::new(Square::D3, Square::H7, MoveFlag::Quiet);
    let capture1 = Move::new(Square::D3, Square::G6, MoveFlag::Capture);

    assert!(open.is_pseudo_legal(blocked1, &bbs));
    assert!(open.is_pseudo_legal(blocked2, &bbs));
    assert!(open.is_pseudo_legal(blocked3, &bbs));
    assert!(!open.is_pseudo_legal(capture1, &bbs)); // Capture invalid

    assert!(!blocked.is_pseudo_legal(blocked1, &bbs));
    assert!(!blocked.is_pseudo_legal(blocked2, &bbs));
    assert!(!blocked.is_pseudo_legal(blocked3, &bbs));
    assert!(blocked.is_pseudo_legal(capture1, &bbs)); // Capture valid

    // Test blocked vs open rook file/ranks
    let open = Position::from_fen("3k4/8/8/8/4R3/8/8/3K4 w - - 0 1");
    let blocked = Position::from_fen("3k4/8/4p3/8/4R1P1/8/8/3K4 w - - 0 1");

    let blocked1 = Move::new(Square::E4, Square::G4, MoveFlag::Quiet);
    let blocked2 = Move::new(Square::E4, Square::H4, MoveFlag::Quiet);
    let blocked3 = Move::new(Square::E4, Square::E7, MoveFlag::Quiet);
    let capture1 = Move::new(Square::E4, Square::E6, MoveFlag::Capture);

    assert!(open.is_pseudo_legal(blocked1, &bbs));
    assert!(open.is_pseudo_legal(blocked2, &bbs));
    assert!(open.is_pseudo_legal(blocked3, &bbs));
    assert!(!open.is_pseudo_legal(capture1, &bbs)); // Capture invalid

    assert!(!blocked.is_pseudo_legal(blocked1, &bbs));
    assert!(!blocked.is_pseudo_legal(blocked2, &bbs));
    assert!(!blocked.is_pseudo_legal(blocked3, &bbs));
    assert!(blocked.is_pseudo_legal(capture1, &bbs)); // Capture valid
}

#[test]
fn is_pseudo_legal_castling() {
    let bbs = bitboards();
    let pos = Position::from_fen("rnbqkbnr/pppppppp/8/8/8/8/PPPPPPPP/R3K2R w KQkq - 0 1");

    // Allows legal castles
    let white_oo = Move::new(Square::E1, Square::G1, MoveFlag::KingCastle);
    let white_ooo = Move::new(Square::E1, Square::C1, MoveFlag::QueenCastle);

    assert!(pos.is_pseudo_legal(white_oo, &bbs));
    assert!(pos.is_pseudo_legal(white_ooo, &bbs));

    // Disallow castles when rights are missing, path blocked, or in check
    let mut pos = Position::from_fen("r3k2r/pppp1ppp/8/8/8/4R3/PPPPPPPP/RN2K2R w Qkq - 0 1");
    let mut state = StateInfo::new();
    let no_rights = Move::new(Square::E1, Square::G1, MoveFlag::KingCastle);
    let blocked = Move::new(Square::E1, Square::C1, MoveFlag::QueenCastle);
    let in_check1 = Move::new(Square::E8, Square::G8, MoveFlag::KingCastle);
    let in_check2 = Move::new(Square::E8, Square::C8, MoveFlag::QueenCastle);

    assert_eq!(pos.is_pseudo_legal(no_rights, &bbs), false);
    assert_eq!(pos.is_pseudo_legal(blocked, &bbs), false);
    pos.make_null_move(&mut state, &bbs);
    assert_eq!(pos.is_pseudo_legal(in_check1, &bbs), false);
    assert_eq!(pos.is_pseudo_legal(in_check2, &bbs), false);
}

#[test]
fn position_update_pins_is_correct() {
    let bbs = bitboards();
    let w = Colour::White;
    let b = Colour::Black;
    let mut pos = Position::default();

    // No pinned/pinners in starting position
    pos.update_pins(w, &bbs);
    pos.update_pins(b, &bbs);

    assert_eq!(pos.pinned_pieces[w.idx()], Bitboard::new(0));
    assert_eq!(pos.pinned_pieces[b.idx()], Bitboard::new(0));
    assert_eq!(pos.pinners[w.idx()], Bitboard::new(0));
    assert_eq!(pos.pinners[b.idx()], Bitboard::new(0));

    // Correctly updates the pinned/pinners
    let mut pos = Position::from_fen("4k3/3np3/3q2P1/1B1r3B/Q2nR1b1/5P2/8/3KN2q w - - 0 1");
    pos.update_pins(w, &bbs);
    pos.update_pins(b, &bbs);

    let mut w_pinned = Bitboard::new(0);
    w_pinned.set_square(Square::E1);
    w_pinned.set_square(Square::F3);
    w_pinned.set_square(Square::D4);

    let mut b_pinned = Bitboard::new(0);
    b_pinned.set_square(Square::G6);
    b_pinned.set_square(Square::D7);
    b_pinned.set_square(Square::E7);

    let mut w_pinners = Bitboard::new(0);
    w_pinners.set_square(Square::H1);
    w_pinners.set_square(Square::G4);

    let mut b_pinners = Bitboard::new(0);
    b_pinners.set_square(Square::E4);
    b_pinners.set_square(Square::B5);
    b_pinners.set_square(Square::A4);

    assert_eq!(pos.pinned_pieces[w.idx()], w_pinned);
    assert_eq!(pos.pinners[b.idx()], w_pinners);
    assert_eq!(pos.pinned_pieces[b.idx()], b_pinned);
    assert_eq!(pos.pinners[w.idx()], b_pinners);
}

#[test]
fn position_update_checkers_is_correct() {
    let bbs = bitboards();
    let mut pos = Position::default();

    // No checkers in default position
    assert_eq!(pos.checkers, Bitboard::new(0));

    // Gets all possible checkers for white
    let mut expected = Bitboard::new(0);
    expected.set_square(Square::B1);
    expected.set_square(Square::G1);
    expected.set_square(Square::D2);
    expected.set_square(Square::E2);
    expected.set_square(Square::E3);
    expected.set_square(Square::A4);

    pos = Position::from_fen("8/8/8/8/b7/4n3/3kp3/1q1K2r1 w - - 0 1");
    assert_eq!(pos.checkers, expected);

    // Gets all possible checkers for black
    let mut expected = Bitboard::new(0);
    expected.set_square(Square::D2);
    expected.set_square(Square::H4);
    expected.set_square(Square::C7);
    expected.set_square(Square::F7);
    expected.set_square(Square::B8);
    expected.set_square(Square::E8);

    pos = Position::from_fen("1Q1kK3/2P2N2/8/8/7B/8/3R4/5K2 b - - 0 1");
    pos.update_checkers(&bbs);
    assert_eq!(pos.checkers, expected);
}

fn positions_have_sufficient_material(positions: &[Position]) {
    for &pos in positions {
        assert_eq!(pos.insufficient_material(), false);
    }
}

fn positions_have_insufficient_material(positions: &[Position]) {
    for &pos in positions {
        assert!(pos.insufficient_material());
    }
}

#[test]
fn position_insufficient_material_is_correct() {
    // One bishop/knight is insufficient
    let pos1 = Position::from_fen("3k4/5b2/8/8/8/8/8/3K4 w - - 0 1");
    let pos2 = Position::from_fen("3k4/8/8/8/8/5N2/8/3K4 b - - 0 1");
    positions_have_insufficient_material(&[pos1, pos2]);

    // More than two bishops/knights is sufficient
    let pos1 = Position::from_fen("3k4/4b3/8/8/8/4BN2/8/3K4 w - - 0 1");
    let pos2 = Position::from_fen("3k4/4b3/5b2/8/8/1N6/8/3K4 b - - 0 1");
    positions_have_sufficient_material(&[pos1, pos2]);

    // One pawn, rook, or queen is sufficient
    let pos1 = Position::from_fen("3k4/8/8/8/8/8/5R2/3K4 w - - 0 1");
    let pos2 = Position::from_fen("3k4/8/8/8/8/8/5Q2/3K4 b - - 0 1");
    let pos3 = Position::from_fen("3k4/8/8/8/8/8/5P2/3K4 w - - 0 1");
    positions_have_sufficient_material(&[pos1, pos2, pos3]);

    // Opposite coloured bishops are always sufficient
    let pos1 = Position::from_fen("3k4/8/8/8/8/8/4BB2/3K4 w - - 0 1");
    let pos2 = Position::from_fen("3k4/4bb2/8/8/8/8/8/3K4 b - - 0 1");
    let pos3 = Position::from_fen("3k4/5b2/8/8/8/8/5B2/3K4 b - - 0 1");
    positions_have_sufficient_material(&[pos1, pos2, pos3]);

    // Two knights are always sufficient
    let pos1 = Position::from_fen("3k4/8/8/8/8/3NN3/8/3K4 b - - 0 1");
    let pos2 = Position::from_fen("3k4/4nn2/8/8/8/8/8/3K4 w - - 0 1");
    let pos3 = Position::from_fen("3k4/5n2/8/8/8/3N4/8/3K4 w - - 0 1");
    positions_have_sufficient_material(&[pos1, pos2, pos3]);

    // Bishop + knight is always sufficient
    let pos1 = Position::from_fen("3k4/8/8/8/8/3NB3/8/3K4 w - - 0 1");
    let pos2 = Position::from_fen("3k4/5n2/8/1b6/8/8/8/3K4 w - - 0 1");
    let pos3 = Position::from_fen("3k4/4n3/8/8/8/4B3/8/3K4 w - - 0 1");
    positions_have_sufficient_material(&[pos1, pos2, pos3]);

    // Same coloured bishops are insufficient
    let pos1 = Position::from_fen("3k4/8/8/8/8/3B4/4B3/3K4 w - - 0 1");
    let pos2 = Position::from_fen("3k4/4b3/5b2/8/8/8/8/3K4 w - - 0 1");
    let pos3 = Position::from_fen("3k4/4b3/8/8/8/8/5B2/3K4 w - - 0 1");
    positions_have_insufficient_material(&[pos1, pos2, pos3]);
}

#[test]
fn is_pseudo_legal_move_is_consistent() {
    let bbs = bitboards();
    let pos = Position::default();
    let mut moves = MoveList::new();
    generate_all(&pos, &bbs, &mut moves);

    // Check all pseudo-legal moves pass
    for &mv in moves.as_slice() {
        assert!(pos.is_pseudo_legal(mv, &bbs));
    }

    // Correctly classes evasion moves
    let pos =
        Position::from_fen("rnbqk1nr/ppp2ppp/4p3/3p4/2PP4/2b2N2/PP2P1PP/R1BQKB1R w KQkq - 0 1");
    generate_evasions(&pos, &bbs, &mut moves);

    let mut count = 0;
    for &mv in moves.as_slice() {
        assert!(pos.is_pseudo_legal(mv, &bbs));
        count += 1;
    }

    assert_eq!(count, 5);
}

#[test]
fn fen_check_accepts_what_from_fen_reads() {

    assert!(fen_ok_check("rnbqkbnr/pppppppp/8/8/8/8/PPPPPPPP/RNBQKBNR w KQkq - 0 1"));
    assert!(fen_ok_check("4k3/8/8/8/8/8/8/4K3 b - e3 12 40"));
    assert!(!fen_ok_check("rnbqkbnr/pppppppp/8/8/8/8/PPPPPPPP/RNBQKBNR w KQkq - 0"));
    assert!(!fen_ok_check("8/8/8/8/8/8/8/8 w - - 0 1"));
    assert!(!fen_ok_check("4k3/8/8/8/8/8/8/4K3 x - - 0 1"));
    assert!(!fen_ok_check("4k3/8/8/8/8/8/8/4K3 w KX - 0 1"));
    assert!(!fen_ok_check("4k3/8/8/8/8/8/8/4K3 w - - 300 1"));
    assert!(!fen_ok_check("4k3/8/8/8/8/8/8/4K3/ w - - 0 1/"));
    assert!(!fen_ok_check(""));
}
