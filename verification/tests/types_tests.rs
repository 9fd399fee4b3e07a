use rust_engine::bitboard::bitboards;
use rust_engine::position::{Position, StateInfo};
use rust_engine::types::{
    Castling, CastlingType, Colour, Mailbox, Move, MoveFlag, Piece, PieceCode, Square,
};

fn pawn_e4() -> Move {
    Move::new(Square::E2, Square::E4, MoveFlag::DoublePush)
}

fn set_board(fen: &str) -> (Position, StateInfo) {
    let pos = Position::from_fen(fen);
    let mut state = StateInfo::new();
    state.set_from_position(&pos);
    return (pos, state);
}

// --- Squares ---
#[test]
fn rank_returns_expected_rank() {
    assert_eq!(Square::A1.rank(), 0);
    assert_eq!(Square::A8.rank(), 7);
    assert_eq!(Square::E4.rank(), 3);
    assert_eq!(Square::H1.rank(), 0);
    assert_eq!(Square::H8.rank(), 7);
}

#[test]
fn file_returns_expected_file() {
    assert_eq!(Square::A1.file(), 0);
    assert_eq!(Square::A8.file(), 0);
    assert_eq!(Square::E4.file(), 4);
    assert_eq!(Square::H1.file(), 7);
    assert_eq!(Square::H8.file(), 7);
}

#[test]
fn square_from_coords_is_correct() {
    assert_eq!(Square::from_coords(0, 0), Square::A1);
    assert_eq!(Square::from_coords(7, 0), Square::A8);
    assert_eq!(Square::from_coords(3, 4), Square::E4);
    assert_eq!(Square::from_coords(0, 7), Square::H1);
    assert_eq!(Square::from_coords(7, 7), Square::H8);
}

#[test]
fn square_is_none() {
    assert!(Square::is_none(Square::NONE));
    assert_eq!(Square::H8.is_none(), false);
}

#[test]
fn square_bit_is_correct() {
    assert_eq!(Square::A1.bit(), 1);
    assert_eq!(Square::A8.bit(), 2u64.pow(56));
    assert_eq!(Square::E4.bit(), 2u64.pow(28));
    assert_eq!(Square::H1.bit(), 2u64.pow(7));
    assert_eq!(Square::H8.bit(), 2u64.pow(63));
}

#[test]
fn square_colour_is_correct() {
    assert_eq!(Square::A1.colour(), Colour::Black);
    assert_eq!(Square::A8.colour(), Colour::White);
    assert_eq!(Square::H1.colour(), Colour::White);
    assert_eq!(Square::H8.colour(), Colour::Black);
    assert_eq!(Square::E4.colour(), Colour::White);
}

// --- Pieces ---
#[test]
fn piece_code_is_empty() {
    assert!(PieceCode::EMPTY.is_empty());
    assert_eq!(PieceCode::new(Colour::White, Piece::Pawn).is_empty(), false);
}

#[test]
fn piece_code_colour_is_correct() {
    assert_eq!(PieceCode::EMPTY.colour(), None);
    let white_pawn = PieceCode::new(Colour::White, Piece::Pawn);
    let black_pawn = PieceCode::new(Colour::Black, Piece::Pawn);
    assert_eq!(white_pawn.colour(), Some(Colour::White));
    assert_eq!(black_pawn.colour(), Some(Colour::Black));
}

#[test]
fn piece_code_piece_is_correct() {
    assert_eq!(PieceCode::EMPTY.piece(), None);
    let white_pawn = PieceCode::new(Colour::White, Piece::Pawn);
    let white_king = PieceCode::new(Colour::White, Piece::King);
    assert_eq!(white_pawn.piece(), Some(Piece::Pawn));
    assert_eq!(white_king.piece(), Some(Piece::King));
}

#[test]
fn piece_code_from_char_is_correct() {
    assert_eq!(PieceCode::from_char('Z'), None);
    let white_pawn = PieceCode::from_char('P');
    let black_king = PieceCode::from_char('k');
    assert_eq!(white_pawn, Some(PieceCode::new(Colour::White, Piece::Pawn)));
    assert_eq!(black_king, Some(PieceCode::new(Colour::Black, Piece::King)));
}

// --- Mailbox ---
#[test]
fn mailbox_piece_code_at_is_correct() {
    let mut mailbox = Mailbox::new();
    let white_pawn = PieceCode::new(Colour::White, Piece::Pawn);
    mailbox.set_square(Square::E4, white_pawn);
    assert_eq!(mailbox.piece_code_at(Square::E4), white_pawn);
}

// --- Castling ---
#[test]
fn castling_update_is_correct() {
    let bbs = bitboards();
    let (mut pos, mut state) = set_board("r3k2r/8/8/8/8/8/8/R3K2R w KQkq - 0 1");

    // Moving king clears castling rights
    let king_move = Move::new(Square::E1, Square::F1, MoveFlag::Quiet);
    pos.make_move(king_move, &mut state, &bbs);
    assert_eq!(pos.castling_rights, Castling::BLACK_CASTLING);
    pos.undo_move(king_move, &state, &bbs);

    // Moving rook clears castling rights and rook capture clears opposition rights
    let rook_move = Move::new(Square::H1, Square::H8, MoveFlag::Capture);
    pos.make_move(rook_move, &mut state, &bbs);
    assert_eq!(pos.castling_rights, Castling::QUEENSIDE);
    pos.undo_move(rook_move, &state, &bbs);
}

#[test]
fn castling_get_rook_squares_is_correct() {
    let (rook_start, rook_end) =
        Castling::get_rook_squares_from_castle(Colour::White, CastlingType::Kingside);
    assert_eq!(rook_start, Square::H1);
    assert_eq!(rook_end, Square::F1);

    let (rook_start, rook_end) =
        Castling::get_rook_squares_from_castle(Colour::Black, CastlingType::Queenside);
    assert_eq!(rook_start, Square::A8);
    assert_eq!(rook_end, Square::D8);
}

#[test]
fn castling_can_castle_is_correct() {
    let default = Castling::DEFAULT;
    assert!(default.can_white_ks());
    assert!(default.can_white_qs());
    assert!(default.can_black_ks());
    assert!(default.can_black_qs());
}

// --- Moves ---
#[test]
fn move_from_is_correct() {
    assert_eq!(pawn_e4().from(), Square::E2)
}

#[test]
fn move_to_is_correct() {
    assert_eq!(pawn_e4().to(), Square::E4)
}

#[test]
fn move_flag_is_correct() {
    assert_eq!(pawn_e4().flag(), MoveFlag::DoublePush)
}

#[test]
fn move_get_ep_pawn_square_is_correct() {
    let white_ep_move = Move::new(Square::D5, Square::E6, MoveFlag::EpCapture);
    let black_ep_move = Move::new(Square::E4, Square::D3, MoveFlag::EpCapture);
    assert_eq!(white_ep_move.get_ep_pawn_square(), Square::E5);
    assert_eq!(black_ep_move.get_ep_pawn_square(), Square::D4);
}

#[test]
fn move_promotion_piece_is_correct() {
    let non_promo_move = Move::new(Square::E2, Square::E4, MoveFlag::DoublePush);
    let promo_move = Move::new(Square::A7, Square::A8, MoveFlag::PromoN);
    let capture_promo_move = Move::new(Square::A7, Square::B8, MoveFlag::PromoCaptureQ);
    assert_eq!(non_promo_move.promotion_piece(), None);
    assert_eq!(promo_move.promotion_piece(), Some(Piece::Knight));
    assert_eq!(capture_promo_move.promotion_piece(), Some(Piece::Queen));
}

#[test]
fn move_castle_type_is_correct() {
    let non_castle_move = Move::new(Square::E2, Square::E4, MoveFlag::DoublePush);
    let ks_castle_move = Move::new(Square::E1, Square::G1, MoveFlag::KingCastle);
    let qs_castle_move = Move::new(Square::E1, Square::C1, MoveFlag::QueenCastle);
    assert_eq!(non_castle_move.castle_type(), None);
    assert_eq!(ks_castle_move.castle_type(), Some(CastlingType::Kingside));
    assert_eq!(qs_castle_move.castle_type(), Some(CastlingType::Queenside));
}
