use rust_engine::bitboard::bitboards;
use rust_engine::position::{Position, DEFAULT_FEN};
use rust_engine::tuning::san::{san_to_move, SanError};
use rust_engine::types::{Move, MoveFlag, Square};

#[test]
fn san_reads_pawn_and_piece_moves() {
    let bbs = bitboards();
    let pos = Position::from_fen(DEFAULT_FEN);
    assert_eq!(
        san_to_move(&pos, &bbs, "e4"),
        Ok(Move::new(Square::E2, Square::E4, MoveFlag::DoublePush))
    );
    assert_eq!(
        san_to_move(&pos, &bbs, "Nf3+"),
        Ok(Move::new(Square::G1, Square::F3, MoveFlag::Quiet))
    );
    assert_eq!(
        san_to_move(&pos, &bbs, "e3#"),
        Ok(Move::new(Square::E2, Square::E3, MoveFlag::Quiet))
    );
}

#[test]
fn san_reports_each_error() {
    let bbs = bitboards();
    let pos = Position::from_fen(DEFAULT_FEN);
    assert_eq!(san_to_move(&pos, &bbs, "O-O"), Err(SanError::IllegalCastle));
    assert_eq!(san_to_move(&pos, &bbs, "0-0-0"), Err(SanError::IllegalCastle));
    assert_eq!(san_to_move(&pos, &bbs, "Ke2"), Err(SanError::NoMatch));
    assert_eq!(san_to_move(&pos, &bbs, "exd3"), Err(SanError::NoMatch));
    assert_eq!(san_to_move(&pos, &bbs, "e"), Err(SanError::BadSan));
    assert_eq!(san_to_move(&pos, &bbs, "z9"), Err(SanError::BadSquare));
    assert_eq!(san_to_move(&pos, &bbs, "e8=K"), Err(SanError::BadPiece));
    assert_eq!(san_to_move(&pos, &bbs, "N?f3"), Err(SanError::BadDisambiguation));
}

#[test]
fn san_disambiguates_by_file_and_rank() {
    let bbs = bitboards();
    let pos = Position::from_fen("4k3/8/8/8/8/8/8/1N2KN2 w - - 0 1");
    assert_eq!(san_to_move(&pos, &bbs, "Nd2"), Err(SanError::Ambiguous));
    assert_eq!(
        san_to_move(&pos, &bbs, "Nbd2"),
        Ok(Move::new(Square::B1, Square::D2, MoveFlag::Quiet))
    );
    assert_eq!(
        san_to_move(&pos, &bbs, "Nfd2"),
        Ok(Move::new(Square::F1, Square::D2, MoveFlag::Quiet))
    );
    assert_eq!(
        san_to_move(&pos, &bbs, "N1d2"),
        Err(SanError::Ambiguous)
    );
}

#[test]
fn san_reads_castles_captures_and_promotions() {
    let bbs = bitboards();
    let pos = Position::from_fen("r3k2r/8/8/8/8/8/8/R3K2R w KQkq - 0 1");
    assert_eq!(
        san_to_move(&pos, &bbs, "O-O"),
        Ok(Move::new(Square::E1, Square::G1, MoveFlag::KingCastle))
    );
    assert_eq!(
        san_to_move(&pos, &bbs, "0-0-0+"),
        Ok(Move::new(Square::E1, Square::C1, MoveFlag::QueenCastle))
    );
    let pos = Position::from_fen("1n2k3/P7/8/3p4/4P3/8/8/4K3 w - - 0 1");
    assert_eq!(
        san_to_move(&pos, &bbs, "exd5"),
        Ok(Move::new(Square::E4, Square::D5, MoveFlag::Capture))
    );
    assert_eq!(
        san_to_move(&pos, &bbs, "a8=Q"),
        Ok(Move::new(Square::A7, Square::A8, MoveFlag::PromoQ))
    );
    assert_eq!(
        san_to_move(&pos, &bbs, "axb8=N+"),
        Ok(Move::new(Square::A7, Square::B8, MoveFlag::PromoCaptureN))
    );
    assert_eq!(san_to_move(&pos, &bbs, "a8"), Err(SanError::NoMatch));
}
