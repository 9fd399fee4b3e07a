use rust_engine::bitboard::bitboards;
use rust_engine::evaluate::{evaluate_with, Score};
use rust_engine::params::types::Params;
use rust_engine::position::{Position, DEFAULT_FEN};
use rust_engine::tuning::types::FullTuningConfig;

fn zero_params() -> Params {
    FullTuningConfig::unpack(&vec![0; 1118])
}

fn s(mg: i32, eg: i32) -> Score {
    Score { mg, eg }
}

const NO_MOBILITY: [Score; 28] = [Score { mg: 0, eg: 0 }; 28];

#[test]
fn zero_weights_evaluate_to_zero() {
    let bbs = bitboards();
    let p = zero_params();
    for fen in [
        DEFAULT_FEN,
        "r3k2r/p1ppqpb1/bn2pnp1/3PN3/1p2P3/2N2Q1p/PPPBBPPP/R3K2R w KQkq - 0 1",
        "8/2p5/3p4/KP5r/1R3p1k/8/4P1P1/8 w - - 0 1",
    ] {
        let pos = Position::from_fen(fen);
        assert_eq!(evaluate_with(&pos, &bbs, &p, &NO_MOBILITY), 0, "{fen}");
    }
}

#[test]
fn material_counts_from_the_side_to_move() {
    let bbs = bitboards();
    let mut p = zero_params();
    p.pawn_value = s(90, 100);
    let white = Position::from_fen("4k3/8/8/8/8/8/4P3/4K3 w - - 0 1");
    let black = Position::from_fen("4k3/8/8/8/8/8/4P3/4K3 b - - 0 1");
    assert_eq!(evaluate_with(&white, &bbs, &p, &NO_MOBILITY), 100);
    assert_eq!(evaluate_with(&black, &bbs, &p, &NO_MOBILITY), -100);
}

#[test]
fn symmetric_start_is_level() {
    let bbs = bitboards();
    let mut p = zero_params();
    p.pawn_value = s(90, 100);
    p.knight_value = s(300, 280);
    p.bishop_value = s(320, 300);
    p.rook_value = s(480, 520);
    p.queen_value = s(950, 1000);
    p.knight_mobility = [s(-20, -30), s(-10, -10), s(0, 0), s(5, 5), s(10, 10), s(12, 12), s(14, 14), s(16, 16), s(18, 18)];
    p.bishop_pair = s(30, 50);
    p.doubled_pawns = s(-10, -20);
    let pos = Position::from_fen(DEFAULT_FEN);
    assert_eq!(evaluate_with(&pos, &bbs, &p, &NO_MOBILITY), 0);
}

#[test]
fn two_knights_against_a_bare_king_are_scaled_down() {
    let bbs = bitboards();
    let mut p = zero_params();
    p.knight_value = s(300, 300);
    let pos = Position::from_fen("4k3/8/8/8/8/8/8/1N2KN2 w - - 0 1");
    // 600 tapered, kept at 1/128.
    assert_eq!(evaluate_with(&pos, &bbs, &p, &NO_MOBILITY), 4);
}

#[test]
fn passed_pawn_bonus_by_rank() {
    let bbs = bitboards();
    let mut p = zero_params();
    p.pawn_value = s(100, 100);
    p.passed_pawn = [s(1, 10), s(2, 20), s(3, 30), s(4, 40), s(5, 50), s(6, 60)];
    // A white pawn on e2 (first rank of advance) and a black pawn on a5 (its fourth).
    let pos = Position::from_fen("4k3/8/8/p7/8/8/4P3/4K3 w - - 0 1");
    assert_eq!(evaluate_with(&pos, &bbs, &p, &NO_MOBILITY), 10 - 30);
}

#[test]
fn knight_mobility_counts_free_squares() {
    let bbs = bitboards();
    let mut p = zero_params();
    let mut table = [s(0, 0); 9];
    table[8] = s(0, 80);
    table[2] = s(0, 20);
    p.knight_mobility = table;
    // A white knight on d4 reaches eight squares; a black one on a8 reaches two. With two
    // minors on the board the phase is 2: (2 * 0 + 22 * 60) / 24.
    let pos = Position::from_fen("n3k3/5ppp/8/8/3N4/8/6PP/4K2P w - - 0 1");
    assert_eq!(evaluate_with(&pos, &bbs, &p, &NO_MOBILITY), 55);
}
