use rust_engine::endgame::{scale_endgame, DrawScales, SCALE_NORMAL};
use rust_engine::evaluate::{
    default_lazy_params, game_phase, lazy_evaluate, lazy_evaluate_with, taper, EvalInfo, Score,
};
use rust_engine::position::Position;

fn info_of(pos: &Position) -> EvalInfo {
    let mut t = [[0u16; 3]; 5];
    for (k, piece) in [0usize, 1, 2, 3, 4].iter().enumerate() {
        for c in 0..2 {
            t[k][c] = pos.pieces[c][*piece].bit_count() as u16;
        }
        t[k][2] = t[k][0] + t[k][1];
    }
    EvalInfo {
        pawns_remaining: t[0],
        knights_remaining: t[1],
        bishops_remaining: t[2],
        rooks_remaining: t[3],
        queens_remaining: t[4],
    }
}

fn scales() -> DrawScales {
    DrawScales {
        knn_vs_k: 1,
        no_pawn_queen: 96,
        no_pawn_rook: 64,
        no_pawn_rook_vs_queen: 32,
        no_pawn_minor: 0,
        opposite_bishops: [48, 32, 56, 80, 104],
        minor_low_pawn: [64, 64, 72, 96, 64, 80, 96, 112],
        rook_vs_rook: [96, 72, 80, 88, 96, 104, 112],
    }
}

#[test]
fn start_position_is_level() {
    let pos = Position::default();
    assert_eq!(game_phase(&pos), 24);
    assert_eq!(lazy_evaluate(&pos), 0);
}

#[test]
fn taper_blends_by_phase() {
    let s = Score { mg: 100, eg: 40 };
    assert_eq!(taper(s, 24, rust_engine::types::Colour::White), 100);
    assert_eq!(taper(s, 0, rust_engine::types::Colour::White), 40);
    assert_eq!(taper(s, 12, rust_engine::types::Colour::Black), -70);
    // rounded toward zero
    assert_eq!(taper(Score { mg: -1, eg: 0 }, 12, rust_engine::types::Colour::White), 0);
}

#[test]
fn lazy_eval_counts_material() {
    // White is a queen up
    let pos = Position::from_fen("4k3/8/8/8/8/8/8/3QK3 w - - 0 1");
    let with_defaults = lazy_evaluate_with(&pos, &default_lazy_params());
    assert_eq!(with_defaults, lazy_evaluate(&pos));
    assert!(with_defaults > 800);
    let pos = Position::from_fen("4k3/8/8/8/8/8/8/3QK3 b - - 0 1");
    assert_eq!(lazy_evaluate(&pos), -with_defaults);
}

#[test]
fn scale_keeps_zero_and_normal_positions() {
    let pos = Position::default();
    let info = info_of(&pos);
    assert_eq!(scale_endgame(&pos, 0, &info, &scales()), 0);
    assert_eq!(scale_endgame(&pos, 57, &info, &scales()), 57);
    assert_eq!(SCALE_NORMAL, 128);
}

#[test]
fn knights_alone_are_drawn() {
    let pos = Position::from_fen("4k3/8/8/8/8/8/8/1NN1K3 w - - 0 1");
    let info = info_of(&pos);
    // KNN vs K scales to 1/128
    assert_eq!(scale_endgame(&pos, 640, &info, &scales()), 5);
    assert_eq!(scale_endgame(&pos, -640, &info, &scales()), -640 * 64 / 128);
}

#[test]
fn krpkr_third_rank_defence_is_drawn() {
    // White pawn on e4, black king on e8 guarding the queening square, black rook on the
    // sixth rank: Philidor's defence
    let pos = Position::from_fen("4k3/8/r7/8/4P3/8/8/3RK3 w - - 0 1");
    let info = info_of(&pos);
    assert_eq!(scale_endgame(&pos, 300, &info, &scales()), 0);
}

#[test]
fn opposite_bishops_scale_by_pawns() {
    // Bishops on f1 (light) and d6 (dark), white a pawn up
    let pos = Position::from_fen("4k3/4p3/3b4/8/8/8/3PP3/4KB2 w - - 0 1");
    let info = info_of(&pos);
    assert_eq!(scale_endgame(&pos, 256, &info, &scales()), 64);
}
