use rust_engine::bitboard::bitboards;
use rust_engine::position::{Position, DEFAULT_FEN};
use rust_engine::types::{Move, MoveFlag, Square};
use rust_engine::uci::{
    parse_go_clock_time, parse_go_depth, parse_go_movetime, parse_go_u64, parse_uci_move,
};

#[test]
fn go_depth_is_read() {
    assert_eq!(parse_go_depth("go depth 5"), Some(5));
    assert_eq!(parse_go_depth("go   wtime 100 depth 12"), Some(12));
    assert_eq!(parse_go_depth("go depth 0"), None);
    assert_eq!(parse_go_depth("go depth -3"), None);
    assert_eq!(parse_go_depth("go depth x"), None);
    assert_eq!(parse_go_depth("go depth"), None);
    assert_eq!(parse_go_depth("stop depth 5"), None);
    assert_eq!(parse_go_depth("go infinite"), None);
}

#[test]
fn go_times_are_read() {
    assert_eq!(parse_go_movetime("go movetime 1500"), Some(1500));
    assert_eq!(parse_go_movetime("go movetime"), None);
    assert_eq!(parse_go_u64("go wtime 60000 btime 50000", "btime"), Some(50000));
    assert_eq!(parse_go_u64("go wtime -1", "wtime"), None);
    assert_eq!(parse_go_u64("position wtime 1", "wtime"), None);
}

#[test]
fn clock_time_uses_side_to_move() {
    let white = Position::from_fen(DEFAULT_FEN);
    let black = Position::from_fen("rnbqkbnr/pppppppp/8/8/4P3/8/PPPP1PPP/RNBQKBNR b KQkq - 0 1");
    let cmd = "go wtime 60000 btime 50000 winc 1000";
    assert_eq!(parse_go_clock_time(cmd, &white), Some(3490));
    assert_eq!(parse_go_clock_time(cmd, &black), Some(2490));
    assert_eq!(parse_go_clock_time("go wtime 100", &white), Some(5));
    assert_eq!(parse_go_clock_time("go wtime 100", &black), None);
    assert_eq!(parse_go_clock_time("go movetime 100", &white), None);
}

#[test]
fn uci_moves_are_matched_against_legal_moves() {
    let bbs = bitboards();
    let pos = Position::from_fen(DEFAULT_FEN);
    assert_eq!(
        parse_uci_move(&pos, &bbs, "e2e4"),
        Some(Move::new(Square::E2, Square::E4, MoveFlag::DoublePush))
    );
    assert_eq!(
        parse_uci_move(&pos, &bbs, "g1f3"),
        Some(Move::new(Square::G1, Square::F3, MoveFlag::Quiet))
    );
    assert_eq!(parse_uci_move(&pos, &bbs, "e7e5"), None);
    assert_eq!(parse_uci_move(&pos, &bbs, "e2e5"), None);
    let pos = Position::from_fen("1n2k3/P7/8/8/8/8/8/4K3 w - - 0 1");
    assert_eq!(
        parse_uci_move(&pos, &bbs, "a7a8q"),
        Some(Move::new(Square::A7, Square::A8, MoveFlag::PromoQ))
    );
    assert_eq!(
        parse_uci_move(&pos, &bbs, "a7b8n"),
        Some(Move::new(Square::A7, Square::B8, MoveFlag::PromoCaptureN))
    );
    assert_eq!(parse_uci_move(&pos, &bbs, "a7a8"), None);
}
