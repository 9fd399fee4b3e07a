use rust_engine::bitboard::{bitboards, Bitboards};
use rust_engine::movegen::{generate_legal, MoveList};
use rust_engine::position::{Position, StateInfo, DEFAULT_FEN};
use rust_engine::types::{Move, MoveFlag, Square};

#[test]
fn make_undo_move_loop() {
    let bbs = bitboards();
    let mut pos = Position::from_fen(DEFAULT_FEN);
    let mut state = StateInfo::new();
    state.set_from_position(&pos);

    const HALFMOVE_COUNT: usize = 24;
    let move_sequence: [Move; HALFMOVE_COUNT] = [
        Move::new(Square::D2, Square::D4, MoveFlag::DoublePush),
        Move::new(Square::D7, Square::D5, MoveFlag::DoublePush),
        Move::new(Square::C2, Square::C4, MoveFlag::DoublePush),
        Move::new(Square::E7, Square::E6, MoveFlag::Quiet),
        Move::new(Square::B1, Square::C3, MoveFlag::Quiet),
        Move::new(Square::G8, Square::F6, MoveFlag::Quiet),
        Move::new(Square::C1, Square::G5, MoveFlag::Quiet),
        Move::new(Square::F8, Square::E7, MoveFlag::Quiet),
        Move::new(Square::E2, Square::E3, MoveFlag::Quiet),
        Move::new(Square::H7, Square::H6, MoveFlag::Quiet),
        Move::new(Square::G5, Square::F6, MoveFlag::Capture),
        Move::new(Square::E7, Square::F6, MoveFlag::Capture),
        Move::new(Square::G1, Square::F3, MoveFlag::Quiet),
        Move::new(Square::E8, Square::G8, MoveFlag::KingCastle),
        Move::new(Square::C4, Square::D5, MoveFlag::Capture),
        Move::new(Square::C7, Square::C5, MoveFlag::DoublePush),
        Move::new(Square::D5, Square::C6, MoveFlag::EpCapture),
        Move::new(Square::B7, Square::B5, MoveFlag::DoublePush),
        Move::new(Square::C6, Square::C7, MoveFlag::Quiet),
        Move::new(Square::B8, Square::C6, MoveFlag::Quiet),
        Move::new(Square::C7, Square::D8, MoveFlag::PromoCaptureQ),
        Move::new(Square::F8, Square::D8, MoveFlag::Capture),
        Move::new(Square::F1, Square::B5, MoveFlag::Capture),
        Move::new(Square::C6, Square::E7, MoveFlag::Quiet),
    ];

    let mut positions = [Position::new(); HALFMOVE_COUNT];
    let mut states = [StateInfo::new(); HALFMOVE_COUNT];

    for (i, mv) in move_sequence.iter().enumerate() {
        positions[i] = pos;
        pos.make_move(*mv, &mut state, &bbs);
        states[i] = state;
    }

    for (i, mv) in move_sequence.iter().enumerate().rev() {
        pos.undo_move(*mv, &states[i], &bbs);
        assert_eq!(pos, positions[i]);
    }
}

fn perft(pos: &mut Position, bbs: &Bitboards, depth: usize) -> u64 {
    if depth == 0 {
        return 1;
    }
    let mut moves = MoveList::new();
    generate_legal(pos, bbs, &mut moves);
    let mut nodes = 0;
    let mut state = StateInfo::new();
    for &mv in moves.as_slice() {
        pos.make_move(mv, &mut state, bbs);
        nodes += perft(pos, bbs, depth - 1);
        pos.undo_move(mv, &state, bbs);
    }
    nodes
}

#[test]
fn perft_is_correct() {
    let bbs = bitboards();
    let depths: [usize; 6] = [5, 5, 6, 5, 5, 5];
    let values: [[u64; 6]; 6] = [
        [1, 20, 400, 8_902, 197_281, 4_865_609],
        [1, 48, 2_039, 97_862, 4_085_603, 193_690_690],
        [1, 14, 191, 2_812, 43_238, 674_624],
        [1, 6, 264, 9_467, 422_333, 15_833_292],
        [1, 44, 1_486, 62_379, 2_103_487, 89_941_194],
        [1, 46, 2_079, 89_890, 3_894_594, 164_075_551],
    ];
    let fens: [&str; 6] = [
        "rnbqkbnr/pppppppp/8/8/8/8/PPPPPPPP/RNBQKBNR w KQkq - 0 1",
        "r3k2r/p1ppqpb1/bn2pnp1/3PN3/1p2P3/2N2Q1p/PPPBBPPP/R3K2R w KQkq - 0 1",
        "8/2p5/3p4/KP5r/1R3p1k/8/4P1P1/8 w - - 0 1",
        "r3k2r/Pppp1ppp/1b3nbN/nP6/BBP1P3/q4N2/Pp1P2PP/R2Q1RK1 w kq - 0 1",
        "rnbq1k1r/pp1Pbppp/2p5/8/2B5/8/PPP1NnPP/RNBQK2R w KQ - 1 8",
        "r4rk1/1pp1qppp/p1np1n2/2b1p1B1/2B1P1b1/P1NP1N2/1PP1QPPP/R4RK1 w - - 0 10",
    ];
    for p in 0..6 {
        let mut pos = Position::from_fen(fens[p]);
        for d in 0..depths[p] {
            assert_eq!(perft(&mut pos, &bbs, d), values[p][d], "{} at depth {d}", fens[p]);
        }
    }
}
