use rust_engine::bitboard::bitboards;
use rust_engine::movepick::{MovePicker, Stage};
use rust_engine::position::Position;
use rust_engine::search::OrderingTables;
use rust_engine::types::{Move, MoveFlag, Square};

#[test]
fn stage_next_is_correct() {
    let mut stage = Stage::TTMove;
    stage.next();
    assert_eq!(stage, Stage::GenNoisy);
    stage.next();
    assert_eq!(stage, Stage::Noisy);
    stage.next();
    assert_eq!(stage, Stage::GenQuiets);
    stage.next();
    assert_eq!(stage, Stage::Quiets);
    stage.next();
    assert_eq!(stage, Stage::Done);

    stage = Stage::PVEvasion;
    stage.next();
    assert_eq!(stage, Stage::TTEvasion);
    stage.next();
    assert_eq!(stage, Stage::GenEvasions);
    stage.next();
    assert_eq!(stage, Stage::Evasions);
    stage.next();
    assert_eq!(stage, Stage::Done);

    stage = Stage::TTQSearch;
    stage.next();
    assert_eq!(stage, Stage::GenQSearch);
    stage.next();
    assert_eq!(stage, Stage::QSearch);
    stage.next();
    assert_eq!(stage, Stage::Done);
}

#[test]
fn move_picker_next_is_correct() {
    let bbs = bitboards();
    let pos = Position::from_fen("7k/1P4b1/8/8/4N3/2p5/8/K7 w - - 0 1");
    let in_check = !pos.checkers.is_empty();
    let depth = 3;
    let ply = 2;

    let mut ordering = OrderingTables::new();
    let k1 = Move::new(Square::E4, Square::F6, MoveFlag::Quiet);
    ordering.update_killers(k1, ply);

    let tt_move = Move::new(Square::B7, Square::B8, MoveFlag::PromoQ);
    let mut mp = MovePicker::new(in_check, Move::null(), tt_move, depth, ply);

    // Correctly skips pv move and gets tt move and updates state
    assert_eq!(mp.next(&pos, &ordering, &bbs).unwrap(), tt_move);

    assert_eq!(mp.stage(), Stage::GenNoisy);
    assert_eq!(mp.idx(), 0);

    // Correctly gets noisy moves
    let n1 = Move::new(Square::E4, Square::C3, MoveFlag::Capture);
    let n2 = Move::new(Square::B7, Square::B8, MoveFlag::PromoN);
    let n3 = Move::new(Square::B7, Square::B8, MoveFlag::PromoR);
    let n4 = Move::new(Square::B7, Square::B8, MoveFlag::PromoB);

    assert_eq!(mp.next(&pos, &ordering, &bbs).unwrap(), n1);
    assert_eq!(mp.next(&pos, &ordering, &bbs).unwrap(), n2);
    assert_eq!(mp.next(&pos, &ordering, &bbs).unwrap(), n3);
    assert_eq!(mp.next(&pos, &ordering, &bbs).unwrap(), n4);

    assert_eq!(mp.stage(), Stage::Noisy);
    assert_eq!(mp.idx(), 5);

    // Correctly gets killers
    assert_eq!(mp.next(&pos, &ordering, &bbs).unwrap(), k1);

    assert_eq!(mp.stage(), Stage::Quiets);
    assert_eq!(mp.idx(), 1);

    // Correct gets remaining quiets
    let quiet_count = 8;
    for i in 1..=quiet_count {
        assert!(mp.next(&pos, &ordering, &bbs).is_some());

        assert_eq!(mp.idx(), i + 1);
        assert_eq!(mp.stage(), Stage::Quiets);
    }

    assert!(mp.next(&pos, &ordering, &bbs).is_none());
    assert_eq!(mp.stage(), Stage::Done);
    assert_eq!(mp.idx(), 0);
}

#[test]
fn move_picker_in_check_gives_evasions_then_stops() {
    let bbs = bitboards();
    let pos =
        Position::from_fen("rnbqk1nr/ppp2ppp/4p3/3p4/2PP4/2b2N2/PP2P1PP/R1BQKB1R w KQkq - 0 1");
    let ordering = OrderingTables::new();
    let in_check = !pos.checkers.is_empty();
    assert!(in_check);
    let mut mp = MovePicker::new(in_check, Move::null(), Move::null(), 4, 0);
    assert_eq!(mp.stage(), Stage::GenEvasions);

    // The capture of the checker comes first
    let first = mp.next(&pos, &ordering, &bbs).unwrap();
    assert_eq!(first, Move::new(Square::B2, Square::C3, MoveFlag::Capture));
    let mut count = 1;
    while mp.next(&pos, &ordering, &bbs).is_some() {
        count += 1;
    }
    assert_eq!(count, 5);
    assert_eq!(mp.stage(), Stage::Done);
}

#[test]
fn move_picker_qsearch_skips_only_the_hash_move() {
    let bbs = bitboards();
    let pos = Position::from_fen("7k/1P4b1/8/8/4N3/2p5/8/K7 w - - 0 1");
    let ordering = OrderingTables::new();
    let tt_move = Move::new(Square::B7, Square::B8, MoveFlag::PromoQ);
    let pv_move = Move::new(Square::E4, Square::C3, MoveFlag::Capture);
    let mut mp = MovePicker::new(false, pv_move, tt_move, 0, 0);
    assert_eq!(mp.stage(), Stage::TTQSearch);
    assert_eq!(mp.next(&pos, &ordering, &bbs).unwrap(), tt_move);
    // The quiescence search does not pass over the principal variation move
    assert_eq!(mp.next(&pos, &ordering, &bbs).unwrap(), pv_move);
    let mut count = 2;
    while mp.next(&pos, &ordering, &bbs).is_some() {
        count += 1;
    }
    assert_eq!(count, 5);
}

#[test]
fn move_picker_stays_done_once_it_runs_out() {
    let bbs = bitboards();
    let pos = Position::from_fen("4k3/8/8/8/8/8/8/4K3 w - - 0 1");
    let ordering = OrderingTables::new();
    let mut mp = MovePicker::new(false, Move::null(), Move::null(), 1, 0);
    let mut count = 0;
    while mp.next(&pos, &ordering, &bbs).is_some() {
        count += 1;
    }
    assert_eq!(count, 5);
    assert_eq!(mp.stage(), Stage::Done);
    assert!(mp.next(&pos, &ordering, &bbs).is_none());
    assert!(mp.next(&pos, &ordering, &bbs).is_none());
    assert_eq!(mp.stage(), Stage::Done);
}
