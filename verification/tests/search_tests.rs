use rust_engine::bitboard::bitboards;
use rust_engine::evaluate::Score;
use rust_engine::params::types::Params;
use rust_engine::position::Position;
use rust_engine::search::tree::search;
use rust_engine::search::SearchLimits;
use rust_engine::tt::TranspositionTable;
use rust_engine::tuning::types::FullTuningConfig;

const NO_MOBILITY: [Score; 28] = [Score { mg: 0, eg: 0 }; 28];

fn zero_params() -> Params {
    FullTuningConfig::unpack(&vec![0; 1118])
}

fn uci(bytes: Vec<u8>) -> String {
    String::from_utf8(bytes).unwrap()
}

#[test]
fn finds_the_back_rank_mate() {
    let bbs = bitboards();
    let mut pos = Position::from_fen("6k1/5ppp/8/8/8/8/8/R5K1 w - - 0 1");
    let before = pos.diagram();
    let key = pos.zkey;
    let limits = SearchLimits { max_depth: 3, move_time: None };
    let (best, done, _tt) = search(
        &mut pos,
        &bbs,
        TranspositionTable::new(1),
        &vec![key],
        &limits,
        None,
        &zero_params(),
        &NO_MOBILITY,
    );
    assert_eq!(uci(best.best_move.uci_bytes()), "a1a8");
    assert_eq!(best.score, 32000);
    assert_eq!(done.len(), 3);
    for (k, r) in done.iter().enumerate() {
        assert_eq!(r.depth, k as i32 + 1);
    }
    assert_eq!(pos.diagram(), before);
    assert_eq!(pos.zkey, key);
}

#[test]
fn stalemate_has_no_move_and_a_level_score() {
    let bbs = bitboards();
    let mut pos = Position::from_fen("7k/5Q2/6K1/8/8/8/8/8 b - - 0 1");
    let key = pos.zkey;
    let limits = SearchLimits { max_depth: 2, move_time: None };
    let (best, done, _tt) = search(
        &mut pos,
        &bbs,
        TranspositionTable::new(1),
        &vec![key],
        &limits,
        None,
        &zero_params(),
        &NO_MOBILITY,
    );
    assert!(best.best_move.is_null());
    assert_eq!(best.score, 0);
    assert_eq!(done.len(), 2);
}

#[test]
fn checkmated_side_scores_minus_infinity() {
    let bbs = bitboards();
    let mut pos = Position::from_fen("R5k1/5ppp/8/8/8/8/8/6K1 b - - 0 1");
    let key = pos.zkey;
    let limits = SearchLimits { max_depth: 1, move_time: None };
    let (best, _done, _tt) = search(
        &mut pos,
        &bbs,
        TranspositionTable::new(1),
        &vec![key],
        &limits,
        None,
        &zero_params(),
        &NO_MOBILITY,
    );
    assert!(best.best_move.is_null());
    assert_eq!(best.score, -32001);
}

#[test]
fn zero_depth_falls_back_to_the_first_legal_move() {
    let bbs = bitboards();
    let mut pos = Position::from_fen("7k/8/8/8/8/8/8/K7 w - - 0 1");
    let key = pos.zkey;
    let limits = SearchLimits { max_depth: 0, move_time: None };
    let (best, done, _tt) = search(
        &mut pos,
        &bbs,
        TranspositionTable::new(1),
        &vec![key],
        &limits,
        None,
        &zero_params(),
        &NO_MOBILITY,
    );
    assert!(done.is_empty());
    assert!(!best.best_move.is_null());
    let text = uci(best.best_move.uci_bytes());
    assert!(text.starts_with("a1"), "{text}");
}

fn searcher_for(pos: &Position) -> rust_engine::search::Searcher {
    rust_engine::search::Searcher {
        tt: TranspositionTable::new(1),
        rep_history: vec![pos.zkey],
        ordering: rust_engine::search::OrderingTables::new(),
        ctx: rust_engine::search::SearchContext {
            stats: rust_engine::search::SearchStats { nodes: 0 },
            stop_at: None,
            stopped: false,
        },
        params: zero_params(),
        king_mobility: NO_MOBILITY,
    }
}

#[test]
fn negamax_scores_stalemate_as_a_draw() {
    let bbs = bitboards();
    let mut pos = Position::from_fen("7k/5Q2/6K1/8/8/8/8/8 b - - 0 1");
    let mut s = searcher_for(&pos);
    let r = s.negamax(&mut pos, &bbs, 3, 2, -32001, 32001, rust_engine::search::tree::NodeType::PV);
    assert_eq!(r, 0);
}

#[test]
fn negamax_scores_mate_by_distance() {
    let bbs = bitboards();
    let mut pos = Position::from_fen("R5k1/5ppp/8/8/8/8/8/6K1 b - - 0 1");
    let mut s = searcher_for(&pos);
    let r = s.negamax(&mut pos, &bbs, 3, 2, -32001, 32001, rust_engine::search::tree::NodeType::PV);
    assert_eq!(r, -32001 + 2);
    let q = s.q_search(&mut pos, &bbs, 4, -32001, 32001);
    assert_eq!(q, -32001 + 4);
}

#[test]
fn search_ages_the_table_once() {
    let bbs = bitboards();
    let mut pos = Position::from_fen("7k/8/8/8/8/8/8/K7 w - - 0 1");
    let key = pos.zkey;
    let limits = SearchLimits { max_depth: 2, move_time: None };
    let (_best, done, tt) = search(
        &mut pos,
        &bbs,
        TranspositionTable::new(1),
        &vec![key],
        &limits,
        None,
        &zero_params(),
        &NO_MOBILITY,
    );
    assert_eq!(done.len(), 2);
    assert_eq!(tt.current_age(), 1);
}

#[test]
fn quiescence_takes_the_hanging_queen() {
    let bbs = bitboards();
    let mut params = zero_params();
    params.pawn_value = Score { mg: 100, eg: 100 };
    params.queen_value = Score { mg: 900, eg: 900 };
    let mut pos = Position::from_fen("4k3/8/8/3q4/4P3/8/8/4K3 w - - 0 1");
    let stand = rust_engine::evaluate::evaluate_with(&pos, &bbs, &params, &NO_MOBILITY);
    let mut child = pos;
    let mv = rust_engine::uci::parse_uci_move(&pos, &bbs, "e4d5").unwrap();
    let mut state = rust_engine::position::StateInfo::new();
    child.make_move(mv, &mut state, &bbs);
    let reply = -rust_engine::evaluate::evaluate_with(&child, &bbs, &params, &NO_MOBILITY);
    let mut s = searcher_for(&pos);
    s.params = params;
    let r = s.q_search(&mut pos, &bbs, 0, -32001, 32001);
    assert_eq!(r, if reply > stand { reply } else { stand });
    assert!(r > stand);
}

#[test]
fn quiescence_stands_pat_above_beta() {
    let bbs = bitboards();
    let mut params = zero_params();
    params.queen_value = Score { mg: 900, eg: 900 };
    let mut pos = Position::from_fen("4k3/8/8/8/8/8/8/3QK3 w - - 0 1");
    let stand = rust_engine::evaluate::evaluate_with(&pos, &bbs, &params, &NO_MOBILITY);
    let mut s = searcher_for(&pos);
    s.params = params;
    let r = s.q_search(&mut pos, &bbs, 0, -100, 50);
    assert_eq!(r, stand);
    assert!(r >= 50);
}

#[test]
fn one_ply_search_scores_the_best_reply() {
    let bbs = bitboards();
    let mut params = zero_params();
    params.pawn_value = Score { mg: 100, eg: 100 };
    params.queen_value = Score { mg: 900, eg: 900 };
    let mut pos = Position::from_fen("4k3/8/8/3q4/4P3/8/8/4K3 w - - 0 1");
    let key = pos.zkey;
    let mv = rust_engine::uci::parse_uci_move(&pos, &bbs, "e4d5").unwrap();
    let mut child = pos;
    let mut state = rust_engine::position::StateInfo::new();
    child.make_move(mv, &mut state, &bbs);
    let mut s = searcher_for(&pos);
    s.params = params;
    s.rep_history = vec![key, child.zkey];
    let reply = -s.q_search(&mut child, &bbs, 1, -32001, 32001);
    let limits = SearchLimits { max_depth: 1, move_time: None };
    let (best, done, _tt) = search(
        &mut pos,
        &bbs,
        TranspositionTable::new(1),
        &vec![key],
        &limits,
        None,
        &params,
        &NO_MOBILITY,
    );
    assert_eq!(done.len(), 1);
    assert_eq!(uci(best.best_move.uci_bytes()), "e4d5");
    assert_eq!(best.score, reply);
    let mut n = searcher_for(&pos);
    n.params = params;
    let r = n.negamax(&mut pos, &bbs, 1, 0, -32001, 32001, rust_engine::search::tree::NodeType::PV);
    assert_eq!(r, reply);
    let mut z = searcher_for(&pos);
    z.params = params;
    let low = z.negamax(&mut pos, &bbs, 1, 0, reply - 1, reply, rust_engine::search::tree::NodeType::NonPV);
    assert_eq!(low, reply);
}
