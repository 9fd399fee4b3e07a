use rust_engine::tt::{age_delta, BoundType, NodeInfo, TranspositionTable};
use rust_engine::types::{Move, MoveFlag, Square};
use rust_engine::zobrist::ZKey;

fn assert_correct_node_info(node: NodeInfo, age: u8, is_pv: bool, bound: BoundType) {
    assert_eq!(node.age(), age);
    assert_eq!(node.is_pv(), is_pv);
    assert_eq!(node.bound_type(), bound);
}

fn colliding_keys(tt: &TranspositionTable) -> (ZKey, ZKey) {
    let k1 = ZKey(1);
    let k2 = ZKey(1 + tt.num_entries() as u64);

    assert_eq!(tt.index(k1), tt.index(k2));
    (k1, k2)
}

#[test]
fn age_delta_is_correct() {
    // If the provided current age is less than the entry age, it should calculate
    // the age delta modulo 32, otherwise it behaves as regular subtraction
    assert_eq!(age_delta(3, 12), 23);
    assert_eq!(age_delta(12, 4), 8);
}

#[test]
fn node_info_round_trips() {
    let node = NodeInfo::empty();
    assert_correct_node_info(node, 0, false, BoundType::NoBound);

    let node = NodeInfo::new(12, true, BoundType::Exact);
    assert_correct_node_info(node, 12, true, BoundType::Exact);
}

#[test]
fn tt_store_probe_round_trip() {
    let mut tt = TranspositionTable::new(1);
    let key = ZKey(1);

    // Probing an empty table returns None
    let probe = tt.probe(key);
    assert!(probe.is_none());

    // Probing an existing key returns the stored values
    let mv = Move::new(Square::E2, Square::E4, MoveFlag::DoublePush);
    tt.store(key, 12, mv, BoundType::Upper, true, 20, 10);

    let probe = tt.probe(key).expect("Expected a TT hit");

    assert_eq!(probe.mv, mv);
    assert_eq!(probe.depth, 12);
    assert_eq!(probe.value, 20);
    assert_eq!(probe.eval, 10);
    assert_eq!(probe.node_info.bound_type(), BoundType::Upper);
    assert_eq!(probe.node_info.is_pv(), true);
    assert_eq!(probe.node_info.age(), 0);
}

#[test]
fn same_key_deeper_replaces() {
    let mut tt = TranspositionTable::new(1);
    let key = ZKey(1);

    tt.store(key, 4, Move::new(Square::E2, Square::E3, MoveFlag::Quiet), BoundType::Lower, false, 10, 5);
    tt.store(key, 5, Move::new(Square::E2, Square::E4, MoveFlag::DoublePush), BoundType::Lower, false, 21, 9);

    let hit = tt.probe(key).expect("Expected a TT hit");
    assert_eq!(hit.depth, 5);
    assert_eq!(hit.value, 21);
}

#[test]
fn same_key_shallower_non_exact_does_not_replace() {
    let mut tt = TranspositionTable::new(1);
    let key = ZKey(1);
    let old_move = Move::new(Square::E2, Square::E3, MoveFlag::Quiet);
    let new_move = Move::new(Square::E2, Square::E4, MoveFlag::DoublePush);

    tt.store(key, 6, old_move, BoundType::Lower, false, 10, 5);
    tt.store(key, 3, new_move, BoundType::Lower, false, 21, 9);

    let hit = tt.probe(key).expect("Expected a TT hit");
    assert_eq!(hit.depth, 6);
    assert_eq!(hit.mv, old_move);
    assert_eq!(hit.value, 10);
}

#[test]
fn exact_replaces_even_if_shallower() {
    let mut tt = TranspositionTable::new(1);
    let key = ZKey(1);

    tt.store(key, 6, Move::new(Square::E2, Square::E3, MoveFlag::Quiet), BoundType::Lower, false, 10, 5);
    tt.store(key, 3, Move::new(Square::E2, Square::E4, MoveFlag::DoublePush), BoundType::Exact, false, 21, 9);

    let hit = tt.probe(key).expect("Expected a TT hit");
    assert_eq!(hit.depth, 3);
    assert_eq!(hit.node_info.bound_type(), BoundType::Exact);
}

#[test]
fn collision_replacement_matches_policy() {
    let mut tt = TranspositionTable::new(1);
    let (k1, k2) = colliding_keys(&tt);
    let old_move = Move::new(Square::E2, Square::E3, MoveFlag::Quiet);
    let new_move = Move::new(Square::E2, Square::E4, MoveFlag::DoublePush);

    tt.store(k1, 6, old_move, BoundType::Lower, false, 10, 5);
    tt.store(k2, 3, new_move, BoundType::Lower, false, 21, 9);

    // Different key collisions always replace
    let k1_probe = tt.probe(k1);
    assert!(k1_probe.is_none());

    let k2_probe = tt.probe(k2).expect("Expected a TT hit");
    assert_eq!(k2_probe.depth, 3);
    assert_eq!(k2_probe.mv, new_move);
    assert_eq!(k2_probe.value, 21);
}

#[test]
fn older_entry_replaced_after_age_increment() {
    let mut tt = TranspositionTable::new(1);
    let key = ZKey(1);

    tt.store(key, 6, Move::new(Square::E2, Square::E3, MoveFlag::Quiet), BoundType::Lower, false, 10, 5);
    tt.increment_age();
    tt.store(key, 6, Move::new(Square::E2, Square::E4, MoveFlag::DoublePush), BoundType::Lower, false, 21, 9);

    let hit = tt.probe(key).expect("Expected a TT hit");
    assert_eq!(hit.value, 21);
    assert_eq!(hit.node_info.age(), 1);

    // Entry is replaced even after age wrap around
    for _ in 0..31 {
        tt.increment_age();
    }

    tt.store(key, 7, Move::new(Square::E2, Square::E3, MoveFlag::Quiet), BoundType::Lower, false, 14, 7);

    let hit = tt.probe(key).expect("Expected a TT hit");
    assert_eq!(hit.value, 14);
    assert_eq!(hit.node_info.age(), 0);
}
