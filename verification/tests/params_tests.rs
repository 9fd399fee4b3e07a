use rust_engine::evaluate::Score;
use rust_engine::params::helpers::{
    make_nondecreasing, make_nonincreasing, next_pawn_pst, next_score, next_score_array,
    normalise_king_ring, normalise_mean_zero, push_pawn_pst, push_score, push_score_array,
    push_score_array_bounds, push_score_bounds,
};
use rust_engine::tuning::types::ParamBounds;

fn s(mg: i32, eg: i32) -> Score {
    Score { mg, eg }
}

#[test]
fn nondecreasing_raises_to_running_max() {
    let mut arr = [s(3, 1), s(1, 5), s(4, 2), s(2, 9)];
    make_nondecreasing(&mut arr);
    assert_eq!(arr, [s(3, 1), s(3, 5), s(4, 5), s(4, 9)]);
}

#[test]
fn nonincreasing_lowers_to_running_min() {
    let mut arr = [s(3, 1), s(1, 5), s(4, 2), s(2, 0)];
    make_nonincreasing(&mut arr);
    assert_eq!(arr, [s(3, 1), s(1, 1), s(1, 1), s(1, 0)]);
}

#[test]
fn mean_moves_into_base() {
    let mut base = s(100, 200);
    let mut arr = [s(10, -3), s(20, -4), s(33, -5)];
    normalise_mean_zero(&mut base, &mut arr);
    // Means 21 and -4, rounded toward zero
    assert_eq!(base, s(121, 196));
    assert_eq!(arr, [s(-11, 1), s(-1, 0), s(12, -1)]);
    // base * N + sum is unchanged
    assert_eq!(base.mg * 3 + arr.iter().map(|x| x.mg).sum::<i32>(), 100 * 3 + 63);
}

#[test]
fn king_ring_is_normalised() {
    let mut arr = [s(0, 0); 24];
    for (i, x) in arr.iter_mut().enumerate() {
        *x = s(100 - 40 * i as i32, -50 + (i as i32 % 3));
    }
    normalise_king_ring(&mut arr);
    assert!(arr[0].mg >= -10 && arr[0].mg <= 20);
    assert!(arr[0].eg >= -10 && arr[0].eg <= 20);
    for i in 1..24 {
        assert!(arr[i].mg <= arr[i - 1].mg && arr[i].mg >= arr[i - 1].mg - 15);
        assert!(arr[i].eg <= arr[i - 1].eg && arr[i].eg >= arr[i - 1].eg - 15);
        assert!(arr[i].mg >= -200 && arr[i].eg >= -200);
    }
    assert_eq!(arr[0].mg, 20);
    assert_eq!(arr[1].mg, 5);
    assert_eq!(arr[0].eg, -10);
}

#[test]
fn flattening_round_trips() {
    let mut out = Vec::new();
    push_score(&mut out, s(7, -7));
    push_score_array(&mut out, &[s(1, 2), s(3, 4)]);
    let mut pst = [s(0, 0); 64];
    for (i, x) in pst.iter_mut().enumerate() {
        *x = s(i as i32, -(i as i32));
    }
    push_pawn_pst(&mut out, &pst);
    assert_eq!(out.len(), 2 + 4 + 96);
    assert_eq!(&out[..6], &[7, -7, 1, 2, 3, 4]);
    assert_eq!(out[6], 8);
    assert_eq!(out[7], -8);

    let mut pos = 0;
    assert_eq!(next_score(&out, &mut pos), s(7, -7));
    let arr: [Score; 2] = next_score_array(&out, &mut pos);
    assert_eq!(arr, [s(1, 2), s(3, 4)]);
    let back = next_pawn_pst(&out, &mut pos, &[s(0, 0); 64]);
    assert_eq!(pos, out.len());
    for i in 8..56 {
        assert_eq!(back[i], pst[i]);
    }
    assert_eq!(back[0], s(0, 0));
    assert_eq!(back[63], s(0, 0));
}

#[test]
fn bounds_are_pushed_per_value() {
    let b = ParamBounds { min: -3, max: 9 };
    let mut out = Vec::new();
    push_score_bounds(&mut out, b);
    push_score_array_bounds::<4, ParamBounds>(&mut out, b);
    assert_eq!(out.len(), 2 + 8);
    assert!(out.iter().all(|x| *x == b));
}
