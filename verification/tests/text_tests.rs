use rust_engine::evaluate::Score;
use rust_engine::position::{Position, DEFAULT_FEN};
use rust_engine::tuning::emit::fmt_score;

#[test]
fn scores_are_written_as_source() {
    assert_eq!(fmt_score(Score { mg: 12, eg: -5 }), "s!(12, -5)");
    assert_eq!(fmt_score(Score { mg: 0, eg: 0 }), "s!(0, 0)");
    assert_eq!(fmt_score(Score { mg: i32::MIN, eg: i32::MAX }), "s!(-2147483648, 2147483647)");
}

#[test]
fn start_position_diagram() {
    let pos = Position::from_fen(DEFAULT_FEN);
    let text: String = pos.diagram().into_iter().collect();
    let lines: Vec<&str> = text.split('\n').collect();
    assert_eq!(lines[0], "");
    assert_eq!(lines[1], "  +-----------------+");
    assert_eq!(lines[2], "8 | \u{2656} \u{2658} \u{2657} \u{2655} \u{2654} \u{2657} \u{2658} \u{2656} |");
    assert_eq!(lines[3], "7 | \u{2659} \u{2659} \u{2659} \u{2659} \u{2659} \u{2659} \u{2659} \u{2659} |");
    assert_eq!(lines[5], "5 | . . . . . . . . |");
    assert_eq!(lines[9], "1 | \u{265C} \u{265E} \u{265D} \u{265B} \u{265A} \u{265D} \u{265E} \u{265C} |");
    assert_eq!(lines[10], "  +-----------------+");
    assert_eq!(lines[11], "    a b c d e f g h");
    assert_eq!(lines.len(), 13);
}
