use rust_engine::tuning::dataset::{parse_epd_line, parse_sample_line, SampleError};
use rust_engine::tuning::pgn::GameResult;

#[test]
fn sample_line_splits_fen_and_result() {
    let fen = "rnbqkbnr/pppppppp/8/8/8/8/PPPPPPPP/RNBQKBNR w KQkq - 0 1";
    let line = format!("{fen} \"1/2-1/2\";");
    assert_eq!(parse_sample_line(line.as_bytes()), Ok((fen.len(), GameResult::Draw)));
    let line = format!("{fen} \"1-0\";");
    assert_eq!(parse_sample_line(line.as_bytes()), Ok((fen.len(), GameResult::WhiteWin)));
}

#[test]
fn sample_line_uses_the_last_quote() {
    let line = "8/8/8/8/8/8/8/K6k w - - 0 1 \"x\" \"0-1\";";
    assert_eq!(parse_sample_line(line.as_bytes()), Ok((31, GameResult::BlackWin)));
}

#[test]
fn sample_line_errors() {
    assert_eq!(parse_sample_line(b"8/8/8/8/8/8/8/K6k w - - 0 1"), Err(SampleError::NoResult));
    assert_eq!(parse_sample_line(b"8/8/8/8/8/8/8/K6k w - - 0 1 \"1-0\""), Err(SampleError::BadSuffix));
    assert_eq!(parse_sample_line(b"8/8/8/8/8/8/8/K6k w - - 0 1 \"2-0\";"), Err(SampleError::BadResult));
    assert_eq!(parse_sample_line(b""), Err(SampleError::NoResult));
}

#[test]
fn epd_line_builds_a_fen() {
    let line = "rnbqkbnr/pppppppp/8/8/8/8/PPPPPPPP/RNBQKBNR w KQkq - c9 \"1-0\";";
    let (fen, result) = parse_epd_line(line.as_bytes()).unwrap();
    assert_eq!(String::from_utf8(fen).unwrap(), "rnbqkbnr/pppppppp/8/8/8/8/PPPPPPPP/RNBQKBNR w KQkq - 0 1");
    assert_eq!(result, GameResult::WhiteWin);
}

#[test]
fn epd_line_errors() {
    assert_eq!(parse_epd_line(b"8/8/8/8/8/8/8/K6k w - -"), Err(SampleError::MissingField));
    assert_eq!(parse_epd_line(b"8/8/8/8/8/8/8/K6k w - - c9 1-0;"), Err(SampleError::NoResult));
    assert_eq!(parse_epd_line(b"8/8/8/8/8/8/8/K6k w - - c9 \"1-0;"), Err(SampleError::NoResult));
    assert_eq!(parse_epd_line(b"8/8/8/8/8/8/8/K6k w - - c9 \"draw\";"), Err(SampleError::BadResult));
}
