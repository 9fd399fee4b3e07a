use rust_engine::tuning::pgn::{
    keep_position, parse_headers_and_moves, split_games, tokenize_moves, GameResult, PgnError,
};

fn sans(text: &str) -> Vec<(String, Option<String>)> {
    tokenize_moves(text)
        .unwrap()
        .into_iter()
        .map(|t| {
            (
                String::from_utf8(t.san).unwrap(),
                t.comment.map(|c| String::from_utf8(c).unwrap()),
            )
        })
        .collect()
}

#[test]
fn movetext_tokens_skip_numbers_variations_and_comments() {
    let toks = sans("1. e4 {+0.20/10 1.2s} e5 2. Nf3 (2. Nc3 Nf6) Nc6 $1 3. Bb5?! ; note\n a6 1-0");
    let names: Vec<&str> = toks.iter().map(|t| t.0.as_str()).collect();
    assert_eq!(names, vec!["e4", "e5", "Nf3", "Nc6", "Bb5", "a6"]);
    assert_eq!(toks[0].1.as_deref(), Some("+0.20/10 1.2s"));
    assert_eq!(toks[1].1, None);
}

#[test]
fn later_comment_replaces_earlier_one() {
    let toks = sans("1. d4 {first} {second} d5 1/2-1/2");
    assert_eq!(toks.len(), 2);
    assert_eq!(toks[0].1.as_deref(), Some("second"));
}

#[test]
fn unterminated_comment_is_an_error() {
    assert!(matches!(tokenize_moves("1. e4 {never closed"), Err(PgnError::UnterminatedComment)));
}

#[test]
fn games_are_split_at_event_tags() {
    let text = "junk\n[Event \"a\"]\n1. e4 *\n\n[Event \"b\"]\n1. d4 *\n";
    let spans = split_games(text);
    assert_eq!(spans.len(), 2);
    assert_eq!(&text[spans[0].0..spans[0].1], "[Event \"a\"]\n1. e4 *");
    assert_eq!(&text[spans[1].0..spans[1].1], "[Event \"b\"]\n1. d4 *");
    assert!(split_games("no games here").is_empty());
}

#[test]
fn headers_give_result_and_movetext() {
    let game = "[Event \"x\"]\n[Result \"1-0\"]\n\n1. e4 e5 1-0\n";
    let (result, span) = parse_headers_and_moves(game.as_bytes()).unwrap();
    assert_eq!(result, GameResult::WhiteWin);
    assert_eq!(&game[span.0..span.1], "1. e4 e5 1-0");
    let missing = "[Event \"x\"]\n\n1. e4\n";
    assert!(matches!(parse_headers_and_moves(missing.as_bytes()), Err(PgnError::MissingResult)));
    let unknown = "[Result \"*\"]\n1. e4\n";
    assert!(matches!(parse_headers_and_moves(unknown.as_bytes()), Err(PgnError::MissingResult)));
    let headers_only = "[Result \"0-1\"]\n";
    assert!(matches!(parse_headers_and_moves(headers_only.as_bytes()), Err(PgnError::NoMovetext)));
}

#[test]
fn result_tags_round_trip() {
    assert_eq!(GameResult::from_pgn_tag("0-1"), Some(GameResult::BlackWin));
    assert_eq!(GameResult::from_pgn_tag("1/2-1/2"), Some(GameResult::Draw));
    assert_eq!(GameResult::from_pgn_tag("*"), None);
    for r in [GameResult::BlackWin, GameResult::Draw, GameResult::WhiteWin] {
        let tag = String::from_utf8(r.tag()).unwrap();
        assert_eq!(GameResult::from_pgn_tag(&tag), Some(r));
    }
    assert!(!keep_position(12));
    assert!(keep_position(13));
}
