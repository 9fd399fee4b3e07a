use rust_engine::tuning::render::{render_full_params, render_lazy_params};

fn text(bytes: Vec<u8>) -> String {
    String::from_utf8(bytes).unwrap()
}

#[test]
fn full_report_opens_with_the_loss_and_values() {
    let theta = vec![7; 1118];
    let out = text(render_full_params("full", &theta, "0.25"));
    let lines: Vec<&str> = out.lines().collect();
    assert_eq!(lines[0], "==================================================");
    assert_eq!(lines[1], "full_loss = 0.25");
    assert!(lines[2].starts_with("full_theta = [7, 7, "));
    assert!(lines[2].ends_with(", 7]"));
    assert_eq!(lines[2].matches('7').count(), 1118);
    assert_eq!(lines[3], "--------------------------------------------------");
    assert_eq!(
        lines[4],
        "pub const PIECE_VALUES: [Score; 5] = [s!(7, 7), s!(7, 7), s!(7, 7), s!(7, 7), s!(7, 7)];"
    );
    assert_eq!(lines[5], "");
    assert_eq!(lines[6], "pub const DOUBLED_PAWNS: Score = s!(7, 7);");
    assert!(out.contains("pub const KING_RING_ATTACKS: [Score; 24] = [s!(7, 7), "));
    assert!(out.contains("// Mobility scores based on the number of moves available to a piece\n"));
}

#[test]
fn full_report_writes_tables_in_rows() {
    let theta = vec![-12; 1118];
    let out = text(render_full_params("x", &theta, "1"));
    let skip = ["#", "[rustfmt", "::skip]"].concat();
    let pawn = format!("{skip}\npub const PAWN_PST: PST = [\n    s!(   0,    0), ");
    assert!(out.contains(&pawn));
    assert!(out.contains("\n    s!( -12,  -12), s!( -12,  -12), "));
    assert!(out.ends_with("s!( -12,  -12)\n];\n"));
    assert_eq!(out.matches(skip.as_str()).count(), 6);
}

#[test]
fn lazy_report_lists_values_and_tables() {
    let theta = vec![3; 746];
    let out = text(render_lazy_params("lazy", &theta, "0.5"));
    let lines: Vec<&str> = out.lines().collect();
    assert_eq!(lines[1], "lazy_loss = 0.5");
    assert_eq!(
        lines[4],
        "pub const LAZY_PIECE_VALUES: [Score; 5] = [s!(3, 3), s!(3, 3), s!(3, 3), s!(3, 3), s!(3, 3)];"
    );
    assert_eq!(lines[5], "");
    assert_eq!(lines[6], "// Lazy PSTs");
    assert_eq!(lines[7], ["#", "[rustfmt", "::skip]"].concat());
    assert_eq!(lines[8], "pub const LAZY_PAWN_PST: PST = [");
    assert!(out.ends_with("s!(   3,    3)\n];\n"));
}
