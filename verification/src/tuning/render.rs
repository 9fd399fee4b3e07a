//! The tuned weights written out as the source text of the weight tables.
use vstd::prelude::*;
use vstd::string::StringSliceAdditionalSpecFns;

use crate::evaluate::Score;
use crate::params::types::{LazyParams, Params};
use crate::tuning::emit::{decimal, push_decimal, score_text};
use crate::tuning::types::{unpacked_full, unpacked_lazy, FullTuningConfig, LazyTuningConfig};

verus! {

/// The texts of `items` joined by `, `.
pub open spec fn joined(items: Seq<Seq<u8>>) -> Seq<u8>
    decreases items.len(),
{
    if items.len() == 0 {
        Seq::empty()
    } else if items.len() == 1 {
        items[0]
    } else {
        joined(items.drop_last()) + seq![44u8, 32u8] + items.last()
    }
}

/// A list in brackets: `[a, b, c]`.
pub open spec fn bracketed(items: Seq<Seq<u8>>) -> Seq<u8> {
    seq![91u8] + joined(items) + seq![93u8]
}

/// A table of scores as its source writes it: `[s!(a, b), s!(c, d)]`.
pub open spec fn score_array_text(arr: Seq<Score>) -> Seq<u8> {
    bracketed(arr.map_values(|s: Score| score_text(s)))
}

/// A list of integers as Rust's debug format writes it: `[1, -2, 3]`.
pub open spec fn ints_text(v: Seq<i32>) -> Seq<u8> {
    bracketed(v.map_values(|x: i32| decimal(x as int)))
}

/// `t` right-aligned in a field of width 4.
pub open spec fn pad4(t: Seq<u8>) -> Seq<u8> {
    if t.len() < 4 {
        Seq::new((4 - t.len()) as nat, |i: int| 32u8) + t
    } else {
        t
    }
}

/// A score of a piece-square table: `s!(  12,  -3)`.
pub open spec fn pst_score_text(s: Score) -> Seq<u8> {
    seq![115u8, 33u8, 40u8] + pad4(decimal(s.mg as int)) + seq![44u8, 32u8] + pad4(decimal(s.eg as int))
        + seq![41u8]
}

/// The first `c` cells of row `r` of a piece-square table, each but the very last followed by
/// `, `.
pub open spec fn pst_cells(pst: Seq<Score>, r: int, c: int) -> Seq<u8>
    decreases c,
{
    if c <= 0 {
        Seq::empty()
    } else {
        let idx = 8 * r + c - 1;
        pst_cells(pst, r, c - 1) + pst_score_text(pst[idx]) + (if idx != 63 {
            seq![44u8, 32u8]
        } else {
            Seq::empty()
        })
    }
}

/// The first `n` rows of a piece-square table, each indented by four spaces and ended by a
/// line break.
pub open spec fn pst_rows(pst: Seq<Score>, n: int) -> Seq<u8>
    decreases n,
{
    if n <= 0 {
        Seq::empty()
    } else {
        pst_rows(pst, n - 1) + seq![32u8, 32u8, 32u8, 32u8] + pst_cells(pst, n - 1, 8) + seq![10u8]
    }
}

/// The line that keeps a formatter off a table: `#[rustfmt::skip]` and a line break.
pub open spec fn skip_line() -> Seq<u8> {
    seq![35u8, 91u8, 114u8, 117u8, 115u8, 116u8, 102u8, 109u8, 116u8, 58u8, 58u8, 115u8, 107u8, 105u8, 112u8, 93u8, 10u8]
}

/// Appends the bytes of `s`.
pub(crate) fn push_text(out: &mut Vec<u8>, s: &str)
    ensures
        final(out)@ == old(out)@ + s.spec_bytes(),
{
    let b = s.as_bytes();
    let ghost o = out@;
    let mut i: usize = 0;
    while i < b.len()
        invariant
            i <= b@.len(),
            b@ == s.spec_bytes(),
            out@ == o + b@.subrange(0, i as int),
        decreases b@.len() - i,
    {
        out.push(b[i]);
        i = i + 1;
        assert(out@ =~= o + b@.subrange(0, i as int));
    }
    assert(b@.subrange(0, b@.len() as int) =~= b@);
}

proof fn lemma_joined_step(items: Seq<Seq<u8>>, i: int)
    requires
        1 <= i < items.len(),
    ensures
        joined(items.take(i + 1)) == joined(items.take(i)) + seq![44u8, 32u8] + items[i],
{
    assert(items.take(i + 1).drop_last() =~= items.take(i));
}

/// Appends a score; see `score_text`.
fn push_score(out: &mut Vec<u8>, s: Score)
    ensures
        final(out)@ == old(out)@ + score_text(s),
{
    let ghost o = out@;
    out.push(115u8);
    out.push(33u8);
    out.push(40u8);
    push_decimal(out, s.mg);
    out.push(44u8);
    out.push(32u8);
    push_decimal(out, s.eg);
    out.push(41u8);
    assert(out@ =~= o + score_text(s));
}

/// Appends a table of scores; see `score_array_text`.
fn push_score_array(out: &mut Vec<u8>, arr: &[Score])
    ensures
        final(out)@ == old(out)@ + score_array_text(arr@),
{
    let ghost o = out@;
    let ghost items = arr@.map_values(|s: Score| score_text(s));
    out.push(91u8);
    let mut i: usize = 0;
    while i < arr.len()
        invariant
            i <= arr@.len(),
            items == arr@.map_values(|s: Score| score_text(s)),
            out@ == o + seq![91u8] + joined(items.take(i as int)),
        decreases arr@.len() - i,
    {
        let ghost before = out@;
        if i > 0 {
            out.push(44u8);
            out.push(32u8);
        }
        push_score(out, arr[i]);
        proof {
            if i == 0 {
                assert(items.take(1) =~= seq![items[0]]);
                assert(out@ =~= o + seq![91u8] + joined(items.take(1)));
            } else {
                lemma_joined_step(items, i as int);
                assert(out@ =~= o + seq![91u8] + joined(items.take(i + 1)));
            }
        }
        i = i + 1;
    }
    out.push(93u8);
    assert(items.take(arr@.len() as int) =~= items);
    assert(out@ =~= o + score_array_text(arr@));
}

/// Appends a list of integers; see `ints_text`.
fn push_ints(out: &mut Vec<u8>, v: &[i32])
    ensures
        final(out)@ == old(out)@ + ints_text(v@),
{
    let ghost o = out@;
    let ghost items = v@.map_values(|x: i32| decimal(x as int));
    out.push(91u8);
    let mut i: usize = 0;
    while i < v.len()
        invariant
            i <= v@.len(),
            items == v@.map_values(|x: i32| decimal(x as int)),
            out@ == o + seq![91u8] + joined(items.take(i as int)),
        decreases v@.len() - i,
    {
        if i > 0 {
            out.push(44u8);
            out.push(32u8);
        }
        push_decimal(out, v[i]);
        proof {
            if i == 0 {
                assert(items.take(1) =~= seq![items[0]]);
                assert(out@ =~= o + seq![91u8] + joined(items.take(1)));
            } else {
                lemma_joined_step(items, i as int);
                assert(out@ =~= o + seq![91u8] + joined(items.take(i + 1)));
            }
        }
        i = i + 1;
    }
    out.push(93u8);
    assert(items.take(v@.len() as int) =~= items);
    assert(out@ =~= o + ints_text(v@));
}

/// Appends `x` in decimal, right-aligned in a field of width 4.
fn push_padded(out: &mut Vec<u8>, x: i32)
    ensures
        final(out)@ == old(out)@ + pad4(decimal(x as int)),
{
    let mut t: Vec<u8> = Vec::new();
    push_decimal(&mut t, x);
    assert(t@ =~= decimal(x as int));
    let ghost o = out@;
    let mut k: usize = t.len();
    while k < 4
        invariant
            t@.len() <= k <= 4 || (k == t@.len() && k >= 4),
            out@ == o + Seq::new((k - t@.len()) as nat, |i: int| 32u8),
        decreases 4 - k,
    {
        out.push(32u8);
        k = k + 1;
        assert(out@ =~= o + Seq::new((k - t@.len()) as nat, |i: int| 32u8));
    }
    let ghost mid = out@;
    let mut j: usize = 0;
    while j < t.len()
        invariant
            j <= t@.len(),
            out@ == mid + t@.subrange(0, j as int),
        decreases t@.len() - j,
    {
        out.push(t[j]);
        j = j + 1;
        assert(out@ =~= mid + t@.subrange(0, j as int));
    }
    assert(t@.subrange(0, t@.len() as int) =~= t@);
    if t.len() < 4 {
        assert(out@ =~= o + pad4(decimal(x as int)));
    } else {
        assert(Seq::new(0, |i: int| 32u8) =~= Seq::<u8>::empty());
        assert(out@ =~= o + pad4(decimal(x as int)));
    }
}

/// Appends a score of a piece-square table; see `pst_score_text`.
fn push_pst_score(out: &mut Vec<u8>, s: Score)
    ensures
        final(out)@ == old(out)@ + pst_score_text(s),
{
    let ghost o = out@;
    out.push(115u8);
    out.push(33u8);
    out.push(40u8);
    push_padded(out, s.mg);
    out.push(44u8);
    out.push(32u8);
    push_padded(out, s.eg);
    out.push(41u8);
    assert(out@ =~= o + pst_score_text(s));
}

/// Appends the eight rows of a piece-square table; see `pst_rows`.
fn push_pst_rows(out: &mut Vec<u8>, pst: &[Score; 64])
    ensures
        final(out)@ == old(out)@ + pst_rows(pst@, 8),
{
    let ghost o = out@;
    let mut r: usize = 0;
    while r < 8
        invariant
            r <= 8,
            pst@.len() == 64,
            out@ == o + pst_rows(pst@, r as int),
        decreases 8 - r,
    {
        let ghost row_start = out@;
        out.push(32u8);
        out.push(32u8);
        out.push(32u8);
        out.push(32u8);
        let ghost cells_start = out@;
        let mut c: usize = 0;
        while c < 8
            invariant
                r < 8,
                c <= 8,
                pst@.len() == 64,
                out@ == cells_start + pst_cells(pst@, r as int, c as int),
            decreases 8 - c,
        {
            let idx = r * 8 + c;
            push_pst_score(out, pst[idx]);
            if idx != 63 {
                out.push(44u8);
                out.push(32u8);
            }
            c = c + 1;
            assert(out@ =~= cells_start + pst_cells(pst@, r as int, c as int));
        }
        out.push(10u8);
        r = r + 1;
        assert(out@ =~= o + pst_rows(pst@, r as int));
    }
}


/// A line of the source of a single score: its declaration, the score, and `;`.
pub open spec fn score_line(decl: Seq<u8>, s: Score) -> Seq<u8> {
    decl + score_text(s) + seq![59u8, 10u8]
}

/// A line of the source of a table of scores: its declaration, the table, and `;`.
pub open spec fn array_line(decl: Seq<u8>, arr: Seq<Score>) -> Seq<u8> {
    decl + score_array_text(arr) + seq![59u8, 10u8]
}

/// Appends a line of the source of a single score; see `score_line`.
fn push_score_line(out: &mut Vec<u8>, decl: &str, s: Score)
    ensures
        final(out)@ == old(out)@ + score_line(decl.spec_bytes(), s),
{
    let ghost o = out@;
    push_text(out, decl);
    push_score(out, s);
    out.push(59u8);
    out.push(10u8);
    assert(out@ =~= o + score_line(decl.spec_bytes(), s));
}

/// Appends a line of the source of a table of scores; see `array_line`.
fn push_array_line(out: &mut Vec<u8>, decl: &str, arr: &[Score])
    ensures
        final(out)@ == old(out)@ + array_line(decl.spec_bytes(), arr@),
{
    let ghost o = out@;
    push_text(out, decl);
    push_score_array(out, arr);
    out.push(59u8);
    out.push(10u8);
    assert(out@ =~= o + array_line(decl.spec_bytes(), arr@));
}

/// Appends the line `#[rustfmt::skip]`; see `skip_line`.
fn push_skip_line(out: &mut Vec<u8>)
    ensures
        final(out)@ == old(out)@ + skip_line(),
{
    let ghost o = out@;
    let bytes: [u8; 17] = [35, 91, 114, 117, 115, 116, 102, 109, 116, 58, 58, 115, 107, 105, 112, 93, 10];
    let mut i: usize = 0;
    while i < 17
        invariant
            i <= 17,
            bytes@ == skip_line(),
            out@ == o + bytes@.subrange(0, i as int),
        decreases 17 - i,
    {
        out.push(bytes[i]);
        i = i + 1;
        assert(out@ =~= o + bytes@.subrange(0, i as int));
    }
    assert(bytes@.subrange(0, 17) =~= bytes@);
}

/// The opening lines of a report: a rule, the loss, the packed values and a rule.
pub open spec fn report_header(label: Seq<u8>, loss: Seq<u8>, theta: Seq<i32>) -> Seq<u8> {
    "==================================================\n".spec_bytes()
        + label
        + "_loss = ".spec_bytes()
        + loss
        + seq![10u8]
        + label
        + "_theta = ".spec_bytes()
        + ints_text(theta)
        + seq![10u8]
        + "--------------------------------------------------\n".spec_bytes()
}

fn push_report_header(out: &mut Vec<u8>, label: &str, loss_text: &str, theta: &[i32])
    ensures
        final(out)@ == old(out)@ + report_header(label.spec_bytes(), loss_text.spec_bytes(), theta@),
{
    let ghost o = out@;
    push_text(out, "==================================================\n");
    push_text(out, label);
    push_text(out, "_loss = ");
    push_text(out, loss_text);
    out.push(10u8);
    push_text(out, label);
    push_text(out, "_theta = ");
    push_ints(out, theta);
    out.push(10u8);
    push_text(out, "--------------------------------------------------\n");
    assert(out@ =~= o + report_header(label.spec_bytes(), loss_text.spec_bytes(), theta@));
}

/// The source of the tables from `PIECE_VALUES` to the next blank line.
pub open spec fn piece_values_text(p: Params) -> Seq<u8> {
    array_line("pub const PIECE_VALUES: [Score; 5] = ".spec_bytes(), seq![p.pawn_value, p.knight_value, p.bishop_value, p.rook_value, p.queen_value])
        + seq![10u8]
}

fn push_piece_values_text(out: &mut Vec<u8>, params: &Params)
    ensures
        final(out)@ == old(out)@ + piece_values_text(*params),
{
    let ghost o = out@;
    let values: [Score; 5] = [params.pawn_value, params.knight_value, params.bishop_value, params.rook_value, params.queen_value];
    push_array_line(out, "pub const PIECE_VALUES: [Score; 5] = ", &values);
    out.push(10u8);
    assert(out@ =~= o + piece_values_text(*params));
}

/// The source of the tables from `DOUBLED_PAWNS` to the next blank line.
pub open spec fn doubled_pawns_text(p: Params) -> Seq<u8> {
    score_line("pub const DOUBLED_PAWNS: Score = ".spec_bytes(), p.doubled_pawns)
        + score_line("pub const TRIPLED_PAWNS: Score = ".spec_bytes(), p.tripled_pawns)
        + score_line("pub const QUADRUPLED_PAWNS: Score = ".spec_bytes(), p.quadrupled_pawns)
        + seq![10u8]
}

fn push_doubled_pawns_text(out: &mut Vec<u8>, params: &Params)
    ensures
        final(out)@ == old(out)@ + doubled_pawns_text(*params),
{
    let ghost o = out@;
    push_score_line(out, "pub const DOUBLED_PAWNS: Score = ", params.doubled_pawns);
    push_score_line(out, "pub const TRIPLED_PAWNS: Score = ", params.tripled_pawns);
    push_score_line(out, "pub const QUADRUPLED_PAWNS: Score = ", params.quadrupled_pawns);
    out.push(10u8);
    assert(out@ =~= o + doubled_pawns_text(*params));
}

/// The source of the tables from `ISOLATED_PAWN` to the next blank line.
pub open spec fn isolated_pawn_text(p: Params) -> Seq<u8> {
    array_line("pub const ISOLATED_PAWN: [Score; 4] = ".spec_bytes(), p.isolated_pawn@)
        + array_line("pub const BACKWARD_PAWN: [Score; 4] = ".spec_bytes(), p.backward_pawn@)
        + score_line("pub const WEAK_UNOPPOSED: Score = ".spec_bytes(), p.weak_unopposed)
        + array_line("pub const CANDIDATE_PASSER: [Score; 6] = ".spec_bytes(), p.candidate_passer@)
        + array_line("pub const CONNECTED_BONUS: [Score; 6] = ".spec_bytes(), p.connected_bonus@)
        + array_line("pub const SUPPORTED_BONUS: [Score; 3] = ".spec_bytes(), p.supported_bonus@)
        + array_line("pub const PASSED_PAWN: [Score; 6] = ".spec_bytes(), p.passed_pawn@)
        + seq![10u8]
}

fn push_isolated_pawn_text(out: &mut Vec<u8>, params: &Params)
    ensures
        final(out)@ == old(out)@ + isolated_pawn_text(*params),
{
    let ghost o = out@;
    push_array_line(out, "pub const ISOLATED_PAWN: [Score; 4] = ", &params.isolated_pawn);
    push_array_line(out, "pub const BACKWARD_PAWN: [Score; 4] = ", &params.backward_pawn);
    push_score_line(out, "pub const WEAK_UNOPPOSED: Score = ", params.weak_unopposed);
    push_array_line(out, "pub const CANDIDATE_PASSER: [Score; 6] = ", &params.candidate_passer);
    push_array_line(out, "pub const CONNECTED_BONUS: [Score; 6] = ", &params.connected_bonus);
    push_array_line(out, "pub const SUPPORTED_BONUS: [Score; 3] = ", &params.supported_bonus);
    push_array_line(out, "pub const PASSED_PAWN: [Score; 6] = ", &params.passed_pawn);
    out.push(10u8);
    assert(out@ =~= o + isolated_pawn_text(*params));
}

/// The source of the tables from `KNIGHT_OUTPOST` to the next blank line.
pub open spec fn knight_outpost_text(p: Params) -> Seq<u8> {
    score_line("pub const KNIGHT_OUTPOST: Score = ".spec_bytes(), p.knight_outpost)
        + score_line("pub const DEFENDED_KNIGHT_OUTPOST: Score = ".spec_bytes(), p.defended_knight_outpost)
        + seq![10u8]
}

fn push_knight_outpost_text(out: &mut Vec<u8>, params: &Params)
    ensures
        final(out)@ == old(out)@ + knight_outpost_text(*params),
{
    let ghost o = out@;
    push_score_line(out, "pub const KNIGHT_OUTPOST: Score = ", params.knight_outpost);
    push_score_line(out, "pub const DEFENDED_KNIGHT_OUTPOST: Score = ", params.defended_knight_outpost);
    out.push(10u8);
    assert(out@ =~= o + knight_outpost_text(*params));
}

/// The source of the tables from `BISHOP_PAIR` to the next blank line.
pub open spec fn bishop_pair_text(p: Params) -> Seq<u8> {
    score_line("pub const BISHOP_PAIR: Score = ".spec_bytes(), p.bishop_pair)
        + array_line("pub const BISHOP_SAME_COLOUR_PAWNS: [Score; 9] = ".spec_bytes(), p.bishop_same_colour_pawns@)
        + score_line("pub const FIANCHETTO: Score = ".spec_bytes(), p.fianchetto)
        + seq![10u8]
}

fn push_bishop_pair_text(out: &mut Vec<u8>, params: &Params)
    ensures
        final(out)@ == old(out)@ + bishop_pair_text(*params),
{
    let ghost o = out@;
    push_score_line(out, "pub const BISHOP_PAIR: Score = ", params.bishop_pair);
    push_array_line(out, "pub const BISHOP_SAME_COLOUR_PAWNS: [Score; 9] = ", &params.bishop_same_colour_pawns);
    push_score_line(out, "pub const FIANCHETTO: Score = ", params.fianchetto);
    out.push(10u8);
    assert(out@ =~= o + bishop_pair_text(*params));
}

/// The source of the tables from `ROOK_OPEN_FILE` to the next blank line.
pub open spec fn rook_open_file_text(p: Params) -> Seq<u8> {
    score_line("pub const ROOK_OPEN_FILE: Score = ".spec_bytes(), p.rook_open_file)
        + score_line("pub const ROOK_SEMI_OPEN_FILE: Score = ".spec_bytes(), p.rook_semi_open_file)
        + seq![10u8]
}

fn push_rook_open_file_text(out: &mut Vec<u8>, params: &Params)
    ensures
        final(out)@ == old(out)@ + rook_open_file_text(*params),
{
    let ghost o = out@;
    push_score_line(out, "pub const ROOK_OPEN_FILE: Score = ", params.rook_open_file);
    push_score_line(out, "pub const ROOK_SEMI_OPEN_FILE: Score = ", params.rook_semi_open_file);
    out.push(10u8);
    assert(out@ =~= o + rook_open_file_text(*params));
}

/// The source of the tables from `QUEEN_UNDEVELOPED_PIECE_PUNISHMENT` to the next blank line.
pub open spec fn queen_undeveloped_piece_punishment_text(p: Params) -> Seq<u8> {
    score_line("pub const QUEEN_UNDEVELOPED_PIECE_PUNISHMENT: Score = ".spec_bytes(), p.queen_undeveloped_piece_punishment)
        + score_line("pub const QUEEN_UNMOVED_KING_PUNISHMENT: Score = ".spec_bytes(), p.queen_unmoved_king_punishment)
        + score_line("pub const PAWN_THREAT_MINOR: Score = ".spec_bytes(), p.pawn_threat_minor)
        + score_line("pub const PAWN_THREAT_MAJOR: Score = ".spec_bytes(), p.pawn_threat_major)
        + score_line("pub const HANGING_MINOR: Score = ".spec_bytes(), p.hanging_minor)
        + score_line("pub const HANGING_ROOK: Score = ".spec_bytes(), p.hanging_rook)
        + score_line("pub const HANGING_QUEEN: Score = ".spec_bytes(), p.hanging_queen)
        + score_line("pub const MINOR_THREAT_QUEEN: Score = ".spec_bytes(), p.minor_threat_queen)
        + score_line("pub const ROOK_THREAT_QUEEN: Score = ".spec_bytes(), p.rook_threat_queen)
        + seq![10u8]
}

fn push_queen_undeveloped_piece_punishment_text(out: &mut Vec<u8>, params: &Params)
    ensures
        final(out)@ == old(out)@ + queen_undeveloped_piece_punishment_text(*params),
{
    let ghost o = out@;
    push_score_line(out, "pub const QUEEN_UNDEVELOPED_PIECE_PUNISHMENT: Score = ", params.queen_undeveloped_piece_punishment);
    push_score_line(out, "pub const QUEEN_UNMOVED_KING_PUNISHMENT: Score = ", params.queen_unmoved_king_punishment);
    push_score_line(out, "pub const PAWN_THREAT_MINOR: Score = ", params.pawn_threat_minor);
    push_score_line(out, "pub const PAWN_THREAT_MAJOR: Score = ", params.pawn_threat_major);
    push_score_line(out, "pub const HANGING_MINOR: Score = ", params.hanging_minor);
    push_score_line(out, "pub const HANGING_ROOK: Score = ", params.hanging_rook);
    push_score_line(out, "pub const HANGING_QUEEN: Score = ", params.hanging_queen);
    push_score_line(out, "pub const MINOR_THREAT_QUEEN: Score = ", params.minor_threat_queen);
    push_score_line(out, "pub const ROOK_THREAT_QUEEN: Score = ", params.rook_threat_queen);
    out.push(10u8);
    assert(out@ =~= o + queen_undeveloped_piece_punishment_text(*params));
}

/// The source of the tables from `KING_ON_SEMI_OPEN_FILE` to the next blank line.
pub open spec fn king_on_semi_open_file_text(p: Params) -> Seq<u8> {
    score_line("pub const KING_ON_SEMI_OPEN_FILE: Score = ".spec_bytes(), p.king_on_semi_open_file)
        + score_line("pub const KING_ON_OPEN_FILE: Score = ".spec_bytes(), p.king_on_open_file)
        + array_line("pub const KING_PAWN_SHIELD_DISTANCE: [Score; 4] = ".spec_bytes(), p.king_pawn_shield_distance@)
        + score_line("pub const KING_SHIELD_MISSING_PAWN: Score = ".spec_bytes(), p.king_shield_missing_pawn)
        + array_line("pub const ENEMY_PAWN_DISTANCE_FROM_BACKRANK: [Score; 4] = ".spec_bytes(), p.enemy_pawn_distance_from_backrank@)
        + seq![10u8]
}

fn push_king_on_semi_open_file_text(out: &mut Vec<u8>, params: &Params)
    ensures
        final(out)@ == old(out)@ + king_on_semi_open_file_text(*params),
{
    let ghost o = out@;
    push_score_line(out, "pub const KING_ON_SEMI_OPEN_FILE: Score = ", params.king_on_semi_open_file);
    push_score_line(out, "pub const KING_ON_OPEN_FILE: Score = ", params.king_on_open_file);
    push_array_line(out, "pub const KING_PAWN_SHIELD_DISTANCE: [Score; 4] = ", &params.king_pawn_shield_distance);
    push_score_line(out, "pub const KING_SHIELD_MISSING_PAWN: Score = ", params.king_shield_missing_pawn);
    push_array_line(out, "pub const ENEMY_PAWN_DISTANCE_FROM_BACKRANK: [Score; 4] = ", &params.enemy_pawn_distance_from_backrank);
    out.push(10u8);
    assert(out@ =~= o + king_on_semi_open_file_text(*params));
}

/// The source of the tables from `KING_RING_PAWN_WEIGHT` to the next blank line.
pub open spec fn king_ring_pawn_weight_text(p: Params) -> Seq<u8> {
    score_line("pub const KING_RING_PAWN_WEIGHT: Score = ".spec_bytes(), p.king_ring_pawn_weight)
        + score_line("pub const KING_RING_KNIGHT_WEIGHT: Score = ".spec_bytes(), p.king_ring_knight_weight)
        + score_line("pub const KING_RING_BISHOP_WEIGHT: Score = ".spec_bytes(), p.king_ring_bishop_weight)
        + score_line("pub const KING_RING_ROOK_WEIGHT: Score = ".spec_bytes(), p.king_ring_rook_weight)
        + score_line("pub const KING_RING_QUEEN_WEIGHT: Score = ".spec_bytes(), p.king_ring_queen_weight)
        + array_line("pub const KING_RING_ATTACKS: [Score; 24] = ".spec_bytes(), p.king_ring_attacks@)
        + seq![10u8]
}

fn push_king_ring_pawn_weight_text(out: &mut Vec<u8>, params: &Params)
    ensures
        final(out)@ == old(out)@ + king_ring_pawn_weight_text(*params),
{
    let ghost o = out@;
    push_score_line(out, "pub const KING_RING_PAWN_WEIGHT: Score = ", params.king_ring_pawn_weight);
    push_score_line(out, "pub const KING_RING_KNIGHT_WEIGHT: Score = ", params.king_ring_knight_weight);
    push_score_line(out, "pub const KING_RING_BISHOP_WEIGHT: Score = ", params.king_ring_bishop_weight);
    push_score_line(out, "pub const KING_RING_ROOK_WEIGHT: Score = ", params.king_ring_rook_weight);
    push_score_line(out, "pub const KING_RING_QUEEN_WEIGHT: Score = ", params.king_ring_queen_weight);
    push_array_line(out, "pub const KING_RING_ATTACKS: [Score; 24] = ", &params.king_ring_attacks);
    out.push(10u8);
    assert(out@ =~= o + king_ring_pawn_weight_text(*params));
}

/// A comment line and the source of the tables from `KNIGHT_ADJ` to the next blank line.
pub open spec fn knight_adj_text(p: Params) -> Seq<u8> {
    "// Adjustment values based on the number of pawns left\n".spec_bytes()
        + array_line("pub const KNIGHT_ADJ: [Score; 9] = ".spec_bytes(), p.knight_adj@)
        + array_line("pub const ROOK_ADJ: [Score; 9] = ".spec_bytes(), p.rook_adj@)
        + seq![10u8]
}

fn push_knight_adj_text(out: &mut Vec<u8>, params: &Params)
    ensures
        final(out)@ == old(out)@ + knight_adj_text(*params),
{
    let ghost o = out@;
    push_text(out, "// Adjustment values based on the number of pawns left\n");
    push_array_line(out, "pub const KNIGHT_ADJ: [Score; 9] = ", &params.knight_adj);
    push_array_line(out, "pub const ROOK_ADJ: [Score; 9] = ", &params.rook_adj);
    out.push(10u8);
    assert(out@ =~= o + knight_adj_text(*params));
}

/// A comment line and the source of the tables from `KNIGHT_MOBILITY` to the next blank line.
pub open spec fn knight_mobility_text(p: Params) -> Seq<u8> {
    "// Mobility scores based on the number of moves available to a piece\n".spec_bytes()
        + array_line("pub const KNIGHT_MOBILITY: [Score; 9] = ".spec_bytes(), p.knight_mobility@)
        + array_line("pub const BISHOP_MOBILITY: [Score; 14] = ".spec_bytes(), p.bishop_mobility@)
        + array_line("pub const ROOK_MOBILITY: [Score; 15] = ".spec_bytes(), p.rook_mobility@)
        + array_line("pub const QUEEN_MOBILITY: [Score; 28] = ".spec_bytes(), p.queen_mobility@)
        + seq![10u8]
}

fn push_knight_mobility_text(out: &mut Vec<u8>, params: &Params)
    ensures
        final(out)@ == old(out)@ + knight_mobility_text(*params),
{
    let ghost o = out@;
    push_text(out, "// Mobility scores based on the number of moves available to a piece\n");
    push_array_line(out, "pub const KNIGHT_MOBILITY: [Score; 9] = ", &params.knight_mobility);
    push_array_line(out, "pub const BISHOP_MOBILITY: [Score; 14] = ", &params.bishop_mobility);
    push_array_line(out, "pub const ROOK_MOBILITY: [Score; 15] = ", &params.rook_mobility);
    push_array_line(out, "pub const QUEEN_MOBILITY: [Score; 28] = ", &params.queen_mobility);
    out.push(10u8);
    assert(out@ =~= o + knight_mobility_text(*params));
}

/// A comment line and the source of the table `PAWN_PST`.
pub open spec fn pawn_pst_text(p: Params) -> Seq<u8> {
    "// Piece square tables\n".spec_bytes()
        + skip_line()
        + "pub const PAWN_PST: PST = [\n".spec_bytes()
        + pst_rows(p.pawn_pst@, 8)
        + "];\n".spec_bytes()
}

fn push_pawn_pst_text(out: &mut Vec<u8>, params: &Params)
    ensures
        final(out)@ == old(out)@ + pawn_pst_text(*params),
{
    let ghost o = out@;
    push_text(out, "// Piece square tables\n");
    push_skip_line(out);
    push_text(out, "pub const PAWN_PST: PST = [\n");
    push_pst_rows(out, &params.pawn_pst);
    push_text(out, "];\n");
    assert(out@ =~= o + pawn_pst_text(*params));
}

/// The source of the table `KNIGHT_PST`.
pub open spec fn knight_pst_text(p: Params) -> Seq<u8> {
    skip_line()
        + "pub const KNIGHT_PST: PST = [\n".spec_bytes()
        + pst_rows(p.knight_pst@, 8)
        + "];\n".spec_bytes()
}

fn push_knight_pst_text(out: &mut Vec<u8>, params: &Params)
    ensures
        final(out)@ == old(out)@ + knight_pst_text(*params),
{
    let ghost o = out@;
    push_skip_line(out);
    push_text(out, "pub const KNIGHT_PST: PST = [\n");
    push_pst_rows(out, &params.knight_pst);
    push_text(out, "];\n");
    assert(out@ =~= o + knight_pst_text(*params));
}

/// The source of the table `BISHOP_PST`.
pub open spec fn bishop_pst_text(p: Params) -> Seq<u8> {
    skip_line()
        + "pub const BISHOP_PST: PST = [\n".spec_bytes()
        + pst_rows(p.bishop_pst@, 8)
        + "];\n".spec_bytes()
}

fn push_bishop_pst_text(out: &mut Vec<u8>, params: &Params)
    ensures
        final(out)@ == old(out)@ + bishop_pst_text(*params),
{
    let ghost o = out@;
    push_skip_line(out);
    push_text(out, "pub const BISHOP_PST: PST = [\n");
    push_pst_rows(out, &params.bishop_pst);
    push_text(out, "];\n");
    assert(out@ =~= o + bishop_pst_text(*params));
}

/// The source of the table `ROOK_PST`.
pub open spec fn rook_pst_text(p: Params) -> Seq<u8> {
    skip_line()
        + "pub const ROOK_PST: PST = [\n".spec_bytes()
        + pst_rows(p.rook_pst@, 8)
        + "];\n".spec_bytes()
}

fn push_rook_pst_text(out: &mut Vec<u8>, params: &Params)
    ensures
        final(out)@ == old(out)@ + rook_pst_text(*params),
{
    let ghost o = out@;
    push_skip_line(out);
    push_text(out, "pub const ROOK_PST: PST = [\n");
    push_pst_rows(out, &params.rook_pst);
    push_text(out, "];\n");
    assert(out@ =~= o + rook_pst_text(*params));
}

/// The source of the table `QUEEN_PST`.
pub open spec fn queen_pst_text(p: Params) -> Seq<u8> {
    skip_line()
        + "pub const QUEEN_PST: PST = [\n".spec_bytes()
        + pst_rows(p.queen_pst@, 8)
        + "];\n".spec_bytes()
}

fn push_queen_pst_text(out: &mut Vec<u8>, params: &Params)
    ensures
        final(out)@ == old(out)@ + queen_pst_text(*params),
{
    let ghost o = out@;
    push_skip_line(out);
    push_text(out, "pub const QUEEN_PST: PST = [\n");
    push_pst_rows(out, &params.queen_pst);
    push_text(out, "];\n");
    assert(out@ =~= o + queen_pst_text(*params));
}

/// The source of the table `KING_PST`.
pub open spec fn king_pst_text(p: Params) -> Seq<u8> {
    skip_line()
        + "pub const KING_PST: PST = [\n".spec_bytes()
        + pst_rows(p.king_pst@, 8)
        + "];\n".spec_bytes()
}

fn push_king_pst_text(out: &mut Vec<u8>, params: &Params)
    ensures
        final(out)@ == old(out)@ + king_pst_text(*params),
{
    let ghost o = out@;
    push_skip_line(out);
    push_text(out, "pub const KING_PST: PST = [\n");
    push_pst_rows(out, &params.king_pst);
    push_text(out, "];\n");
    assert(out@ =~= o + king_pst_text(*params));
}

/// The text that reports a set of full weights: a rule, the loss line, the packed values, a
/// rule, then each table as the source of the weights writes it.
pub open spec fn full_params_text(label: Seq<u8>, loss: Seq<u8>, theta: Seq<i32>, p: Params) -> Seq<u8> {
    report_header(label, loss, theta)
        + piece_values_text(p)
        + doubled_pawns_text(p)
        + isolated_pawn_text(p)
        + knight_outpost_text(p)
        + bishop_pair_text(p)
        + rook_open_file_text(p)
        + queen_undeveloped_piece_punishment_text(p)
        + king_on_semi_open_file_text(p)
        + king_ring_pawn_weight_text(p)
        + knight_adj_text(p)
        + knight_mobility_text(p)
        + pawn_pst_text(p)
        + knight_pst_text(p)
        + bishop_pst_text(p)
        + rook_pst_text(p)
        + queen_pst_text(p)
        + king_pst_text(p)
}

/// Writes the text that reports the full weights packed in `theta` (see `full_params_text`),
/// labelled `label`, with the loss already written as `loss_text`.
pub fn render_full_params(label: &str, theta: &[i32], loss_text: &str) -> (r: Vec<u8>)
    requires
        theta@.len() == 1118,
    ensures
        exists|p: Params|
            unpacked_full(theta@, p) && r@ == full_params_text(
                label.spec_bytes(),
                loss_text.spec_bytes(),
                theta@,
                p,
            ),
{
    let params = FullTuningConfig::unpack(theta);
    let mut out: Vec<u8> = Vec::new();
    let ghost o = out@;
    push_report_header(&mut out, label, loss_text, theta);
    push_piece_values_text(&mut out, &params);
    push_doubled_pawns_text(&mut out, &params);
    push_isolated_pawn_text(&mut out, &params);
    push_knight_outpost_text(&mut out, &params);
    push_bishop_pair_text(&mut out, &params);
    push_rook_open_file_text(&mut out, &params);
    push_queen_undeveloped_piece_punishment_text(&mut out, &params);
    push_king_on_semi_open_file_text(&mut out, &params);
    push_king_ring_pawn_weight_text(&mut out, &params);
    push_knight_adj_text(&mut out, &params);
    push_knight_mobility_text(&mut out, &params);
    push_pawn_pst_text(&mut out, &params);
    push_knight_pst_text(&mut out, &params);
    push_bishop_pst_text(&mut out, &params);
    push_rook_pst_text(&mut out, &params);
    push_queen_pst_text(&mut out, &params);
    push_king_pst_text(&mut out, &params);
    assert(out@ =~= full_params_text(label.spec_bytes(), loss_text.spec_bytes(), theta@, params));
    out
}


/// The source of a piece-square table: the line that keeps a formatter off it, its
/// declaration, its eight rows, and the closing bracket.
pub open spec fn pst_block(decl: Seq<u8>, pst: Seq<Score>) -> Seq<u8> {
    skip_line() + decl + pst_rows(pst, 8) + seq![93u8, 59u8, 10u8]
}

/// Appends the source of a piece-square table; see `pst_block`.
fn push_pst_block(out: &mut Vec<u8>, decl: &str, pst: &[Score; 64])
    ensures
        final(out)@ == old(out)@ + pst_block(decl.spec_bytes(), pst@),
{
    let ghost o = out@;
    push_skip_line(out);
    push_text(out, decl);
    push_pst_rows(out, pst);
    out.push(93u8);
    out.push(59u8);
    out.push(10u8);
    assert(out@ =~= o + pst_block(decl.spec_bytes(), pst@));
}

/// The lazy tables after the opening lines: the piece values, a blank line, and the six
/// piece-square tables under a comment.
pub open spec fn lazy_tables_text(p: LazyParams) -> Seq<u8> {
    array_line(
        "pub const LAZY_PIECE_VALUES: [Score; 5] = ".spec_bytes(),
        seq![p.pawn_value, p.knight_value, p.bishop_value, p.rook_value, p.queen_value],
    ) + seq![10u8] + "// Lazy PSTs\n".spec_bytes()
        + pst_block("pub const LAZY_PAWN_PST: PST = [\n".spec_bytes(), p.pawn_pst@)
        + pst_block("pub const LAZY_KNIGHT_PST: PST = [\n".spec_bytes(), p.knight_pst@)
        + pst_block("pub const LAZY_BISHOP_PST: PST = [\n".spec_bytes(), p.bishop_pst@)
        + pst_block("pub const LAZY_ROOK_PST: PST = [\n".spec_bytes(), p.rook_pst@)
        + pst_block("pub const LAZY_QUEEN_PST: PST = [\n".spec_bytes(), p.queen_pst@)
        + pst_block("pub const LAZY_KING_PST: PST = [\n".spec_bytes(), p.king_pst@)
}

fn push_lazy_tables(out: &mut Vec<u8>, params: &LazyParams)
    ensures
        final(out)@ == old(out)@ + lazy_tables_text(*params),
{
    let ghost o = out@;
    let values: [Score; 5] = [
        params.pawn_value,
        params.knight_value,
        params.bishop_value,
        params.rook_value,
        params.queen_value,
    ];
    push_array_line(out, "pub const LAZY_PIECE_VALUES: [Score; 5] = ", &values);
    out.push(10u8);
    push_text(out, "// Lazy PSTs\n");
    push_pst_block(out, "pub const LAZY_PAWN_PST: PST = [\n", &params.pawn_pst);
    push_pst_block(out, "pub const LAZY_KNIGHT_PST: PST = [\n", &params.knight_pst);
    push_pst_block(out, "pub const LAZY_BISHOP_PST: PST = [\n", &params.bishop_pst);
    push_pst_block(out, "pub const LAZY_ROOK_PST: PST = [\n", &params.rook_pst);
    push_pst_block(out, "pub const LAZY_QUEEN_PST: PST = [\n", &params.queen_pst);
    push_pst_block(out, "pub const LAZY_KING_PST: PST = [\n", &params.king_pst);
    assert(values@ =~= seq![params.pawn_value, params.knight_value, params.bishop_value, params.rook_value, params.queen_value]);
    assert(out@ =~= o + lazy_tables_text(*params));
}

/// The text that reports a set of lazy weights: the opening lines (see `report_header`), then
/// the lazy tables (see `lazy_tables_text`).
pub open spec fn lazy_params_text(label: Seq<u8>, loss: Seq<u8>, theta: Seq<i32>, p: LazyParams) -> Seq<u8> {
    report_header(label, loss, theta) + lazy_tables_text(p)
}

/// Writes the text that reports the lazy weights packed in `theta` (see `lazy_params_text`),
/// labelled `label`, with the loss already written as `loss_text`.
pub fn render_lazy_params(label: &str, theta: &[i32], loss_text: &str) -> (r: Vec<u8>)
    requires
        theta@.len() == 746,
    ensures
        exists|p: LazyParams|
            unpacked_lazy(theta@, p) && r@ == lazy_params_text(
                label.spec_bytes(),
                loss_text.spec_bytes(),
                theta@,
                p,
            ),
{
    let params = LazyTuningConfig::unpack(theta);
    let mut out: Vec<u8> = Vec::new();
    push_report_header(&mut out, label, loss_text, theta);
    push_lazy_tables(&mut out, &params);
    assert(out@ =~= lazy_params_text(label.spec_bytes(), loss_text.spec_bytes(), theta@, params));
    out
}

} // verus!
