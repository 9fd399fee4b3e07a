//! The full evaluation: pawn structure, piece activity, king safety and threats.
use vstd::prelude::*;

use vstd::std_specs::bits::u64_trailing_zeros;

use crate::bitboard::{
    bishop_attacks_spec, bit_set, dest_bits, knight_attacks_spec, king_attacks_spec, north_fill_spec,
    pawn_attacks_spec, popcount, ray_spec, rook_attacks_spec, shift_spec, south_fill_spec, Bitboard,
    Bitboards,
};
use crate::evaluate::{game_phase, phase_spec, relative_sq, taper, taper_spec, Eval, Score};
use crate::params::types::Params;
use crate::position::{lemma_clear_lowest_lt, Position};
use crate::types::{file_of, rank_of, Colour, Direction, Piece, Square, FILE_A, FILE_H, RANK_1, RANK_8};

verus! {

/// Plain facts of set algebra on bitboards.
pub proof fn lemma_bit_algebra(x: u64, y: u64, z: u64)
    by (bit_vector)
    ensures
        x & x == x,
        0u64 | x == x,
        x | 0u64 == x,
        x & 0u64 == 0,
        0u64 & x == 0,
        (x | y) | z == x | (y | z),
        (x & y) & z == x & (y & z),
        (x & y) & z == (x & z) & y,
        (x | y) & z == (x & z) | (y & z),
{
}

/// Halving a union or an intersection halves its parts.
proof fn lemma_halves(a: u64, b: u64)
    by (bit_vector)
    ensures
        (a | b) / 2 == (a / 2) | (b / 2),
        (a | b) % 2 <= a % 2 + b % 2,
        (a & b) / 2 == (a / 2) & (b / 2),
        (a & b) % 2 <= a % 2,
        (a & b) % 2 <= b % 2,
        a != 0 ==> a | b != 0,
{
}

/// Halving a one-square set moves its square down by one.
proof fn lemma_one_halves(t: u64)
    by (bit_vector)
    requires
        t < 64,
    ensures
        1u64 << 0u64 == 1,
        t > 0 ==> (1u64 << t) / 2 == 1u64 << ((t - 1) as u64) && (1u64 << t) % 2 == 0 && (1u64
            << t) != 0,
{
}

/// Clearing the lowest square of a part of `y` leaves a part of `y`.
proof fn lemma_subset_step(x: u64, y: u64)
    by (bit_vector)
    requires
        x & y == x,
    ensures
        (x & ((x - 1) as u64)) & y == x & ((x - 1) as u64),
        (x & ((x - 1) as u64)) & x == x & ((x - 1) as u64),
{
}

/// A square of a part of `y` is a square of `y`.
proof fn lemma_subset_has(x: u64, y: u64, t: u64)
    by (bit_vector)
    ensures
        (x & y == x && (x >> t) & 1u64 == 1u64) ==> (y >> t) & 1u64 == 1u64,
{
}

/// A set and another together have at most the squares of both.
pub proof fn lemma_popcount_or(a: u64, b: u64)
    ensures
        popcount(a | b) <= popcount(a) + popcount(b),
    decreases a,
{
    lemma_bit_algebra(b, a, a);
    if a == 0 {
    } else {
        lemma_halves(a, b);
        lemma_popcount_or(a / 2, b / 2);
        if b == 0 {
        }
    }
}

/// A part of a set has at most its squares.
pub proof fn lemma_popcount_and(a: u64, b: u64)
    ensures
        popcount(a & b) <= popcount(a),
        popcount(a & b) <= popcount(b),
    decreases a,
{
    lemma_bit_algebra(a, b, b);
    lemma_bit_algebra(b, a, a);
    if a != 0 {
        lemma_halves(a, b);
        lemma_popcount_and(a / 2, b / 2);
    }
}

/// A one-square set has one square.
pub proof fn lemma_popcount_bit(t: u64)
    requires
        t < 64,
    ensures
        popcount(1u64 << t) == 1,
    decreases t,
{
    lemma_one_halves(t);
    if t == 0 {
        assert(popcount(0) == 0);
        assert(popcount(1) == 1);
    } else {
        lemma_popcount_bit((t - 1) as u64);
    }
}

proof fn lemma_dest_count(s: int, step: int)
    ensures
        popcount(dest_bits(s, step)) <= 1,
{
    if dest_bits(s, step) != 0 {
        lemma_popcount_bit((s + step) as u64);
    }
}

/// A knight attacks at most eight squares.
pub proof fn lemma_knight_count(s: int)
    ensures
        popcount(knight_attacks_spec(s)) <= 8,
{
    let d = |k: int| dest_bits(s, k);
    lemma_dest_count(s, -17);
    lemma_dest_count(s, -15);
    lemma_dest_count(s, -10);
    lemma_dest_count(s, -6);
    lemma_dest_count(s, 6);
    lemma_dest_count(s, 10);
    lemma_dest_count(s, 15);
    lemma_dest_count(s, 17);
    let a1 = dest_bits(s, -17) | dest_bits(s, -15);
    let a2 = a1 | dest_bits(s, -10);
    let a3 = a2 | dest_bits(s, -6);
    let a4 = a3 | dest_bits(s, 6);
    let a5 = a4 | dest_bits(s, 10);
    let a6 = a5 | dest_bits(s, 15);
    lemma_popcount_or(dest_bits(s, -17), dest_bits(s, -15));
    lemma_popcount_or(a1, dest_bits(s, -10));
    lemma_popcount_or(a2, dest_bits(s, -6));
    lemma_popcount_or(a3, dest_bits(s, 6));
    lemma_popcount_or(a4, dest_bits(s, 10));
    lemma_popcount_or(a5, dest_bits(s, 15));
    lemma_popcount_or(a6, dest_bits(s, 17));
}

/// How many steps of `step` lead from `s` to the edge of the board.
pub open spec fn edge_steps(s: int, step: int) -> int {
    let f = file_of(s);
    let r = rank_of(s);
    let up = 7 - r;
    let right = 7 - f;
    if step == 9 {
        if up < right { up } else { right }
    } else if step == 7 {
        if up < f { up } else { f }
    } else if step == -7 {
        if r < right { r } else { right }
    } else if step == -9 {
        if r < f { r } else { f }
    } else if step == 8 {
        up
    } else if step == -8 {
        r
    } else if step == 1 {
        right
    } else {
        f
    }
}

/// Slider steps: the four straight and four diagonal directions.
pub open spec fn slider_step(step: int) -> bool {
    step == 9 || step == 7 || step == -7 || step == -9 || step == 8 || step == -8 || step == 1
        || step == -1
}

proof fn lemma_edge_step(s: int, step: int)
    requires
        0 <= s < 64,
        slider_step(step),
    ensures
        edge_steps(s, step) == 0 ==> dest_bits(s, step) == 0,
        dest_bits(s, step) != 0 ==> 0 <= s + step < 64 && edge_steps(s + step, step) == edge_steps(s, step) - 1,
        edge_steps(s, step) >= 0,
{
}

/// A ray from `s` has at most as many squares as steps to the edge.
proof fn lemma_ray_count(s: int, step: int, occ: u64, fuel: nat)
    requires
        0 <= s < 64,
        slider_step(step),
    ensures
        popcount(ray_spec(s, step, occ, fuel)) <= edge_steps(s, step),
    decreases fuel,
{
    lemma_edge_step(s, step);
    if fuel == 0 || dest_bits(s, step) == 0 {
    } else {
        let t = s + step;
        let rest = if crate::bitboard::bit_set(occ, t) {
            0u64
        } else {
            ray_spec(t, step, occ, (fuel - 1) as nat)
        };
        lemma_ray_count(t, step, occ, (fuel - 1) as nat);
        lemma_popcount_bit(t as u64);
        lemma_popcount_or(1u64 << (t as u64), rest);
    }
}

/// A bishop attacks at most thirteen squares.
pub proof fn lemma_bishop_count(s: int, occ: u64)
    requires
        0 <= s < 64,
    ensures
        popcount(bishop_attacks_spec(s, occ)) <= 13,
{
    let a = ray_spec(s, 9, occ, 7);
    let b = ray_spec(s, 7, occ, 7);
    let c = ray_spec(s, -7, occ, 7);
    let d = ray_spec(s, -9, occ, 7);
    lemma_ray_count(s, 9, occ, 7);
    lemma_ray_count(s, 7, occ, 7);
    lemma_ray_count(s, -7, occ, 7);
    lemma_ray_count(s, -9, occ, 7);
    lemma_popcount_or(a, b);
    lemma_popcount_or(a | b, c);
    lemma_popcount_or(a | b | c, d);
}

/// A rook attacks at most fourteen squares.
pub proof fn lemma_rook_count(s: int, occ: u64)
    requires
        0 <= s < 64,
    ensures
        popcount(rook_attacks_spec(s, occ)) <= 14,
{
    let a = ray_spec(s, 8, occ, 7);
    let b = ray_spec(s, -8, occ, 7);
    let c = ray_spec(s, 1, occ, 7);
    let d = ray_spec(s, -1, occ, 7);
    lemma_ray_count(s, 8, occ, 7);
    lemma_ray_count(s, -8, occ, 7);
    lemma_ray_count(s, 1, occ, 7);
    lemma_ray_count(s, -1, occ, 7);
    lemma_popcount_or(a, b);
    lemma_popcount_or(a | b, c);
    lemma_popcount_or(a | b | c, d);
}

// ---------------------------------------------------------------------------------------------
// Sums over the squares of a set, lowest square first.

/// The sum of `f` over the squares of `bb`.
pub open spec fn sum_over(bb: u64, f: spec_fn(int) -> (int, int)) -> (int, int)
    decreases bb,
{
    if bb == 0 {
        (0, 0)
    } else {
        proof {
            lemma_clear_lowest_lt(bb);
        }
        let r = sum_over(bb & ((bb - 1) as u64), f);
        let e = f(u64_trailing_zeros(bb) as int);
        (r.0 + e.0, r.1 + e.1)
    }
}

/// The union of `f` over the squares of `bb`.
pub open spec fn union_over(bb: u64, f: spec_fn(int) -> u64) -> u64
    decreases bb,
{
    if bb == 0 {
        0
    } else {
        proof {
            lemma_clear_lowest_lt(bb);
        }
        f(u64_trailing_zeros(bb) as int) | union_over(bb & ((bb - 1) as u64), f)
    }
}

/// The sum of the counts `f` over the squares of `bb`.
pub open spec fn count_over(bb: u64, f: spec_fn(int) -> int) -> int
    decreases bb,
{
    if bb == 0 {
        0
    } else {
        proof {
            lemma_clear_lowest_lt(bb);
        }
        f(u64_trailing_zeros(bb) as int) + count_over(bb & ((bb - 1) as u64), f)
    }
}

/// The sum of `f` over the squares of `bb`, each square given together with the squares of
/// `bb` above it.
pub open spec fn sum_after(bb: u64, f: spec_fn(int, u64) -> (int, int)) -> (int, int)
    decreases bb,
{
    if bb == 0 {
        (0, 0)
    } else {
        proof {
            lemma_clear_lowest_lt(bb);
        }
        let rest = bb & ((bb - 1) as u64);
        let r = sum_after(rest, f);
        let e = f(u64_trailing_zeros(bb) as int, rest);
        (r.0 + e.0, r.1 + e.1)
    }
}

/// Both halves of `x` lie within `m` of zero.
pub open spec fn within(x: (int, int), m: int) -> bool {
    -m <= x.0 <= m && -m <= x.1 <= m
}

/// The lowest square of a non-empty set is in it, and the rest of the set is part of it.
proof fn lemma_lowest(bb: u64)
    requires
        bb != 0,
    ensures
        0 <= u64_trailing_zeros(bb) < 64,
        bit_set(bb, u64_trailing_zeros(bb) as int),
        forall|t: int| bit_set(bb & ((bb - 1) as u64), t) ==> #[trigger] bit_set(bb, t),
        popcount(bb & ((bb - 1) as u64)) == popcount(bb) - 1,
        bb & ((bb - 1) as u64) < bb,
{
    vstd::std_specs::bits::axiom_u64_trailing_zeros(bb);
    crate::bitboard::lemma_popcount_clear_lowest(bb);
    lemma_clear_lowest_lt(bb);
    lemma_bit_algebra(bb, bb, bb);
    lemma_subset_step(bb, bb);
    assert forall|t: int| bit_set(bb & ((bb - 1) as u64), t) implies #[trigger] bit_set(bb, t) by {
        lemma_subset_has(bb & ((bb - 1) as u64), bb, t as u64);
    }
}

/// A sum over a set of terms that each lie within `m` lies within `m` per square.
pub proof fn lemma_sum_within(bb: u64, f: spec_fn(int) -> (int, int), m: int)
    requires
        0 <= m,
        forall|s: int| bit_set(bb, s) ==> within(#[trigger] f(s), m),
    ensures
        within(sum_over(bb, f), m * popcount(bb)),
    decreases bb,
{
    if bb != 0 {
        lemma_lowest(bb);
        let rest = bb & ((bb - 1) as u64);
        lemma_sum_within(rest, f, m);
        let n = popcount(rest) as int;
        assert(m * (n + 1) == m * n + m) by (nonlinear_arith);
    }
}

/// `sum_after` over terms that each lie within `m` lies within `m` per square.
pub proof fn lemma_sum_after_within(bb: u64, f: spec_fn(int, u64) -> (int, int), m: int)
    requires
        0 <= m,
        forall|s: int, r: u64| bit_set(bb, s) ==> within(#[trigger] f(s, r), m),
    ensures
        within(sum_after(bb, f), m * popcount(bb)),
    decreases bb,
{
    if bb != 0 {
        lemma_lowest(bb);
        let rest = bb & ((bb - 1) as u64);
        lemma_sum_after_within(rest, f, m);
        let n = popcount(rest) as int;
        assert(m * (n + 1) == m * n + m) by (nonlinear_arith);
    }
}

/// A part `x` of a set `y` whose terms lie within `m` sums within `m` per square.
proof fn lemma_subset_within(x: u64, y: u64, f: spec_fn(int) -> (int, int), m: int)
    requires
        0 <= m,
        x & y == x,
        forall|s: int| bit_set(y, s) ==> within(#[trigger] f(s), m),
    ensures
        within(sum_over(x, f), m * popcount(x)),
{
    assert forall|s: int| bit_set(x, s) implies within(#[trigger] f(s), m) by {
        lemma_subset_has(x, y, s as u64);
        assert(bit_set(y, s));
    }
    lemma_sum_within(x, f, m);
}

/// A part `x` of a set `y` whose counts lie between 0 and `m` counts between 0 and `m` per
/// square.
proof fn lemma_subset_count(x: u64, y: u64, f: spec_fn(int) -> int, m: int)
    requires
        0 <= m,
        x & y == x,
        forall|s: int| bit_set(y, s) ==> 0 <= #[trigger] f(s) <= m,
    ensures
        0 <= count_over(x, f) <= m * popcount(x),
{
    assert forall|s: int| bit_set(x, s) implies 0 <= #[trigger] f(s) <= m by {
        lemma_subset_has(x, y, s as u64);
        assert(bit_set(y, s));
    }
    lemma_count_within(x, f, m);
}

/// A sum of counts that are each between 0 and `m` is between 0 and `m` per square.
pub proof fn lemma_count_within(bb: u64, f: spec_fn(int) -> int, m: int)
    requires
        0 <= m,
        forall|s: int| bit_set(bb, s) ==> 0 <= #[trigger] f(s) <= m,
    ensures
        0 <= count_over(bb, f) <= m * popcount(bb),
    decreases bb,
{
    if bb != 0 {
        lemma_lowest(bb);
        let rest = bb & ((bb - 1) as u64);
        lemma_count_within(rest, f, m);
        let n = popcount(rest) as int;
        assert(m * (n + 1) == m * n + m) by (nonlinear_arith);
    }
}

// ---------------------------------------------------------------------------------------------
// Weights and score arithmetic.

/// A weight between -3000 and 3000 in both phases.
pub open spec fn weight_ok(s: Score) -> bool {
    -3000 <= s.mg <= 3000 && -3000 <= s.eg <= 3000
}

/// Every weight of a table is within bounds.
pub open spec fn weights_ok(t: Seq<Score>) -> bool {
    forall|i: int| 0 <= i < t.len() ==> #[trigger] weight_ok(t[i])
}

/// Every weight of the parameters lies between -3000 and 3000.
pub open spec fn params_ok(p: Params) -> bool {
    &&& weights_ok(p.pawn_pst@)
    &&& weights_ok(p.knight_pst@)
    &&& weights_ok(p.bishop_pst@)
    &&& weights_ok(p.rook_pst@)
    &&& weights_ok(p.queen_pst@)
    &&& weights_ok(p.king_pst@)
    &&& weight_ok(p.pawn_value)
    &&& weight_ok(p.knight_value)
    &&& weight_ok(p.bishop_value)
    &&& weight_ok(p.rook_value)
    &&& weight_ok(p.queen_value)
    &&& weight_ok(p.knight_outpost)
    &&& weight_ok(p.defended_knight_outpost)
    &&& weight_ok(p.bishop_pair)
    &&& weights_ok(p.bishop_same_colour_pawns@)
    &&& weight_ok(p.fianchetto)
    &&& weight_ok(p.bishop_outpost)
    &&& weight_ok(p.defended_bishop_outpost)
    &&& weight_ok(p.rook_open_file)
    &&& weight_ok(p.rook_semi_open_file)
    &&& weight_ok(p.rook_on_seventh)
    &&& weight_ok(p.rook_on_queen_file)
    &&& weight_ok(p.connected_doubled_rooks)
    &&& weight_ok(p.queen_undeveloped_piece_punishment)
    &&& weight_ok(p.queen_unmoved_king_punishment)
    &&& weight_ok(p.pawn_threat_minor)
    &&& weight_ok(p.pawn_threat_major)
    &&& weight_ok(p.hanging_minor)
    &&& weight_ok(p.hanging_rook)
    &&& weight_ok(p.hanging_queen)
    &&& weight_ok(p.minor_threat_queen)
    &&& weight_ok(p.rook_threat_queen)
    &&& weight_ok(p.doubled_pawns)
    &&& weight_ok(p.tripled_pawns)
    &&& weight_ok(p.quadrupled_pawns)
    &&& weights_ok(p.isolated_pawn@)
    &&& weights_ok(p.backward_pawn@)
    &&& weight_ok(p.weak_unopposed)
    &&& weights_ok(p.candidate_passer@)
    &&& weights_ok(p.connected_bonus@)
    &&& weights_ok(p.supported_bonus@)
    &&& weights_ok(p.passed_pawn@)
    &&& weight_ok(p.king_on_open_file)
    &&& weight_ok(p.king_on_semi_open_file)
    &&& weight_ok(p.king_shield_missing_pawn)
    &&& weights_ok(p.king_pawn_shield_distance@)
    &&& weights_ok(p.enemy_pawn_distance_from_backrank@)
    &&& weight_ok(p.king_ring_pawn_weight)
    &&& weight_ok(p.king_ring_knight_weight)
    &&& weight_ok(p.king_ring_bishop_weight)
    &&& weight_ok(p.king_ring_rook_weight)
    &&& weight_ok(p.king_ring_queen_weight)
    &&& weights_ok(p.king_ring_attacks@)
    &&& weights_ok(p.knight_adj@)
    &&& weights_ok(p.rook_adj@)
    &&& weights_ok(p.knight_mobility@)
    &&& weights_ok(p.bishop_mobility@)
    &&& weights_ok(p.rook_mobility@)
    &&& weights_ok(p.queen_mobility@)
}

/// A score as a pair of integers.
pub open spec fn sv(s: Score) -> (int, int) {
    (s.mg as int, s.eg as int)
}

/// The sum of two pairs.
pub open spec fn plus(a: (int, int), b: (int, int)) -> (int, int) {
    (a.0 + b.0, a.1 + b.1)
}

/// A score taken `k` times.
pub open spec fn times(s: Score, k: int) -> (int, int) {
    (s.mg * k, s.eg * k)
}

/// The zero pair.
pub open spec fn nil() -> (int, int) {
    (0, 0)
}

/// The sum of two scores (both within `m`, `m` at most 500 million).
fn sc_add(a: Score, b: Score) -> (r: Score)
    requires
        -1_000_000_000 <= a.mg + b.mg <= 1_000_000_000,
        -1_000_000_000 <= a.eg + b.eg <= 1_000_000_000,
    ensures
        sv(r) == plus(sv(a), sv(b)),
{
    Score { mg: a.mg + b.mg, eg: a.eg + b.eg }
}

/// A weight taken `k` times, for `k` between -64 and 64.
fn sc_times(a: Score, k: i32) -> (r: Score)
    requires
        weight_ok(a),
        -64 <= k <= 64,
    ensures
        sv(r) == times(a, k as int),
        within(sv(r), 192000),
{
    proof {
        assert(-192000 <= a.mg * k <= 192000) by (nonlinear_arith)
            requires
                -3000 <= a.mg <= 3000,
                -64 <= k <= 64,
        ;
        assert(-192000 <= a.eg * k <= 192000) by (nonlinear_arith)
            requires
                -3000 <= a.eg <= 3000,
                -64 <= k <= 64,
        ;
    }
    Score { mg: a.mg * k, eg: a.eg * k }
}

// ---------------------------------------------------------------------------------------------
// Board geometry.

/// The one-square set of `s`.
pub open spec fn bit(s: int) -> u64 {
    1u64 << (s as u64)
}

/// The squares ahead of `x` for colour `c`, `x` included.
pub open spec fn fill_ahead(x: u64, c: Colour) -> u64 {
    if c == Colour::White {
        north_fill_spec(x)
    } else {
        south_fill_spec(x)
    }
}

/// The squares behind `x` for colour `c`, `x` included.
pub open spec fn fill_behind(x: u64, c: Colour) -> u64 {
    if c == Colour::White {
        south_fill_spec(x)
    } else {
        north_fill_spec(x)
    }
}

/// The direction in which pawns of `c` advance.
pub open spec fn forward(c: Colour) -> Direction {
    if c == Colour::White {
        Direction::North
    } else {
        Direction::South
    }
}

/// The direction opposite to `forward(c)`.
pub open spec fn backward(c: Colour) -> Direction {
    if c == Colour::White {
        Direction::South
    } else {
        Direction::North
    }
}

/// The rank of `s` counted from `c`'s own back rank.
pub open spec fn rel_rank(c: Colour, s: int) -> int {
    if c == Colour::White {
        rank_of(s)
    } else {
        7 - rank_of(s)
    }
}

/// The file of `s`.
pub open spec fn file_mask(s: int) -> u64 {
    FILE_A << (file_of(s) as u64)
}

/// The rank of `s`.
pub open spec fn rank_mask(s: int) -> u64 {
    RANK_1 << ((rank_of(s) * 8) as u64)
}

/// The squares attacked twice by the pawns `bb` of colour `c`.
pub open spec fn double_attacks(bb: u64, c: Colour) -> u64 {
    if c == Colour::White {
        shift_spec(bb, Direction::NorthEast) & shift_spec(bb, Direction::NorthWest)
    } else {
        shift_spec(bb, Direction::SouthEast) & shift_spec(bb, Direction::SouthWest)
    }
}

/// The distance of file `f` from the nearer edge file.
pub open spec fn edge_bucket(s: int) -> int {
    if file_of(s) < 7 - file_of(s) {
        file_of(s)
    } else {
        7 - file_of(s)
    }
}

/// No pawn stands on the first or last rank, and each side has at most eight pawns.
pub open spec fn pawns_ok(pos: Position) -> bool {
    &&& pos.piece_bb(Colour::White, Piece::Pawn) & (RANK_1 | RANK_8) == 0
    &&& pos.piece_bb(Colour::Black, Piece::Pawn) & (RANK_1 | RANK_8) == 0
    &&& popcount(pos.piece_bb(Colour::White, Piece::Pawn)) <= 8
    &&& popcount(pos.piece_bb(Colour::Black, Piece::Pawn)) <= 8
}

proof fn lemma_inner_rank(x: u64, s: int)
    requires
        x & (RANK_1 | RANK_8) == 0,
        bit_set(x, s),
    ensures
        1 <= rank_of(s) <= 6,
{
    let t = s as u64;
    assert(x & (0xFFu64 | (0xFFu64 << 56u64)) == 0 && t < 64 && (x >> t) & 1u64 == 1u64 ==> 8 <= t
        < 56) by (bit_vector);
}

// ---------------------------------------------------------------------------------------------
// Pawns.

/// The pawn-structure and table terms of a pawn of `c` on `s`, from `c`'s point of view.
pub open spec fn pawn_term(pos: Position, p: Params, c: Colour, s: int) -> (int, int) {
    let them = c.other();
    let pawns = pos.piece_bb(c, Piece::Pawn);
    let opp = pos.piece_bb(them, Piece::Pawn);
    let opp_double = double_attacks(opp, them);
    let sqb = bit(s);
    let rr = rel_rank(c, s);
    let front = fill_ahead(sqb, c) ^ sqb;
    let span = front | shift_spec(front, Direction::East) | shift_spec(front, Direction::West);
    let files = file_mask(s);
    let adj = shift_spec(files, Direction::East) | shift_spec(files, Direction::West);
    let frontmost = pawns & front == 0;
    let opposed = opp & front != 0;
    let blocked = opp & shift_spec(sqb, forward(c));
    let stoppers = opp & span;
    let lever = opp & pawn_attacks_spec(sqb, c);
    let lever_push = opp & pawn_attacks_spec(shift_spec(sqb, forward(c)), c);
    let neighbours = pawns & adj;
    let phalanx = neighbours & rank_mask(s);
    let support = neighbours & shift_spec(rank_mask(s), backward(c));
    let rear = fill_behind(sqb, c);
    let rear_span = rear | shift_spec(rear, Direction::East) | shift_spec(rear, Direction::West);
    let is_backward = neighbours != 0 && neighbours & rear_span == 0 && (lever_push | blocked) != 0;
    let passed = stoppers == 0;
    let candidate = (stoppers ^ lever) == 0 || ((stoppers ^ lever_push) == 0 && popcount(phalanx)
        >= popcount(lever_push)) || (stoppers == blocked && rr >= 4 && shift_spec(
        support,
        forward(c),
    ) & !(opp | opp_double) != 0);
    let unopposed = if opposed {
        0int
    } else {
        1int
    };
    let pst = sv(p.pawn_pst@[relative_sq(c, s)]);
    let pass = if passed {
        sv(p.passed_pawn@[rr - 1])
    } else if candidate {
        sv(p.candidate_passer@[rr - 1])
    } else {
        nil()
    };
    let structure = if support != 0 || phalanx != 0 {
        plus(
            times(
                p.connected_bonus@[rr - 1],
                2 + (if phalanx != 0 {
                    1int
                } else {
                    0int
                }) - (if opposed {
                    1int
                } else {
                    0int
                }),
            ),
            sv(p.supported_bonus@[popcount(support) as int]),
        )
    } else if neighbours == 0 && frontmost {
        plus(sv(p.isolated_pawn@[edge_bucket(s)]), times(p.weak_unopposed, unopposed))
    } else if is_backward {
        plus(sv(p.backward_pawn@[edge_bucket(s)]), times(p.weak_unopposed, unopposed))
    } else {
        nil()
    };
    let stack = if frontmost {
        let n = popcount(pawns & files);
        if n >= 4 {
            sv(p.quadrupled_pawns)
        } else if n == 3 {
            sv(p.tripled_pawns)
        } else if n == 2 {
            sv(p.doubled_pawns)
        } else {
            nil()
        }
    } else {
        nil()
    };
    plus(plus(pst, pass), plus(structure, stack))
}

/// `pawn_term` for each square.
pub open spec fn pawn_fn(pos: Position, p: Params, c: Colour) -> spec_fn(int) -> (int, int) {
    |s: int| pawn_term(pos, p, c, s)
}

/// The pawn terms of side `c`: material and every pawn's term, from `c`'s point of view.
pub open spec fn pawn_total(pos: Position, p: Params, c: Colour) -> (int, int) {
    let pawns = pos.piece_bb(c, Piece::Pawn);
    plus(times(p.pawn_value, popcount(pawns) as int), sum_over(pawns, pawn_fn(pos, p, c)))
}

/// The files next to file `f` meet rank `r` in the squares beside `(r, f)`; ranks and
/// single squares move by a rank when shifted north or south.
proof fn lemma_board_bits(f: u64, r: u64, t: u64)
    by (bit_vector)
    requires
        f < 8,
        r < 8,
        t < 64,
    ensures
        0x0101010101010101u64 << 7u64 == 0x8080808080808080u64,
        0u64 << 1u64 == 0,
        0u64 >> 1u64 == 0,
        f < 7 ==> (((0x0101010101010101u64 << f) & !0x8080808080808080u64) << 1u64) & (0xFFu64
            << ((r * 8) as u64)) == 1u64 << ((r * 8 + f + 1) as u64),
        f == 7 ==> ((0x0101010101010101u64 << f) & !0x8080808080808080u64) == 0,
        f > 0 ==> (((0x0101010101010101u64 << f) & !0x0101010101010101u64) >> 1u64) & (0xFFu64
            << ((r * 8) as u64)) == 1u64 << ((r * 8 + f - 1) as u64),
        f == 0 ==> ((0x0101010101010101u64 << f) & !0x0101010101010101u64) == 0,
        1 <= r <= 6 ==> (0xFFu64 << ((r * 8) as u64)) << 8u64 == 0xFFu64 << (((r + 1) * 8) as u64)
            && (0xFFu64 << ((r * 8) as u64)) >> 8u64 == 0xFFu64 << (((r - 1) * 8) as u64),
        8 <= t < 56 ==> (1u64 << t) << 8u64 == 1u64 << ((t + 8) as u64) && (1u64 << t) >> 8u64
            == 1u64 << ((t - 8) as u64),
{
}

/// The files next to that of `s`, on the rank `r`, hold at most two squares.
proof fn lemma_adjacent_on_rank(s: int, r: int)
    requires
        0 <= s < 64,
        0 <= r < 8,
    ensures
        popcount(
            (shift_spec(file_mask(s), Direction::East) | shift_spec(file_mask(s), Direction::West))
                & (RANK_1 << ((r * 8) as u64)),
        ) <= 2,
{
    let f = file_of(s) as u64;
    let rr = r as u64;
    lemma_board_bits(f, rr, 0);
    let fa = 0x0101010101010101u64;
    let fh = 0x8080808080808080u64;
    let row = 0xFFu64 << ((rr * 8) as u64);
    let east = ((fa << f) & !fh) << 1u64;
    let west = ((fa << f) & !fa) >> 1u64;
    let e = east & row;
    let w = west & row;
    lemma_bit_algebra(east, west, row);
    assert(FILE_H == fh);
    assert(file_mask(s) == fa << f);
    assert(shift_spec(file_mask(s), Direction::East) == east);
    assert(shift_spec(file_mask(s), Direction::West) == west);
    if f < 7 {
        lemma_popcount_bit((rr * 8 + f + 1) as u64);
    } else {
        lemma_bit_algebra(row, 0, 0);
    }
    if f > 0 {
        lemma_popcount_bit((rr * 8 + f - 1) as u64);
    } else {
        lemma_bit_algebra(row, 0, 0);
    }
    lemma_popcount_or(e, w);
}

/// A rank moved one rank up or down is the neighbouring rank.
proof fn lemma_rank_shift(s: int)
    requires
        0 <= s < 64,
        1 <= rank_of(s) <= 6,
    ensures
        shift_spec(rank_mask(s), Direction::North) == RANK_1 << (((rank_of(s) + 1) * 8) as u64),
        shift_spec(rank_mask(s), Direction::South) == RANK_1 << (((rank_of(s) - 1) * 8) as u64),
        shift_spec(bit(s), Direction::North) == bit(s + 8),
        shift_spec(bit(s), Direction::South) == bit(s - 8),
{
    lemma_board_bits(0, rank_of(s) as u64, s as u64);
}

/// `x` moved one step in direction `d`.
fn shifted(x: u64, d: Direction) -> (r: u64)
    ensures
        r == shift_spec(x, d),
{
    Bitboard::new(x).shift(d).0
}

/// The number of squares of `x`.
fn count(x: u64) -> (r: u32)
    ensures
        r == popcount(x),
        r <= 64,
{
    Bitboard::new(x).bit_count()
}

/// The squares attacked by pawns of colour `c` on the squares of `bb`.
fn pawn_attacks_of(bb: u64, c: Colour) -> (r: u64)
    ensures
        r == pawn_attacks_spec(bb, c),
{
    match c {
        Colour::White => shifted(bb, Direction::NorthEast) | shifted(bb, Direction::NorthWest),
        Colour::Black => shifted(bb, Direction::SouthEast) | shifted(bb, Direction::SouthWest),
    }
}

/// The pawn term of a pawn of `c` on `sq`; see `pawn_term`.
#[verifier::rlimit(100)]
fn pawn_at(pos: &Position, p: &Params, c: Colour, sq: Square) -> (r: Score)
    requires
        params_ok(*p),
        pawns_ok(*pos),
        sq@ < 64,
        bit_set(pos.piece_bb(c, Piece::Pawn), sq@ as int),
    ensures
        sv(r) == pawn_term(*pos, *p, c, sq@ as int),
        within(sv(r), 21000),
{
    let ghost s = sq@ as int;
    proof {
        lemma_inner_rank(pos.piece_bb(c, Piece::Pawn), s);
        lemma_rank_shift(s);
    }
    let them = c.opposite();
    let pawns = pos.pieces[c.idx()][Piece::Pawn.idx()].0;
    let opp = pos.pieces[them.idx()][Piece::Pawn.idx()].0;
    let opp_double = if them == Colour::White {
        shifted(opp, Direction::NorthEast) & shifted(opp, Direction::NorthWest)
    } else {
        shifted(opp, Direction::SouthEast) & shifted(opp, Direction::SouthWest)
    };
    let (up, down) = if c == Colour::White {
        (Direction::North, Direction::South)
    } else {
        (Direction::South, Direction::North)
    };
    let sqb = sq.bit();
    let rr: u8 = if c == Colour::White {
        sq.rank()
    } else {
        7 - sq.rank()
    };
    let rank_bb = sq.rank_bb().0;
    let file_bb = sq.file_bb().0;
    let front = Bitboard::new(sqb).frontfill(c).0 ^ sqb;
    let span = front | shifted(front, Direction::East) | shifted(front, Direction::West);
    let adj = shifted(file_bb, Direction::East) | shifted(file_bb, Direction::West);
    let frontmost = pawns & front == 0;
    let opposed = opp & front != 0;
    let blocked = opp & shifted(sqb, up);
    let stoppers = opp & span;
    let lever = opp & pawn_attacks_of(sqb, c);
    let lever_push = opp & pawn_attacks_of(shifted(sqb, up), c);
    let neighbours = pawns & adj;
    let phalanx = neighbours & rank_bb;
    let support = neighbours & shifted(rank_bb, down);
    let rear = Bitboard::new(sqb).backfill(c).0;
    let rear_span = rear | shifted(rear, Direction::East) | shifted(rear, Direction::West);
    let is_backward = neighbours != 0 && neighbours & rear_span == 0 && (lever_push | blocked) != 0;
    let passed = stoppers == 0;
    let candidate = (stoppers ^ lever) == 0 || ((stoppers ^ lever_push) == 0 && count(phalanx)
        >= count(lever_push)) || (stoppers == blocked && rr >= 4 && shifted(support, up) & !(opp
        | opp_double) != 0);
    let rel = if c == Colour::White {
        (7 - sq.rank()) as usize * 8 + sq.file() as usize
    } else {
        sq.idx()
    };
    let pst = p.pawn_pst[rel];
    assert(weight_ok(pst));
    let pass = if passed {
        p.passed_pawn[(rr - 1) as usize]
    } else if candidate {
        p.candidate_passer[(rr - 1) as usize]
    } else {
        Score::zero()
    };
    assert(weight_ok(pass));
    let file = sq.file();
    let bucket = (if file < 7 - file {
        file
    } else {
        7 - file
    }) as usize;
    let unopposed: i32 = if opposed {
        0
    } else {
        1
    };
    let structure = if support != 0 || phalanx != 0 {
        proof {
            let row = if c == Colour::White {
                rank_of(s) - 1
            } else {
                rank_of(s) + 1
            };
            lemma_adjacent_on_rank(s, row);
            let below = shift_spec(rank_mask(s), backward(c));
            lemma_bit_algebra(pawns, adj, below);
            lemma_popcount_and(pawns, adj & below);
        }
        let k: i32 = 2 + (if phalanx != 0 {
            1i32
        } else {
            0i32
        }) - (if opposed {
            1i32
        } else {
            0i32
        });
        let bonus = p.connected_bonus[(rr - 1) as usize];
        assert(weight_ok(bonus));
        let connected = sc_times(bonus, k);
        proof {
            assert(-9000 <= bonus.mg * k <= 9000 && -9000 <= bonus.eg * k <= 9000)
                by (nonlinear_arith)
                requires
                    weight_ok(bonus),
                    1 <= k <= 3,
            ;
        }
        let supported = p.supported_bonus[count(support) as usize];
        assert(weight_ok(supported));
        sc_add(connected, supported)
    } else if neighbours == 0 && frontmost {
        let pen = p.isolated_pawn[bucket];
        assert(weight_ok(pen));
        let weak = sc_times(p.weak_unopposed, unopposed);
        proof {
            assert(within(sv(weak), 3000)) by (nonlinear_arith)
                requires
                    weight_ok(p.weak_unopposed),
                    0 <= unopposed <= 1,
                    sv(weak) == times(p.weak_unopposed, unopposed as int),
            ;
        }
        sc_add(pen, weak)
    } else if is_backward {
        let pen = p.backward_pawn[bucket];
        assert(weight_ok(pen));
        let weak = sc_times(p.weak_unopposed, unopposed);
        proof {
            assert(within(sv(weak), 3000)) by (nonlinear_arith)
                requires
                    weight_ok(p.weak_unopposed),
                    0 <= unopposed <= 1,
                    sv(weak) == times(p.weak_unopposed, unopposed as int),
            ;
        }
        sc_add(pen, weak)
    } else {
        Score::zero()
    };
    let stack = if frontmost {
        let n = count(pawns & file_bb);
        if n >= 4 {
            p.quadrupled_pawns
        } else if n == 3 {
            p.tripled_pawns
        } else if n == 2 {
            p.doubled_pawns
        } else {
            Score::zero()
        }
    } else {
        Score::zero()
    };
    sc_add(sc_add(pst, pass), sc_add(structure, stack))
}

/// The term of a pawn on an inner rank lies within seven weights.
proof fn lemma_pawn_term_within(pos: Position, p: Params, c: Colour, s: int)
    requires
        params_ok(p),
        pawns_ok(pos),
        0 <= s < 64,
        bit_set(pos.piece_bb(c, Piece::Pawn), s),
    ensures
        within(pawn_term(pos, p, c, s), 21000),
{
    lemma_inner_rank(pos.piece_bb(c, Piece::Pawn), s);
    let pawns = pos.piece_bb(c, Piece::Pawn);
    let opp = pos.piece_bb(c.other(), Piece::Pawn);
    let sqb = bit(s);
    let rr = rel_rank(c, s);
    let front = fill_ahead(sqb, c) ^ sqb;
    let files = file_mask(s);
    let adj = shift_spec(files, Direction::East) | shift_spec(files, Direction::West);
    let opposed = opp & front != 0;
    let neighbours = pawns & adj;
    let phalanx = neighbours & rank_mask(s);
    let below = shift_spec(rank_mask(s), backward(c));
    let support = neighbours & below;
    lemma_rank_shift(s);
    let row = if c == Colour::White {
        rank_of(s) - 1
    } else {
        rank_of(s) + 1
    };
    lemma_adjacent_on_rank(s, row);
    lemma_bit_algebra(pawns, adj, below);
    lemma_popcount_and(pawns, adj & below);
    assert(weight_ok(p.pawn_pst@[relative_sq(c, s)]));
    assert(weight_ok(p.passed_pawn@[rr - 1]));
    assert(weight_ok(p.candidate_passer@[rr - 1]));
    assert(weight_ok(p.isolated_pawn@[edge_bucket(s)]));
    assert(weight_ok(p.backward_pawn@[edge_bucket(s)]));
    assert(weight_ok(p.supported_bonus@[popcount(support) as int]));
    let bonus = p.connected_bonus@[rr - 1];
    assert(weight_ok(bonus));
    let k = 2 + (if phalanx != 0 {
        1int
    } else {
        0int
    }) - (if opposed {
        1int
    } else {
        0int
    });
    assert(within(times(bonus, k), 9000)) by (nonlinear_arith)
        requires
            weight_ok(bonus),
            1 <= k <= 3,
    ;
    let u = if opposed {
        0int
    } else {
        1int
    };
    assert(within(times(p.weak_unopposed, u), 3000)) by (nonlinear_arith)
        requires
            weight_ok(p.weak_unopposed),
            0 <= u <= 1,
    ;
}

/// The pawn terms of side `c`; see `pawn_total`.
fn evaluate_pawns(pos: &Position, p: &Params, c: Colour) -> (r: Score)
    requires
        params_ok(*p),
        pawns_ok(*pos),
    ensures
        sv(r) == pawn_total(*pos, *p, c),
        within(sv(r), 200_000),
{
    let pawns = pos.pieces[c.idx()][Piece::Pawn.idx()];
    let ghost bb = pawns.0;
    let ghost f = pawn_fn(*pos, *p, c);
    let n = pawns.bit_count();
    let mut acc = sc_times(p.pawn_value, n as i32);
    proof {
        assert(within(sv(acc), 24000)) by (nonlinear_arith)
            requires
                weight_ok(p.pawn_value),
                0 <= n <= 8,
                sv(acc) == times(p.pawn_value, n as int),
        ;
        assert forall|t: int| bit_set(bb, t) implies within(#[trigger] f(t), 21000) by {
            lemma_pawn_term_within(*pos, *p, c, t);
        }
        lemma_sum_within(bb, f, 21000);
        lemma_bit_algebra(bb, bb, bb);
    }
    let ghost start = sv(acc);
    let mut rest = pawns;
    while !rest.is_empty()
        invariant
            params_ok(*p),
            pawns_ok(*pos),
            bb == pos.piece_bb(c, Piece::Pawn),
            f == pawn_fn(*pos, *p, c),
            forall|t: int| bit_set(bb, t) ==> within(#[trigger] f(t), 21000),
            rest.0 & bb == rest.0,
            within(start, 24000),
            within(sum_over(bb, f), 168000),
            sv(acc) == plus(start, (sum_over(bb, f).0 - sum_over(rest.0, f).0, sum_over(bb, f).1
                - sum_over(rest.0, f).1)),
        decreases rest.0,
    {
        let ghost old_rest = rest.0;
        proof {
            lemma_lowest(old_rest);
        }
        let sq = rest.pop_lsb();
        proof {
            lemma_subset_has(old_rest, bb, sq@ as u64);
        }
        let term = pawn_at(pos, p, c, sq);
        proof {
            assert(sum_over(old_rest, f) == plus(sum_over(rest.0, f), f(sq@ as int)));
            let r = rest.0;
            lemma_subset_step(old_rest, bb);
            lemma_subset_within(r, bb, f, 21000);
            lemma_popcount_and(r, bb);
        }
        acc = sc_add(acc, term);
    }
    acc
}

// ---------------------------------------------------------------------------------------------
// Pieces.

/// What the pieces of one kind of a side add up to: their score (from that side's point of
/// view), the squares they control, and their hits on the enemy king's ring.
#[derive(Copy, Clone, Debug)]
pub struct PieceSum {
    pub score: Score,
    pub control: u64,
    pub hits: u32,
}

/// The outpost bonus of a minor piece of `c` on `s` in the enemy half: no enemy pawn can
/// challenge it from the adjacent files ahead; `defended` when one of `c`'s pawns guards it.
pub open spec fn outpost_term(pos: Position, c: Colour, s: int, plain: Score, defended: Score) -> (int, int) {
    let them = c.other();
    let front = fill_ahead(bit(s), c) ^ bit(s);
    let adj = shift_spec(front, Direction::East) | shift_spec(front, Direction::West);
    let challengers = pos.piece_bb(them, Piece::Pawn) & adj;
    if rel_rank(c, s) < 4 || challengers != 0 {
        nil()
    } else if pawn_attacks_spec(bit(s), them) & pos.piece_bb(c, Piece::Pawn) != 0 {
        sv(defended)
    } else {
        sv(plain)
    }
}

/// The squares a knight on `s` controls.
pub open spec fn knight_ctl() -> spec_fn(int) -> u64 {
    |s: int| knight_attacks_spec(s)
}

/// How many squares of `ring` the control `ctl` of a piece on `s` hits.
pub open spec fn hits_fn(ctl: spec_fn(int) -> u64, ring: u64) -> spec_fn(int) -> int {
    |s: int| popcount(ctl(s) & ring) as int
}

/// The terms of a knight of `c` on `s`: table, mobility, pawn count and outpost.
pub open spec fn knight_term(pos: Position, p: Params, c: Colour, s: int) -> (int, int) {
    let own = pos.occ_bb(c);
    let pawns = popcount(pos.piece_bb(c, Piece::Pawn)) as int;
    let mobility = popcount(knight_attacks_spec(s) & !own) as int;
    plus(
        plus(sv(p.knight_pst@[relative_sq(c, s)]), sv(p.knight_mobility@[mobility])),
        plus(sv(p.knight_adj@[pawns]), outpost_term(pos, c, s, p.knight_outpost, p.defended_knight_outpost)),
    )
}

/// `knight_term` for each square.
pub open spec fn knight_fn(pos: Position, p: Params, c: Colour) -> spec_fn(int) -> (int, int) {
    |s: int| knight_term(pos, p, c, s)
}

/// The knight terms of side `c`: material and every knight's term.
pub open spec fn knight_total(pos: Position, p: Params, c: Colour) -> (int, int) {
    let bb = pos.piece_bb(c, Piece::Knight);
    plus(times(p.knight_value, popcount(bb) as int), sum_over(bb, knight_fn(pos, p, c)))
}

/// Each weight looked up for a knight is in its table.
proof fn lemma_knight_term_within(pos: Position, p: Params, c: Colour, s: int)
    requires
        params_ok(p),
        pawns_ok(pos),
        0 <= s < 64,
    ensures
        within(knight_term(pos, p, c, s), 12000),
{
    lemma_knight_count(s);
    lemma_popcount_and(knight_attacks_spec(s), !pos.occ_bb(c));
    assert(weight_ok(p.knight_pst@[relative_sq(c, s)]));
    assert(weight_ok(p.knight_mobility@[popcount(knight_attacks_spec(s) & !pos.occ_bb(c)) as int]));
    assert(weight_ok(p.knight_adj@[popcount(pos.piece_bb(c, Piece::Pawn)) as int]));
}

/// The outpost bonus of a minor piece of `c` on `sq`; see `outpost_term`.
fn outpost_at(pos: &Position, bbs: &Bitboards, c: Colour, sq: Square, plain: Score, defended: Score) -> (r: Score)
    requires
        bbs.wf(),
        sq@ < 64,
    ensures
        sv(r) == outpost_term(*pos, c, sq@ as int, plain, defended),
{
    let them = c.opposite();
    let rr: u8 = if c == Colour::White {
        sq.rank()
    } else {
        7 - sq.rank()
    };
    if rr < 4 {
        return Score::zero();
    }
    let sqb = sq.bit();
    let front = Bitboard::new(sqb).frontfill(c).0 ^ sqb;
    let adj = shifted(front, Direction::East) | shifted(front, Direction::West);
    let challengers = pos.pieces[them.idx()][Piece::Pawn.idx()].0 & adj;
    if challengers != 0 {
        return Score::zero();
    }
    if bbs.pawn_attacks(sq, them).0 & pos.pieces[c.idx()][Piece::Pawn.idx()].0 != 0 {
        defended
    } else {
        plain
    }
}

/// The terms of a knight of `c` on `sq`, its control and its hits on `ring`.
fn knight_at(pos: &Position, bbs: &Bitboards, p: &Params, c: Colour, sq: Square, ring: u64) -> (r: (Score, u64, u32))
    requires
        bbs.wf(),
        params_ok(*p),
        pawns_ok(*pos),
        sq@ < 64,
    ensures
        sv(r.0) == knight_term(*pos, *p, c, sq@ as int),
        r.1 == knight_attacks_spec(sq@ as int),
        r.2 == popcount(knight_attacks_spec(sq@ as int) & ring),
        r.2 <= 8,
{
    proof {
        lemma_knight_term_within(*pos, *p, c, sq@ as int);
        lemma_knight_count(sq@ as int);
        lemma_popcount_and(knight_attacks_spec(sq@ as int), ring);
        lemma_popcount_and(knight_attacks_spec(sq@ as int), !pos.occ_bb(c));
    }
    let own = pos.occupancy[c.idx()].0;
    let pawn_count = pos.pieces[c.idx()][Piece::Pawn.idx()].bit_count();
    let control = bbs.knight_attacks(sq).0;
    let hits = count(control & ring);
    let mobility = count(control & !own);
    let rel = if c == Colour::White {
        (7 - sq.rank()) as usize * 8 + sq.file() as usize
    } else {
        sq.idx()
    };
    let pst = p.knight_pst[rel];
    let mob = p.knight_mobility[mobility as usize];
    let adj = p.knight_adj[pawn_count as usize];
    let out = outpost_at(pos, bbs, c, sq, p.knight_outpost, p.defended_knight_outpost);
    assert(weight_ok(pst) && weight_ok(mob) && weight_ok(adj));
    (sc_add(sc_add(pst, mob), sc_add(adj, out)), control, hits)
}

/// The knight terms of side `c`, the squares its knights control and their hits on `ring`.
fn evaluate_knights(pos: &Position, bbs: &Bitboards, p: &Params, c: Colour, ring: u64) -> (r: PieceSum)
    requires
        bbs.wf(),
        params_ok(*p),
        pawns_ok(*pos),
    ensures
        sv(r.score) == knight_total(*pos, *p, c),
        r.control == union_over(pos.piece_bb(c, Piece::Knight), knight_ctl()),
        r.hits == count_over(pos.piece_bb(c, Piece::Knight), hits_fn(knight_ctl(), ring)),
        r.hits <= 512,
        within(sv(r.score), 1_000_000),
{
    let pieces = pos.pieces[c.idx()][Piece::Knight.idx()];
    let ghost bb = pieces.0;
    let ghost f = knight_fn(*pos, *p, c);
    let ghost g = knight_ctl();
    let ghost h = hits_fn(knight_ctl(), ring);
    let n = pieces.bit_count();
    let mut acc = sc_times(p.knight_value, n as i32);
    proof {
        assert forall|t: int| bit_set(bb, t) implies within(#[trigger] f(t), 12000) by {
            lemma_knight_term_within(*pos, *p, c, t);
        }
        lemma_sum_within(bb, f, 12000);
        assert forall|t: int| bit_set(bb, t) implies 0 <= #[trigger] h(t) <= 8 by {
            lemma_knight_count(t);
            lemma_popcount_and(knight_attacks_spec(t), ring);
        }
        lemma_count_within(bb, h, 8);
        lemma_bit_algebra(bb, bb, bb);
    }
    let ghost start = sv(acc);
    let mut control: u64 = 0;
    let mut hits: u32 = 0;
    let mut rest = pieces;
    proof {
        lemma_bit_algebra(union_over(bb, g), 0, 0);
    }
    while !rest.is_empty()
        invariant
            bbs.wf(),
            params_ok(*p),
            pawns_ok(*pos),
            bb == pos.piece_bb(c, Piece::Knight),
            f == knight_fn(*pos, *p, c),
            g == knight_ctl(),
            h == hits_fn(knight_ctl(), ring),
            forall|t: int| bit_set(bb, t) ==> within(#[trigger] f(t), 12000),
            forall|t: int| bit_set(bb, t) ==> 0 <= #[trigger] h(t) <= 8,
            rest.0 & bb == rest.0,
            within(start, 192000),
            within(sum_over(bb, f), 768000),
            0 <= count_over(bb, h) <= 8 * 64,
            sv(acc) == plus(start, (sum_over(bb, f).0 - sum_over(rest.0, f).0, sum_over(bb, f).1
                - sum_over(rest.0, f).1)),
            control | union_over(rest.0, g) == union_over(bb, g),
            hits + count_over(rest.0, h) == count_over(bb, h),
        decreases rest.0,
    {
        let ghost old_rest = rest.0;
        proof {
            lemma_lowest(old_rest);
        }
        let sq = rest.pop_lsb();
        let (term, ctl, hit) = knight_at(pos, bbs, p, c, sq, ring);
        proof {
            assert(sum_over(old_rest, f) == plus(sum_over(rest.0, f), f(sq@ as int)));
            assert(union_over(old_rest, g) == g(sq@ as int) | union_over(rest.0, g));
            assert(count_over(old_rest, h) == h(sq@ as int) + count_over(rest.0, h));
            let r = rest.0;
            lemma_subset_step(old_rest, bb);
            lemma_subset_within(r, bb, f, 12000);
            lemma_popcount_and(r, bb);
            crate::bitboard::lemma_popcount_bound(bb);
            lemma_subset_count(r, bb, h, 8);
            lemma_bit_algebra(control, ctl, union_over(r, g));
        }
        acc = sc_add(acc, term);
        control = control | ctl;
        hits = hits + hit;
    }
    proof {
        assert(union_over(rest.0, g) == 0);
        lemma_bit_algebra(control, 0, 0);
    }
    PieceSum { score: acc, control, hits }
}

/// The light squares (h1 is light).
pub const LIGHT_SQUARES: u64 = 0x55AA_55AA_55AA_55AA;

/// The dark squares (a1 is dark).
pub const DARK_SQUARES: u64 = 0xAA55_AA55_AA55_AA55;

/// The squares a bishop on `s` controls in `pos`.
pub open spec fn bishop_ctl(pos: Position) -> spec_fn(int) -> u64 {
    |s: int| bishop_attacks_spec(s, pos.all_bb())
}

/// The fianchetto bonus of a bishop of `c` on `s`: on b2 or g2 (b7 or g7 for black) with a
/// pawn of `c` in front of it.
pub open spec fn fianchetto_term(pos: Position, p: Params, c: Colour, s: int) -> (int, int) {
    let pawns = pos.piece_bb(c, Piece::Pawn);
    let (a, a_pawn, b, b_pawn) = if c == Colour::White {
        (9int, 17int, 14int, 22int)
    } else {
        (49int, 41int, 54int, 46int)
    };
    plus(
        if s == a && pawns & bit(a_pawn) != 0 {
            sv(p.fianchetto)
        } else {
            nil()
        },
        if s == b && pawns & bit(b_pawn) != 0 {
            sv(p.fianchetto)
        } else {
            nil()
        },
    )
}

/// The pawns of `c` on squares of the colour of `s`.
pub open spec fn same_colour_pawns(pos: Position, c: Colour, s: int) -> int {
    let pawns = pos.piece_bb(c, Piece::Pawn);
    if crate::types::square_colour(s) == Colour::White {
        popcount(pawns & LIGHT_SQUARES) as int
    } else {
        popcount(pawns & DARK_SQUARES) as int
    }
}

/// The terms of a bishop of `c` on `s`: table, mobility, fianchetto, own pawns on its colour
/// and outpost.
pub open spec fn bishop_term(pos: Position, p: Params, c: Colour, s: int) -> (int, int) {
    let mobility = popcount(bishop_attacks_spec(s, pos.all_bb()) & !pos.occ_bb(c)) as int;
    plus(
        plus(sv(p.bishop_pst@[relative_sq(c, s)]), sv(p.bishop_mobility@[mobility])),
        plus(
            plus(fianchetto_term(pos, p, c, s), sv(p.bishop_same_colour_pawns@[same_colour_pawns(pos, c, s)])),
            outpost_term(pos, c, s, p.bishop_outpost, p.defended_bishop_outpost),
        ),
    )
}

/// `bishop_term` for each square.
pub open spec fn bishop_fn(pos: Position, p: Params, c: Colour) -> spec_fn(int) -> (int, int) {
    |s: int| bishop_term(pos, p, c, s)
}

/// The bishop terms of side `c`: material, the pair bonus, and every bishop's term.
pub open spec fn bishop_total(pos: Position, p: Params, c: Colour) -> (int, int) {
    let bb = pos.piece_bb(c, Piece::Bishop);
    plus(
        plus(times(p.bishop_value, popcount(bb) as int), if popcount(bb) > 1 {
            sv(p.bishop_pair)
        } else {
            nil()
        }),
        sum_over(bb, bishop_fn(pos, p, c)),
    )
}

/// The bishop-pair weight counts only for a side with two bishops or more: changing that weight
/// alone leaves a side's bishop terms as they are when it has no bishop or one, and moves them by
/// exactly the change when it has two or more.
pub proof fn lemma_bishop_pair_law(pos: Position, p: Params, q: Params, c: Colour)
    requires
        q == (Params { bishop_pair: q.bishop_pair, ..p }),
    ensures
        popcount(pos.piece_bb(c, Piece::Bishop)) < 2 ==> bishop_total(pos, q, c) == bishop_total(pos, p, c),
        popcount(pos.piece_bb(c, Piece::Bishop)) >= 2 ==> bishop_total(pos, q, c) == plus(
            bishop_total(pos, p, c),
            (q.bishop_pair.mg - p.bishop_pair.mg, q.bishop_pair.eg - p.bishop_pair.eg),
        ),
{
    assert forall|s: int| #[trigger] bishop_term(pos, q, c, s) == bishop_term(pos, p, c, s) by {}
    assert(bishop_fn(pos, q, c) =~= bishop_fn(pos, p, c));
}

proof fn lemma_bishop_term_within(pos: Position, p: Params, c: Colour, s: int)
    requires
        params_ok(p),
        pawns_ok(pos),
        0 <= s < 64,
    ensures
        within(bishop_term(pos, p, c, s), 18000),
{
    let ctl = bishop_attacks_spec(s, pos.all_bb());
    lemma_bishop_count(s, pos.all_bb());
    lemma_popcount_and(ctl, !pos.occ_bb(c));
    lemma_popcount_and(pos.piece_bb(c, Piece::Pawn), LIGHT_SQUARES);
    lemma_popcount_and(pos.piece_bb(c, Piece::Pawn), DARK_SQUARES);
    assert(weight_ok(p.bishop_pst@[relative_sq(c, s)]));
    assert(weight_ok(p.bishop_mobility@[popcount(ctl & !pos.occ_bb(c)) as int]));
    assert(weight_ok(p.bishop_same_colour_pawns@[same_colour_pawns(pos, c, s)]));
}

/// The terms of a bishop of `c` on `sq`, its control and its hits on `ring`.
fn bishop_at(pos: &Position, bbs: &Bitboards, p: &Params, c: Colour, sq: Square, ring: u64) -> (r: (Score, u64, u32))
    requires
        bbs.wf(),
        params_ok(*p),
        pawns_ok(*pos),
        sq@ < 64,
    ensures
        sv(r.0) == bishop_term(*pos, *p, c, sq@ as int),
        r.1 == bishop_attacks_spec(sq@ as int, pos.all_bb()),
        r.2 == popcount(bishop_attacks_spec(sq@ as int, pos.all_bb()) & ring),
        r.2 <= 13,
{
    let ghost s = sq@ as int;
    proof {
        lemma_bishop_term_within(*pos, *p, c, s);
        lemma_bishop_count(s, pos.all_bb());
        lemma_popcount_and(bishop_attacks_spec(s, pos.all_bb()), ring);
        lemma_popcount_and(bishop_attacks_spec(s, pos.all_bb()), !pos.occ_bb(c));
        lemma_popcount_and(pos.piece_bb(c, Piece::Pawn), LIGHT_SQUARES);
        lemma_popcount_and(pos.piece_bb(c, Piece::Pawn), DARK_SQUARES);
    }
    let own = pos.occupancy[c.idx()].0;
    let pawns = pos.pieces[c.idx()][Piece::Pawn.idx()].0;
    let control = bbs.bishop_attacks(sq, pos.occupancy[2]).0;
    let hits = count(control & ring);
    let mobility = count(control & !own);
    let rel = if c == Colour::White {
        (7 - sq.rank()) as usize * 8 + sq.file() as usize
    } else {
        sq.idx()
    };
    let pst = p.bishop_pst[rel];
    let mob = p.bishop_mobility[mobility as usize];
    let idx = sq.u8();
    let (a, a_pawn, b, b_pawn): (u8, u64, u8, u64) = if c == Colour::White {
        (9, 1u64 << 17u64, 14, 1u64 << 22u64)
    } else {
        (49, 1u64 << 41u64, 54, 1u64 << 46u64)
    };
    let fian_a = if idx == a && pawns & a_pawn != 0 {
        p.fianchetto
    } else {
        Score::zero()
    };
    let fian_b = if idx == b && pawns & b_pawn != 0 {
        p.fianchetto
    } else {
        Score::zero()
    };
    let same = if sq.colour() == Colour::White {
        count(pawns & LIGHT_SQUARES)
    } else {
        count(pawns & DARK_SQUARES)
    };
    let colour_term = p.bishop_same_colour_pawns[same as usize];
    let out = outpost_at(pos, bbs, c, sq, p.bishop_outpost, p.defended_bishop_outpost);
    assert(weight_ok(pst) && weight_ok(mob) && weight_ok(colour_term));
    (
        sc_add(sc_add(pst, mob), sc_add(sc_add(sc_add(fian_a, fian_b), colour_term), out)),
        control,
        hits,
    )
}

/// The bishop terms of side `c`, the squares its bishops control and their hits on `ring`.
fn evaluate_bishops(pos: &Position, bbs: &Bitboards, p: &Params, c: Colour, ring: u64) -> (r: PieceSum)
    requires
        bbs.wf(),
        params_ok(*p),
        pawns_ok(*pos),
    ensures
        sv(r.score) == bishop_total(*pos, *p, c),
        r.control == union_over(pos.piece_bb(c, Piece::Bishop), bishop_ctl(*pos)),
        r.hits == count_over(pos.piece_bb(c, Piece::Bishop), hits_fn(bishop_ctl(*pos), ring)),
        r.hits <= 832,
        within(sv(r.score), 1_400_000),
{
    let pieces = pos.pieces[c.idx()][Piece::Bishop.idx()];
    let ghost bb = pieces.0;
    let ghost f = bishop_fn(*pos, *p, c);
    let ghost g = bishop_ctl(*pos);
    let ghost h = hits_fn(bishop_ctl(*pos), ring);
    let n = pieces.bit_count();
    let mut acc = sc_times(p.bishop_value, n as i32);
    if n > 1 {
        acc = sc_add(acc, p.bishop_pair);
    }
    proof {
        assert forall|t: int| bit_set(bb, t) implies within(#[trigger] f(t), 18000) by {
            lemma_bishop_term_within(*pos, *p, c, t);
        }
        lemma_sum_within(bb, f, 18000);
        assert forall|t: int| bit_set(bb, t) implies 0 <= #[trigger] h(t) <= 13 by {
            lemma_bishop_count(t, pos.all_bb());
            lemma_popcount_and(bishop_attacks_spec(t, pos.all_bb()), ring);
        }
        lemma_count_within(bb, h, 13);
        lemma_bit_algebra(bb, bb, bb);
        lemma_bit_algebra(union_over(bb, g), 0, 0);
    }
    let ghost start = sv(acc);
    let mut control: u64 = 0;
    let mut hits: u32 = 0;
    let mut rest = pieces;
    while !rest.is_empty()
        invariant
            bbs.wf(),
            params_ok(*p),
            pawns_ok(*pos),
            bb == pos.piece_bb(c, Piece::Bishop),
            f == bishop_fn(*pos, *p, c),
            g == bishop_ctl(*pos),
            h == hits_fn(bishop_ctl(*pos), ring),
            forall|t: int| bit_set(bb, t) ==> within(#[trigger] f(t), 18000),
            forall|t: int| bit_set(bb, t) ==> 0 <= #[trigger] h(t) <= 13,
            rest.0 & bb == rest.0,
            within(start, 195000),
            within(sum_over(bb, f), 1152000),
            0 <= count_over(bb, h) <= 13 * 64,
            sv(acc) == plus(start, (sum_over(bb, f).0 - sum_over(rest.0, f).0, sum_over(bb, f).1
                - sum_over(rest.0, f).1)),
            control | union_over(rest.0, g) == union_over(bb, g),
            hits + count_over(rest.0, h) == count_over(bb, h),
        decreases rest.0,
    {
        let ghost old_rest = rest.0;
        proof {
            lemma_lowest(old_rest);
        }
        let sq = rest.pop_lsb();
        let (term, ctl, hit) = bishop_at(pos, bbs, p, c, sq, ring);
        proof {
            assert(sum_over(old_rest, f) == plus(sum_over(rest.0, f), f(sq@ as int)));
            assert(union_over(old_rest, g) == g(sq@ as int) | union_over(rest.0, g));
            assert(count_over(old_rest, h) == h(sq@ as int) + count_over(rest.0, h));
            let r = rest.0;
            lemma_subset_step(old_rest, bb);
            lemma_subset_within(r, bb, f, 18000);
            lemma_popcount_and(r, bb);
            crate::bitboard::lemma_popcount_bound(bb);
            lemma_subset_count(r, bb, h, 13);
            lemma_bit_algebra(control, ctl, union_over(r, g));
        }
        acc = sc_add(acc, term);
        control = control | ctl;
        hits = hits + hit;
    }
    proof {
        lemma_bit_algebra(control, 0, 0);
    }
    PieceSum { score: acc, control, hits }
}

/// The squares a rook on `s` controls in `pos`.
pub open spec fn rook_ctl(pos: Position) -> spec_fn(int) -> u64 {
    |s: int| rook_attacks_spec(s, pos.all_bb())
}

/// The seventh rank and the back rank as seen by `c`'s opponent.
pub open spec fn seventh_rank(c: Colour) -> u64 {
    if c == Colour::White {
        RANK_1 << 48u64
    } else {
        RANK_1 << 8u64
    }
}

pub open spec fn last_rank(c: Colour) -> u64 {
    if c == Colour::White {
        RANK_8
    } else {
        RANK_1
    }
}

/// The terms of a rook of `c` on `s`, `later` being the rooks of `c` above it: table,
/// mobility, a rook above it on its file within reach, a queen on its file, the seventh rank
/// (when enemy pawns are there or the enemy king is on its back rank), open and half-open
/// files, and the pawn count.
pub open spec fn rook_term(pos: Position, p: Params, c: Colour, s: int, later: u64) -> (int, int) {
    let them = c.other();
    let ctl = rook_attacks_spec(s, pos.all_bb());
    let files = file_mask(s);
    let mobility = popcount(ctl & !pos.occ_bb(c)) as int;
    let own_pawns = pos.piece_bb(c, Piece::Pawn);
    let opp_pawns = pos.piece_bb(them, Piece::Pawn);
    let queens = pos.piece_bb(c, Piece::Queen) | pos.piece_bb(them, Piece::Queen);
    let connected = if ctl & later & files != 0 {
        sv(p.connected_doubled_rooks)
    } else {
        nil()
    };
    let queen_file = if files & queens != 0 {
        sv(p.rook_on_queen_file)
    } else {
        nil()
    };
    let seventh = if bit(s) & seventh_rank(c) != 0 && (opp_pawns & seventh_rank(c) != 0
        || pos.piece_bb(them, Piece::King) & last_rank(c) != 0) {
        sv(p.rook_on_seventh)
    } else {
        nil()
    };
    let open = if own_pawns & files == 0 {
        if opp_pawns & files == 0 {
            sv(p.rook_open_file)
        } else {
            sv(p.rook_semi_open_file)
        }
    } else {
        nil()
    };
    plus(
        plus(
            plus(sv(p.rook_pst@[relative_sq(c, s)]), sv(p.rook_mobility@[mobility])),
            plus(connected, queen_file),
        ),
        plus(plus(seventh, open), sv(p.rook_adj@[popcount(own_pawns) as int])),
    )
}

/// `rook_term` for each square.
pub open spec fn rook_fn(pos: Position, p: Params, c: Colour) -> spec_fn(int, u64) -> (int, int) {
    |s: int, later: u64| rook_term(pos, p, c, s, later)
}

/// The rook terms of side `c`: material and every rook's term.
pub open spec fn rook_total(pos: Position, p: Params, c: Colour) -> (int, int) {
    let bb = pos.piece_bb(c, Piece::Rook);
    plus(times(p.rook_value, popcount(bb) as int), sum_after(bb, rook_fn(pos, p, c)))
}

proof fn lemma_rook_term_within(pos: Position, p: Params, c: Colour, s: int, later: u64)
    requires
        params_ok(p),
        pawns_ok(pos),
        0 <= s < 64,
    ensures
        within(rook_term(pos, p, c, s, later), 21000),
{
    let ctl = rook_attacks_spec(s, pos.all_bb());
    lemma_rook_count(s, pos.all_bb());
    lemma_popcount_and(ctl, !pos.occ_bb(c));
    assert(weight_ok(p.rook_pst@[relative_sq(c, s)]));
    assert(weight_ok(p.rook_mobility@[popcount(ctl & !pos.occ_bb(c)) as int]));
    assert(weight_ok(p.rook_adj@[popcount(pos.piece_bb(c, Piece::Pawn)) as int]));
}

/// The terms of a rook of `c` on `sq` (with `later` the rooks of `c` above it), its control
/// and its hits on `ring`.
#[verifier::rlimit(80)]
fn rook_at(pos: &Position, bbs: &Bitboards, p: &Params, c: Colour, sq: Square, later: u64, ring: u64) -> (r: (Score, u64, u32))
    requires
        bbs.wf(),
        params_ok(*p),
        pawns_ok(*pos),
        sq@ < 64,
    ensures
        sv(r.0) == rook_term(*pos, *p, c, sq@ as int, later),
        r.1 == rook_attacks_spec(sq@ as int, pos.all_bb()),
        r.2 == popcount(rook_attacks_spec(sq@ as int, pos.all_bb()) & ring),
        r.2 <= 14,
{
    let ghost s = sq@ as int;
    proof {
        lemma_rook_term_within(*pos, *p, c, s, later);
        lemma_rook_count(s, pos.all_bb());
        lemma_popcount_and(rook_attacks_spec(s, pos.all_bb()), ring);
        lemma_popcount_and(rook_attacks_spec(s, pos.all_bb()), !pos.occ_bb(c));
    }
    let them = c.opposite();
    let own = pos.occupancy[c.idx()].0;
    let own_pawns = pos.pieces[c.idx()][Piece::Pawn.idx()].0;
    let opp_pawns = pos.pieces[them.idx()][Piece::Pawn.idx()].0;
    let pawn_count = pos.pieces[c.idx()][Piece::Pawn.idx()].bit_count();
    let control = bbs.rook_attacks(sq, pos.occupancy[2]).0;
    let hits = count(control & ring);
    let mobility = count(control & !own);
    let file_bb = sq.file_bb().0;
    let rel = if c == Colour::White {
        (7 - sq.rank()) as usize * 8 + sq.file() as usize
    } else {
        sq.idx()
    };
    let pst = p.rook_pst[rel];
    let mob = p.rook_mobility[mobility as usize];
    let connected = if control & later & file_bb != 0 {
        p.connected_doubled_rooks
    } else {
        Score::zero()
    };
    let queens = pos.pieces[c.idx()][Piece::Queen.idx()].0 | pos.pieces[them.idx()][Piece::Queen.idx()].0;
    let queen_file = if file_bb & queens != 0 {
        p.rook_on_queen_file
    } else {
        Score::zero()
    };
    let (seventh, backrank): (u64, u64) = if c == Colour::White {
        (RANK_1 << 48u64, RANK_8)
    } else {
        (RANK_1 << 8u64, RANK_1)
    };
    let on_seventh = if sq.bit() & seventh != 0 && (opp_pawns & seventh != 0
        || pos.pieces[them.idx()][Piece::King.idx()].0 & backrank != 0) {
        p.rook_on_seventh
    } else {
        Score::zero()
    };
    let open = if own_pawns & file_bb == 0 {
        if opp_pawns & file_bb == 0 {
            p.rook_open_file
        } else {
            p.rook_semi_open_file
        }
    } else {
        Score::zero()
    };
    let adj = p.rook_adj[pawn_count as usize];
    assert(weight_ok(pst) && weight_ok(mob) && weight_ok(adj));
    (
        sc_add(
            sc_add(sc_add(pst, mob), sc_add(connected, queen_file)),
            sc_add(sc_add(on_seventh, open), adj),
        ),
        control,
        hits,
    )
}

/// The rook terms of side `c`, the squares its rooks control and their hits on `ring`.
fn evaluate_rooks(pos: &Position, bbs: &Bitboards, p: &Params, c: Colour, ring: u64) -> (r: PieceSum)
    requires
        bbs.wf(),
        params_ok(*p),
        pawns_ok(*pos),
    ensures
        sv(r.score) == rook_total(*pos, *p, c),
        r.control == union_over(pos.piece_bb(c, Piece::Rook), rook_ctl(*pos)),
        r.hits == count_over(pos.piece_bb(c, Piece::Rook), hits_fn(rook_ctl(*pos), ring)),
        r.hits <= 896,
        within(sv(r.score), 1_600_000),
{
    let pieces = pos.pieces[c.idx()][Piece::Rook.idx()];
    let ghost bb = pieces.0;
    let ghost f = rook_fn(*pos, *p, c);
    let ghost g = rook_ctl(*pos);
    let ghost h = hits_fn(rook_ctl(*pos), ring);
    let n = pieces.bit_count();
    let mut acc = sc_times(p.rook_value, n as i32);
    proof {
        assert forall|t: int, later: u64| bit_set(bb, t) implies within(#[trigger] f(t, later), 21000) by {
            lemma_rook_term_within(*pos, *p, c, t, later);
        }
        lemma_sum_after_within(bb, f, 21000);
        assert forall|t: int| bit_set(bb, t) implies 0 <= #[trigger] h(t) <= 14 by {
            lemma_rook_count(t, pos.all_bb());
            lemma_popcount_and(rook_attacks_spec(t, pos.all_bb()), ring);
        }
        lemma_count_within(bb, h, 14);
        lemma_bit_algebra(bb, bb, bb);
        lemma_bit_algebra(union_over(bb, g), 0, 0);
    }
    let ghost start = sv(acc);
    let mut control: u64 = 0;
    let mut hits: u32 = 0;
    let mut rest = pieces;
    while !rest.is_empty()
        invariant
            bbs.wf(),
            params_ok(*p),
            pawns_ok(*pos),
            bb == pos.piece_bb(c, Piece::Rook),
            f == rook_fn(*pos, *p, c),
            g == rook_ctl(*pos),
            h == hits_fn(rook_ctl(*pos), ring),
            forall|t: int, later: u64| bit_set(bb, t) ==> within(#[trigger] f(t, later), 21000),
            forall|t: int| bit_set(bb, t) ==> 0 <= #[trigger] h(t) <= 14,
            rest.0 & bb == rest.0,
            within(start, 192000),
            within(sum_after(bb, f), 1344000),
            0 <= count_over(bb, h) <= 14 * 64,
            sv(acc) == plus(start, (sum_after(bb, f).0 - sum_after(rest.0, f).0, sum_after(bb, f).1
                - sum_after(rest.0, f).1)),
            control | union_over(rest.0, g) == union_over(bb, g),
            hits + count_over(rest.0, h) == count_over(bb, h),
        decreases rest.0,
    {
        let ghost old_rest = rest.0;
        proof {
            lemma_lowest(old_rest);
        }
        let sq = rest.pop_lsb();
        let (term, ctl, hit) = rook_at(pos, bbs, p, c, sq, rest.0, ring);
        proof {
            assert(sum_after(old_rest, f) == plus(sum_after(rest.0, f), f(sq@ as int, rest.0)));
            assert(union_over(old_rest, g) == g(sq@ as int) | union_over(rest.0, g));
            assert(count_over(old_rest, h) == h(sq@ as int) + count_over(rest.0, h));
            let r = rest.0;
            lemma_subset_step(old_rest, bb);
            assert forall|t: int, later: u64| bit_set(r, t) implies within(#[trigger] f(t, later), 21000) by {
                lemma_subset_has(r, bb, t as u64);
                assert(bit_set(bb, t));
            }
            lemma_sum_after_within(r, f, 21000);
            lemma_popcount_and(r, bb);
            crate::bitboard::lemma_popcount_bound(bb);
            lemma_subset_count(r, bb, h, 14);
            lemma_bit_algebra(control, ctl, union_over(r, g));
        }
        acc = sc_add(acc, term);
        control = control | ctl;
        hits = hits + hit;
    }
    proof {
        lemma_bit_algebra(control, 0, 0);
    }
    PieceSum { score: acc, control, hits }
}

/// The squares a queen on `s` controls in `pos`.
pub open spec fn queen_ctl(pos: Position) -> spec_fn(int) -> u64 {
    |s: int| bishop_attacks_spec(s, pos.all_bb()) | rook_attacks_spec(s, pos.all_bb())
}

/// The knight and bishop squares of `c`'s back rank (b, c, f and g files).
pub open spec fn minor_home(c: Colour) -> u64 {
    if c == Colour::White {
        0x66u64
    } else {
        0x66u64 << 56u64
    }
}

/// The early-development penalty of a queen of `c` off its home square while minor pieces
/// are still at home: the number of them times one weight, plus another weight when the king
/// is also at home (middlegame only).
pub open spec fn queen_development(pos: Position, p: Params, c: Colour, s: int) -> (int, int) {
    let home = if c == Colour::White {
        3int
    } else {
        59int
    };
    let minors = pos.piece_bb(c, Piece::Knight) | pos.piece_bb(c, Piece::Bishop);
    let undeveloped = popcount(minor_home(c) & minors) as int;
    let king_home = if c == Colour::White {
        pos.white_king_square@ == 4
    } else {
        pos.black_king_square@ == 60
    };
    if s != home && undeveloped > 0 {
        (
            p.queen_undeveloped_piece_punishment.mg * undeveloped + p.queen_unmoved_king_punishment.mg
                * (if king_home {
                1int
            } else {
                0int
            }),
            0,
        )
    } else {
        nil()
    }
}

/// The terms of a queen of `c` on `s`: table, development and mobility.
pub open spec fn queen_term(pos: Position, p: Params, c: Colour, s: int) -> (int, int) {
    let ctl = bishop_attacks_spec(s, pos.all_bb()) | rook_attacks_spec(s, pos.all_bb());
    let mobility = popcount(ctl & !pos.occ_bb(c)) as int;
    plus(
        plus(sv(p.queen_pst@[relative_sq(c, s)]), queen_development(pos, p, c, s)),
        sv(p.queen_mobility@[mobility]),
    )
}

/// `queen_term` for each square.
pub open spec fn queen_fn(pos: Position, p: Params, c: Colour) -> spec_fn(int) -> (int, int) {
    |s: int| queen_term(pos, p, c, s)
}

/// The queen terms of side `c`: material and every queen's term.
pub open spec fn queen_total(pos: Position, p: Params, c: Colour) -> (int, int) {
    let bb = pos.piece_bb(c, Piece::Queen);
    plus(times(p.queen_value, popcount(bb) as int), sum_over(bb, queen_fn(pos, p, c)))
}

proof fn lemma_queen_count(s: int, occ: u64)
    requires
        0 <= s < 64,
    ensures
        popcount(bishop_attacks_spec(s, occ) | rook_attacks_spec(s, occ)) <= 27,
{
    lemma_bishop_count(s, occ);
    lemma_rook_count(s, occ);
    lemma_popcount_or(bishop_attacks_spec(s, occ), rook_attacks_spec(s, occ));
}

proof fn lemma_minor_home_count(c: Colour, x: u64)
    ensures
        popcount(minor_home(c) & x) <= 4,
{
    let (a, b, d, e): (u64, u64, u64, u64) = if c == Colour::White {
        (1, 2, 5, 6)
    } else {
        (57, 58, 61, 62)
    };
    let m = minor_home(c);
    assert(m == (1u64 << a) | (1u64 << b) | (1u64 << d) | (1u64 << e)) by (bit_vector)
        requires
            (m == 0x66u64 && a == 1 && b == 2 && d == 5 && e == 6) || (m == 0x66u64 << 56u64 && a
                == 57 && b == 58 && d == 61 && e == 62),
    ;
    lemma_popcount_bit(a);
    lemma_popcount_bit(b);
    lemma_popcount_bit(d);
    lemma_popcount_bit(e);
    lemma_popcount_or(1u64 << a, 1u64 << b);
    lemma_popcount_or((1u64 << a) | (1u64 << b), 1u64 << d);
    lemma_popcount_or((1u64 << a) | (1u64 << b) | (1u64 << d), 1u64 << e);
    lemma_popcount_and(m, x);
}

proof fn lemma_queen_term_within(pos: Position, p: Params, c: Colour, s: int)
    requires
        params_ok(p),
        0 <= s < 64,
    ensures
        within(queen_term(pos, p, c, s), 21000),
{
    let ctl = bishop_attacks_spec(s, pos.all_bb()) | rook_attacks_spec(s, pos.all_bb());
    lemma_queen_count(s, pos.all_bb());
    lemma_popcount_and(ctl, !pos.occ_bb(c));
    lemma_minor_home_count(c, pos.piece_bb(c, Piece::Knight) | pos.piece_bb(c, Piece::Bishop));
    assert(weight_ok(p.queen_pst@[relative_sq(c, s)]));
    assert(weight_ok(p.queen_mobility@[popcount(ctl & !pos.occ_bb(c)) as int]));
    let u = popcount(minor_home(c) & (pos.piece_bb(c, Piece::Knight) | pos.piece_bb(c, Piece::Bishop))) as int;
    assert(-12000 <= p.queen_undeveloped_piece_punishment.mg * u <= 12000) by (nonlinear_arith)
        requires
            weight_ok(p.queen_undeveloped_piece_punishment),
            0 <= u <= 4,
    ;
}

/// The terms of a queen of `c` on `sq`, its control and its hits on `ring`.
#[verifier::rlimit(80)]
fn queen_at(pos: &Position, bbs: &Bitboards, p: &Params, c: Colour, sq: Square, ring: u64) -> (r: (Score, u64, u32))
    requires
        bbs.wf(),
        params_ok(*p),
        sq@ < 64,
    ensures
        sv(r.0) == queen_term(*pos, *p, c, sq@ as int),
        r.1 == bishop_attacks_spec(sq@ as int, pos.all_bb()) | rook_attacks_spec(sq@ as int, pos.all_bb()),
        r.2 == popcount(r.1 & ring),
        r.2 <= 27,
{
    let ghost s = sq@ as int;
    let ghost ctl = bishop_attacks_spec(s, pos.all_bb()) | rook_attacks_spec(s, pos.all_bb());
    proof {
        lemma_queen_term_within(*pos, *p, c, s);
        lemma_queen_count(s, pos.all_bb());
        lemma_popcount_and(ctl, ring);
        lemma_popcount_and(ctl, !pos.occ_bb(c));
        lemma_minor_home_count(c, pos.piece_bb(c, Piece::Knight) | pos.piece_bb(c, Piece::Bishop));
    }
    let own = pos.occupancy[c.idx()].0;
    let control = bbs.bishop_attacks(sq, pos.occupancy[2]).0 | bbs.rook_attacks(sq, pos.occupancy[2]).0;
    let hits = count(control & ring);
    let mobility = count(control & !own);
    let rel = if c == Colour::White {
        (7 - sq.rank()) as usize * 8 + sq.file() as usize
    } else {
        sq.idx()
    };
    let pst = p.queen_pst[rel];
    let home: u8 = if c == Colour::White {
        3
    } else {
        59
    };
    let development = if sq.u8() != home {
        let back: u64 = if c == Colour::White {
            0x66
        } else {
            0x66u64 << 56u64
        };
        let minors = pos.pieces[c.idx()][Piece::Knight.idx()].0 | pos.pieces[c.idx()][Piece::Bishop.idx()].0;
        let undeveloped = count(back & minors) as i32;
        if undeveloped > 0 {
            let king_home: i32 = if c == Colour::White {
                if pos.white_king_square.u8() == 4 {
                    1
                } else {
                    0
                }
            } else {
                if pos.black_king_square.u8() == 60 {
                    1
                } else {
                    0
                }
            };
            let a = sc_times(p.queen_undeveloped_piece_punishment, undeveloped);
            let b = sc_times(p.queen_unmoved_king_punishment, king_home);
            proof {
                assert(-12000 <= a.mg <= 12000) by (nonlinear_arith)
                    requires
                        weight_ok(p.queen_undeveloped_piece_punishment),
                        0 <= undeveloped <= 4,
                        a.mg == p.queen_undeveloped_piece_punishment.mg * undeveloped,
                ;
                assert(-3000 <= b.mg <= 3000) by (nonlinear_arith)
                    requires
                        weight_ok(p.queen_unmoved_king_punishment),
                        0 <= king_home <= 1,
                        b.mg == p.queen_unmoved_king_punishment.mg * king_home,
                ;
            }
            Score { mg: a.mg + b.mg, eg: 0 }
        } else {
            Score::zero()
        }
    } else {
        Score::zero()
    };
    let mob = p.queen_mobility[mobility as usize];
    assert(weight_ok(pst) && weight_ok(mob));
    (sc_add(sc_add(pst, development), mob), control, hits)
}

/// The queen terms of side `c`, the squares its queens control and their hits on `ring`.
fn evaluate_queens(pos: &Position, bbs: &Bitboards, p: &Params, c: Colour, ring: u64) -> (r: PieceSum)
    requires
        bbs.wf(),
        params_ok(*p),
    ensures
        sv(r.score) == queen_total(*pos, *p, c),
        r.control == union_over(pos.piece_bb(c, Piece::Queen), queen_ctl(*pos)),
        r.hits == count_over(pos.piece_bb(c, Piece::Queen), hits_fn(queen_ctl(*pos), ring)),
        r.hits <= 1728,
        within(sv(r.score), 1_600_000),
{
    let pieces = pos.pieces[c.idx()][Piece::Queen.idx()];
    let ghost bb = pieces.0;
    let ghost f = queen_fn(*pos, *p, c);
    let ghost g = queen_ctl(*pos);
    let ghost h = hits_fn(queen_ctl(*pos), ring);
    let n = pieces.bit_count();
    let mut acc = sc_times(p.queen_value, n as i32);
    proof {
        assert forall|t: int| bit_set(bb, t) implies within(#[trigger] f(t), 21000) by {
            lemma_queen_term_within(*pos, *p, c, t);
        }
        lemma_sum_within(bb, f, 21000);
        assert forall|t: int| bit_set(bb, t) implies 0 <= #[trigger] h(t) <= 27 by {
            lemma_queen_count(t, pos.all_bb());
            lemma_popcount_and(bishop_attacks_spec(t, pos.all_bb()) | rook_attacks_spec(t, pos.all_bb()), ring);
        }
        lemma_count_within(bb, h, 27);
        lemma_bit_algebra(bb, bb, bb);
        lemma_bit_algebra(union_over(bb, g), 0, 0);
    }
    let ghost start = sv(acc);
    let mut control: u64 = 0;
    let mut hits: u32 = 0;
    let mut rest = pieces;
    while !rest.is_empty()
        invariant
            bbs.wf(),
            params_ok(*p),
            bb == pos.piece_bb(c, Piece::Queen),
            f == queen_fn(*pos, *p, c),
            g == queen_ctl(*pos),
            h == hits_fn(queen_ctl(*pos), ring),
            forall|t: int| bit_set(bb, t) ==> within(#[trigger] f(t), 21000),
            forall|t: int| bit_set(bb, t) ==> 0 <= #[trigger] h(t) <= 27,
            rest.0 & bb == rest.0,
            within(start, 192000),
            within(sum_over(bb, f), 1344000),
            0 <= count_over(bb, h) <= 27 * 64,
            sv(acc) == plus(start, (sum_over(bb, f).0 - sum_over(rest.0, f).0, sum_over(bb, f).1
                - sum_over(rest.0, f).1)),
            control | union_over(rest.0, g) == union_over(bb, g),
            hits + count_over(rest.0, h) == count_over(bb, h),
        decreases rest.0,
    {
        let ghost old_rest = rest.0;
        proof {
            lemma_lowest(old_rest);
        }
        let sq = rest.pop_lsb();
        let (term, ctl, hit) = queen_at(pos, bbs, p, c, sq, ring);
        proof {
            assert(sum_over(old_rest, f) == plus(sum_over(rest.0, f), f(sq@ as int)));
            assert(union_over(old_rest, g) == g(sq@ as int) | union_over(rest.0, g));
            assert(count_over(old_rest, h) == h(sq@ as int) + count_over(rest.0, h));
            let r = rest.0;
            lemma_subset_step(old_rest, bb);
            lemma_subset_within(r, bb, f, 21000);
            lemma_popcount_and(r, bb);
            crate::bitboard::lemma_popcount_bound(bb);
            lemma_subset_count(r, bb, h, 27);
            lemma_bit_algebra(control, ctl, union_over(r, g));
        }
        acc = sc_add(acc, term);
        control = control | ctl;
        hits = hits + hit;
    }
    proof {
        lemma_bit_algebra(control, 0, 0);
    }
    PieceSum { score: acc, control, hits }
}

// ---------------------------------------------------------------------------------------------
// Attack maps, threats and king safety.

/// The squares next to `c`'s king.
pub open spec fn ring(pos: Position, c: Colour) -> u64 {
    king_attacks_spec(pos.king_sq(c)@ as int)
}

/// The squares `c`'s pawns attack.
pub open spec fn pawn_att(pos: Position, c: Colour) -> u64 {
    pawn_attacks_spec(pos.piece_bb(c, Piece::Pawn), c)
}

pub open spec fn knight_att(pos: Position, c: Colour) -> u64 {
    union_over(pos.piece_bb(c, Piece::Knight), knight_ctl())
}

pub open spec fn bishop_att(pos: Position, c: Colour) -> u64 {
    union_over(pos.piece_bb(c, Piece::Bishop), bishop_ctl(pos))
}

pub open spec fn rook_att(pos: Position, c: Colour) -> u64 {
    union_over(pos.piece_bb(c, Piece::Rook), rook_ctl(pos))
}

pub open spec fn queen_att(pos: Position, c: Colour) -> u64 {
    union_over(pos.piece_bb(c, Piece::Queen), queen_ctl(pos))
}

/// Every square `c` attacks: the king's ring and the squares its pawns and pieces control.
pub open spec fn all_att(pos: Position, c: Colour) -> u64 {
    ring(pos, c) | pawn_att(pos, c) | knight_att(pos, c) | bishop_att(pos, c) | rook_att(pos, c)
        | queen_att(pos, c)
}

/// The number of squares of `x`, counted up to two.
pub open spec fn upto2(x: u64) -> int {
    if popcount(x) < 2 {
        popcount(x) as int
    } else {
        2
    }
}

/// The threats of `c` on the enemy's pieces: pawns hitting minors and majors, undefended
/// minors and rooks under attack (each counted up to two), and the enemy queen hanging, hit
/// by a rook or hit by a minor.
pub open spec fn threat_total(pos: Position, p: Params, c: Colour) -> (int, int) {
    let them = c.other();
    let minors = pos.piece_bb(them, Piece::Knight) | pos.piece_bb(them, Piece::Bishop);
    let majors = pos.piece_bb(them, Piece::Rook) | pos.piece_bb(them, Piece::Queen);
    let rooks = pos.piece_bb(them, Piece::Rook);
    let queen = pos.piece_bb(them, Piece::Queen);
    let pa = pawn_att(pos, c);
    let mine = all_att(pos, c);
    let theirs = all_att(pos, them);
    let queen_term = if queen & mine & !theirs != 0 {
        sv(p.hanging_queen)
    } else if queen & rook_att(pos, c) != 0 {
        sv(p.rook_threat_queen)
    } else if queen & (knight_att(pos, c) | bishop_att(pos, c)) != 0 {
        sv(p.minor_threat_queen)
    } else {
        nil()
    };
    plus(
        plus(
            plus(times(p.pawn_threat_minor, upto2(minors & pa)), times(p.pawn_threat_major, upto2(majors & pa))),
            plus(
                times(p.hanging_minor, upto2(minors & mine & !theirs)),
                times(p.hanging_rook, upto2(rooks & mine & !theirs)),
            ),
        ),
        queen_term,
    )
}

/// The attack maps of one side, as the evaluation gathers them.
#[derive(Copy, Clone, Debug)]
pub struct SideAttacks {
    pub pawns: u64,
    pub knights: u64,
    pub bishops: u64,
    pub rooks: u64,
    pub all: u64,
}

/// The attack maps of `c` in `pos`.
pub open spec fn attacks_of(a: SideAttacks, pos: Position, c: Colour) -> bool {
    &&& a.pawns == pawn_att(pos, c)
    &&& a.knights == knight_att(pos, c)
    &&& a.bishops == bishop_att(pos, c)
    &&& a.rooks == rook_att(pos, c)
    &&& a.all == all_att(pos, c)
}

/// `x` counted up to two, as a multiplier.
fn upto2_of(x: u64) -> (r: i32)
    ensures
        r == upto2(x),
        0 <= r <= 2,
{
    let n = count(x);
    if n < 2 {
        n as i32
    } else {
        2
    }
}

/// The threats of `c`; see `threat_total`.
fn evaluate_threats(pos: &Position, p: &Params, c: Colour, us: &SideAttacks, them_att: &SideAttacks) -> (r: Score)
    requires
        params_ok(*p),
        attacks_of(*us, *pos, c),
        attacks_of(*them_att, *pos, c.other()),
    ensures
        sv(r) == threat_total(*pos, *p, c),
        within(sv(r), 27000),
{
    let them = c.opposite();
    let ti = them.idx();
    let minors = pos.pieces[ti][Piece::Knight.idx()].0 | pos.pieces[ti][Piece::Bishop.idx()].0;
    let majors = pos.pieces[ti][Piece::Rook.idx()].0 | pos.pieces[ti][Piece::Queen.idx()].0;
    let rooks = pos.pieces[ti][Piece::Rook.idx()].0;
    let queen = pos.pieces[ti][Piece::Queen.idx()].0;
    let a = sc_times(p.pawn_threat_minor, upto2_of(minors & us.pawns));
    let b = sc_times(p.pawn_threat_major, upto2_of(majors & us.pawns));
    let cc = sc_times(p.hanging_minor, upto2_of(minors & us.all & !them_att.all));
    let d = sc_times(p.hanging_rook, upto2_of(rooks & us.all & !them_att.all));
    proof {
        assert forall|w: Score, k: int| weight_ok(w) && 0 <= k <= 2 implies #[trigger] within(times(w, k), 6000) by {
            assert(within(times(w, k), 6000)) by (nonlinear_arith)
                requires
                    weight_ok(w),
                    0 <= k <= 2,
            ;
        }
        assert(within(times(p.pawn_threat_minor, upto2(minors & us.pawns)), 6000));
        assert(within(times(p.pawn_threat_major, upto2(majors & us.pawns)), 6000));
        assert(within(times(p.hanging_minor, upto2(minors & us.all & !them_att.all)), 6000));
        assert(within(times(p.hanging_rook, upto2(rooks & us.all & !them_att.all)), 6000));
    }
    let q = if queen & us.all & !them_att.all != 0 {
        p.hanging_queen
    } else if queen & us.rooks != 0 {
        p.rook_threat_queen
    } else if queen & (us.knights | us.bishops) != 0 {
        p.minor_threat_queen
    } else {
        Score::zero()
    };
    sc_add(sc_add(sc_add(a, b), sc_add(cc, d)), q)
}

/// The hits of `by`'s pawns and pieces on the ring of `c`'s king, each weighted
/// (middlegame, endgame).
pub open spec fn ring_units(pos: Position, p: Params, c: Colour) -> (int, int) {
    let by = c.other();
    let r = ring(pos, c);
    let hp = popcount(pawn_att(pos, by) & r) as int;
    let hn = count_over(pos.piece_bb(by, Piece::Knight), hits_fn(knight_ctl(), r));
    let hb = count_over(pos.piece_bb(by, Piece::Bishop), hits_fn(bishop_ctl(pos), r));
    let hr = count_over(pos.piece_bb(by, Piece::Rook), hits_fn(rook_ctl(pos), r));
    let hq = count_over(pos.piece_bb(by, Piece::Queen), hits_fn(queen_ctl(pos), r));
    plus(
        plus(plus(times(p.king_ring_pawn_weight, hp), times(p.king_ring_knight_weight, hn)), plus(
            times(p.king_ring_bishop_weight, hb),
            times(p.king_ring_rook_weight, hr),
        )),
        times(p.king_ring_queen_weight, hq),
    )
}

/// `x` capped at 23.
pub open spec fn cap23(x: int) -> int {
    if x < 23 {
        x
    } else {
        23
    }
}

/// The pawn-shield files of a king on `s`: its file and the two next to it.
pub open spec fn shield_zone(s: int) -> u64 {
    file_mask(s) | shift_spec(file_mask(s), Direction::East) | shift_spec(file_mask(s), Direction::West)
}

/// The distance bucket of a pawn on `s` from `c`'s back rank: 0 to 3 for ranks one to four
/// away or more.
pub open spec fn rank_distance(c: Colour, s: int) -> int {
    let d = if c == Colour::White {
        rank_of(s)
    } else {
        7 - rank_of(s)
    };
    (if d < 4 {
        d
    } else {
        4
    }) - 1
}

/// The entry of `table` for the distance of each square from `c`'s back rank.
pub open spec fn dist_fn(table: Seq<Score>, c: Colour) -> spec_fn(int) -> (int, int) {
    |s: int| sv(table[rank_distance(c, s)])
}

/// The king-safety terms of `c`: table, open or half-open file, the weighted hits on its ring
/// (each phase capped at 23), the pawn shield (each pawn by distance, and three pawns short),
/// the enemy pawn storm, and the squares a queen on the king's square would reach.
pub open spec fn king_total(pos: Position, p: Params, kvm: Seq<Score>, c: Colour) -> (int, int) {
    let them = c.other();
    let king = pos.king_sq(c)@ as int;
    let own_pawns = pos.piece_bb(c, Piece::Pawn);
    let opp_pawns = pos.piece_bb(them, Piece::Pawn);
    let files = file_mask(king);
    let open = if own_pawns & files == 0 {
        if opp_pawns & files == 0 {
            sv(p.king_on_open_file)
        } else {
            sv(p.king_on_semi_open_file)
        }
    } else {
        nil()
    };
    let units = ring_units(pos, p, c);
    let attacks = (
        p.king_ring_attacks@[cap23(units.0)].mg as int,
        p.king_ring_attacks@[cap23(units.1)].eg as int,
    );
    let shield = own_pawns & shield_zone(king);
    let n = popcount(shield) as int;
    let missing = if n < 3 {
        times(p.king_shield_missing_pawn, 3 - n)
    } else {
        nil()
    };
    let occ = pos.all_bb() ^ bit(king);
    let reach = bishop_attacks_spec(king, occ) | rook_attacks_spec(king, occ);
    let virtual_mobility = popcount(reach & !pos.occ_bb(c)) as int;
    plus(
        plus(plus(sv(p.king_pst@[relative_sq(c, king)]), open), plus(attacks, sum_over(shield, dist_fn(p.king_pawn_shield_distance@, c)))),
        plus(plus(missing, sum_over(opp_pawns & shield_zone(king), dist_fn(p.enemy_pawn_distance_from_backrank@, c))), sv(kvm[virtual_mobility])),
    )
}

/// The entries of `table` for the pawns `bb` by distance from `c`'s back rank; see `dist_fn`.
fn distance_terms(bb: u64, table: &[Score; 4], c: Colour) -> (r: Score)
    requires
        weights_ok(table@),
        bb & (RANK_1 | RANK_8) == 0,
        popcount(bb) <= 8,
    ensures
        sv(r) == sum_over(bb, dist_fn(table@, c)),
        within(sv(r), 24000),
{
    let ghost f = dist_fn(table@, c);
    proof {
        assert forall|t: int| bit_set(bb, t) implies within(#[trigger] f(t), 3000) by {
            lemma_inner_rank(bb, t);
            assert(weight_ok(table@[rank_distance(c, t)]));
        }
        lemma_sum_within(bb, f, 3000);
        lemma_bit_algebra(bb, bb, bb);
    }
    let mut acc = Score::zero();
    let mut rest = Bitboard::new(bb);
    while !rest.is_empty()
        invariant
            weights_ok(table@),
            f == dist_fn(table@, c),
            forall|t: int| bit_set(bb, t) ==> within(#[trigger] f(t), 3000),
            bb & (RANK_1 | RANK_8) == 0,
            popcount(bb) <= 8,
            rest.0 & bb == rest.0,
            within(sum_over(bb, f), 24000),
            sv(acc) == (sum_over(bb, f).0 - sum_over(rest.0, f).0, sum_over(bb, f).1 - sum_over(rest.0, f).1),
        decreases rest.0,
    {
        let ghost old_rest = rest.0;
        proof {
            lemma_lowest(old_rest);
        }
        let sq = rest.pop_lsb();
        proof {
            lemma_subset_has(old_rest, bb, sq@ as u64);
            lemma_inner_rank(bb, sq@ as int);
            assert(sum_over(old_rest, f) == plus(sum_over(rest.0, f), f(sq@ as int)));
            let r = rest.0;
            lemma_subset_step(old_rest, bb);
            lemma_subset_within(r, bb, f, 3000);
            lemma_popcount_and(r, bb);
        }
        let d = if c == Colour::White {
            sq.rank()
        } else {
            7 - sq.rank()
        };
        let bucket = (if d < 4 {
            d
        } else {
            4
        }) - 1;
        let e = table[bucket as usize];
        assert(weight_ok(e));
        acc = sc_add(acc, e);
    }
    acc
}

/// The king-safety terms of `c`; see `king_total`. `them_pawns` holds the squares the enemy
/// pawns attack and `hn`, `hb`, `hr`, `hq` the hits of the enemy pieces on `c`'s king ring.
#[verifier::rlimit(100)]
fn evaluate_king_safety(
    pos: &Position,
    bbs: &Bitboards,
    p: &Params,
    kvm: &[Score; 28],
    c: Colour,
    them_pawns: u64,
    hn: u32,
    hb: u32,
    hr: u32,
    hq: u32,
) -> (r: Score)
    requires
        bbs.wf(),
        params_ok(*p),
        weights_ok(kvm@),
        pawns_ok(*pos),
        pos.king_sq(c)@ < 64,
        them_pawns == pawn_att(*pos, c.other()),
        hn == count_over(pos.piece_bb(c.other(), Piece::Knight), hits_fn(knight_ctl(), ring(*pos, c))),
        hb == count_over(pos.piece_bb(c.other(), Piece::Bishop), hits_fn(bishop_ctl(*pos), ring(*pos, c))),
        hr == count_over(pos.piece_bb(c.other(), Piece::Rook), hits_fn(rook_ctl(*pos), ring(*pos, c))),
        hq == count_over(pos.piece_bb(c.other(), Piece::Queen), hits_fn(queen_ctl(*pos), ring(*pos, c))),
        hn <= 512,
        hb <= 832,
        hr <= 896,
        hq <= 1728,
        ring_units(*pos, *p, c).0 >= 0,
        ring_units(*pos, *p, c).1 >= 0,
    ensures
        sv(r) == king_total(*pos, *p, kvm@, c),
        within(sv(r), 69000),
{
    let them = c.opposite();
    let king = if c == Colour::White {
        pos.white_king_square
    } else {
        pos.black_king_square
    };
    let ghost ks = king@ as int;
    let own_pawns = pos.pieces[c.idx()][Piece::Pawn.idx()].0;
    let opp_pawns = pos.pieces[them.idx()][Piece::Pawn.idx()].0;
    let rel = if c == Colour::White {
        (7 - king.rank()) as usize * 8 + king.file() as usize
    } else {
        king.idx()
    };
    let pst = p.king_pst[rel];
    assert(weight_ok(pst));
    let file_bb = king.file_bb().0;
    let open = if own_pawns & file_bb == 0 {
        if opp_pawns & file_bb == 0 {
            p.king_on_open_file
        } else {
            p.king_on_semi_open_file
        }
    } else {
        Score::zero()
    };
    let ring_bb = bbs.king_attacks(king).0;
    let hp = count(them_pawns & ring_bb);
    let wp = p.king_ring_pawn_weight;
    let wn = p.king_ring_knight_weight;
    let wb = p.king_ring_bishop_weight;
    let wr = p.king_ring_rook_weight;
    let wq = p.king_ring_queen_weight;
    proof {
        assert(-192000 <= wp.mg * hp <= 192000 && -192000 <= wp.eg * hp <= 192000) by (nonlinear_arith)
            requires
                weight_ok(wp),
                0 <= hp <= 64,
        ;
        assert(-1536000 <= wn.mg * hn <= 1536000 && -1536000 <= wn.eg * hn <= 1536000) by (nonlinear_arith)
            requires
                weight_ok(wn),
                0 <= hn <= 512,
        ;
        assert(-2496000 <= wb.mg * hb <= 2496000 && -2496000 <= wb.eg * hb <= 2496000) by (nonlinear_arith)
            requires
                weight_ok(wb),
                0 <= hb <= 832,
        ;
        assert(-2688000 <= wr.mg * hr <= 2688000 && -2688000 <= wr.eg * hr <= 2688000) by (nonlinear_arith)
            requires
                weight_ok(wr),
                0 <= hr <= 896,
        ;
        assert(-5184000 <= wq.mg * hq <= 5184000 && -5184000 <= wq.eg * hq <= 5184000) by (nonlinear_arith)
            requires
                weight_ok(wq),
                0 <= hq <= 1728,
        ;
    }
    let hn_i = hn as i32;
    let hb_i = hb as i32;
    let hr_i = hr as i32;
    let hq_i = hq as i32;
    let hp_i = hp as i32;
    let mg_units = wp.mg * hp_i + wn.mg * hn_i + wb.mg * hb_i + wr.mg * hr_i + wq.mg * hq_i;
    let eg_units = wp.eg * hp_i + wn.eg * hn_i + wb.eg * hb_i + wr.eg * hr_i + wq.eg * hq_i;
    let mg_idx = if mg_units < 23 {
        mg_units
    } else {
        23
    };
    let eg_idx = if eg_units < 23 {
        eg_units
    } else {
        23
    };
    let ring_mg = p.king_ring_attacks[mg_idx as usize];
    let ring_eg = p.king_ring_attacks[eg_idx as usize];
    assert(weight_ok(ring_mg) && weight_ok(ring_eg));
    let attacks = Score { mg: ring_mg.mg, eg: ring_eg.eg };
    let zone = file_bb | shifted(file_bb, Direction::East) | shifted(file_bb, Direction::West);
    let shield_bb = own_pawns & zone;
    let storm_bb = opp_pawns & zone;
    proof {
        lemma_popcount_and(own_pawns, zone);
        lemma_popcount_and(opp_pawns, zone);
        let m = RANK_1 | RANK_8;
        lemma_bit_algebra(own_pawns, zone, m);
        lemma_bit_algebra(opp_pawns, zone, m);
        lemma_bit_algebra(zone, 0, 0);
    }
    let shield = distance_terms(shield_bb, &p.king_pawn_shield_distance, c);
    let n = count(shield_bb) as i32;
    let missing = if n < 3 {
        sc_times(p.king_shield_missing_pawn, 3 - n)
    } else {
        Score::zero()
    };
    proof {
        if n < 3 {
            assert(within(sv(missing), 9000)) by (nonlinear_arith)
                requires
                    weight_ok(p.king_shield_missing_pawn),
                    1 <= 3 - n <= 3,
                    sv(missing) == times(p.king_shield_missing_pawn, 3 - n),
            ;
        }
    }
    let storm = distance_terms(storm_bb, &p.enemy_pawn_distance_from_backrank, c);
    let occ = pos.occupancy[2].0 ^ king.bit();
    let reach = bbs.bishop_attacks(king, Bitboard::new(occ)).0 | bbs.rook_attacks(king, Bitboard::new(occ)).0;
    proof {
        lemma_queen_count(ks, occ);
        lemma_popcount_and(reach, !pos.occ_bb(c));
    }
    let vm = count(reach & !pos.occupancy[c.idx()].0);
    let virtual_mobility = kvm[vm as usize];
    assert(weight_ok(virtual_mobility));
    proof {
        assert(ring_units(*pos, *p, c) == (mg_units as int, eg_units as int));
    }
    sc_add(
        sc_add(sc_add(pst, open), sc_add(attacks, shield)),
        sc_add(sc_add(missing, storm), virtual_mobility),
    )
}

// ---------------------------------------------------------------------------------------------
// Drawish endings and the whole evaluation.

/// The number of pieces `piece` of `c`.
pub open spec fn tally(pos: Position, c: Colour, piece: Piece) -> int {
    popcount(pos.piece_bb(c, piece)) as int
}

pub open spec fn both(pos: Position, piece: Piece) -> int {
    tally(pos, Colour::White, piece) + tally(pos, Colour::Black, piece)
}

pub open spec fn minors_of(pos: Position, c: Colour) -> int {
    tally(pos, c, Piece::Knight) + tally(pos, c, Piece::Bishop)
}

pub open spec fn majors_of(pos: Position, c: Colour) -> int {
    tally(pos, c, Piece::Rook) + tally(pos, c, Piece::Queen)
}

pub open spec fn non_king_of(pos: Position, c: Colour) -> int {
    tally(pos, c, Piece::Pawn) + minors_of(pos, c) + majors_of(pos, c)
}

/// How much of the evaluation (out of 128) the side `strong` keeps in endings that are hard
/// to win: two knights against a bare king; no pawns (queen, rook, lone or two minors);
/// opposite-coloured bishops; minor-piece endings with few pawns; rook endings.
pub open spec fn drawish_scale(pos: Position, strong: Colour) -> int {
    let weak = strong.other();
    let pawns_s = tally(pos, strong, Piece::Pawn);
    let pawns_w = tally(pos, weak, Piece::Pawn);
    let pawns_both = both(pos, Piece::Pawn);
    let minors_both = minors_of(pos, Colour::White) + minors_of(pos, Colour::Black);
    let majors_both = majors_of(pos, Colour::White) + majors_of(pos, Colour::Black);
    let pawn_adv = pawns_s - pawns_w;
    if non_king_of(pos, weak) == 0 && non_king_of(pos, strong) == 2 && tally(pos, strong, Piece::Knight) == 2 {
        1
    } else if pawns_s == 0 && tally(pos, strong, Piece::Queen) > 0 {
        96
    } else if pawns_s == 0 && tally(pos, strong, Piece::Rook) > 0 {
        if tally(pos, weak, Piece::Queen) == 0 {
            64
        } else {
            32
        }
    } else if pawns_s == 0 && minors_both == 1 {
        0
    } else if pawns_s == 0 && tally(pos, strong, Piece::Knight) == 2 && minors_both == 2 {
        1
    } else if pawns_s == 0 && minors_of(pos, strong) == 2 {
        128
    } else if majors_both == 0 && both(pos, Piece::Knight) == 0 && tally(pos, strong, Piece::Bishop) == 1
        && tally(pos, weak, Piece::Bishop) == 1 {
        let sb = u64_trailing_zeros(pos.piece_bb(strong, Piece::Bishop)) as int;
        let wb = u64_trailing_zeros(pos.piece_bb(weak, Piece::Bishop)) as int;
        if crate::types::square_colour(sb) == crate::types::square_colour(wb) {
            128
        } else if pawns_both == 0 {
            1
        } else if pawn_adv <= 0 {
            48
        } else if pawn_adv == 1 {
            32
        } else if pawn_adv == 2 {
            56
        } else if pawn_adv == 3 {
            80
        } else {
            104
        }
    } else if majors_both == 0 {
        let minor_adv = minors_of(pos, strong) - minors_of(pos, weak);
        if minors_both == 0 || pawns_both >= 3 {
            128
        } else if minor_adv <= -1 {
            64
        } else if minor_adv == 0 {
            if pawn_adv <= 0 {
                64
            } else if pawn_adv == 1 {
                72
            } else {
                96
            }
        } else if minor_adv == 1 {
            if pawns_both == 0 {
                64
            } else if pawns_both == 1 {
                80
            } else {
                96
            }
        } else {
            112
        }
    } else if both(pos, Piece::Queen) == 0 && minors_both == 0 && tally(pos, strong, Piece::Rook) == 1
        && tally(pos, weak, Piece::Rook) == 1 {
        if pawns_both == 0 {
            128
        } else if pawn_adv <= 0 {
            96
        } else if pawn_adv == 1 {
            if pawns_both <= 2 {
                72
            } else if pawns_both <= 4 {
                80
            } else {
                88
            }
        } else if pawn_adv == 2 {
            if pawns_both <= 4 {
                96
            } else {
                104
            }
        } else {
            112
        }
    } else {
        128
    }
}

/// An evaluation scaled down in drawish endings for the side it favours.
pub open spec fn scaled(pos: Position, e: int) -> int {
    if e == 0 {
        0
    } else {
        let strong = if e > 0 {
            pos.side_to_move
        } else {
            pos.side_to_move.other()
        };
        crate::params::helpers::trunc_div(e * drawish_scale(pos, strong), 128)
    }
}

/// The number of pieces `piece` of `c`.
fn tally_of(pos: &Position, c: Colour, piece: Piece) -> (r: i32)
    ensures
        r == tally(*pos, c, piece),
        0 <= r <= 64,
{
    pos.pieces[c.idx()][piece.idx()].bit_count() as i32
}

/// The scale for `strong`; see `drawish_scale`.
fn draw_scale(pos: &Position, strong: Colour) -> (r: i32)
    ensures
        r == drawish_scale(*pos, strong),
        0 <= r <= 128,
{
    let weak = strong.opposite();
    let pawns_s = tally_of(pos, strong, Piece::Pawn);
    let pawns_w = tally_of(pos, weak, Piece::Pawn);
    let knights_s = tally_of(pos, strong, Piece::Knight);
    let knights_w = tally_of(pos, weak, Piece::Knight);
    let bishops_s = tally_of(pos, strong, Piece::Bishop);
    let bishops_w = tally_of(pos, weak, Piece::Bishop);
    let rooks_s = tally_of(pos, strong, Piece::Rook);
    let rooks_w = tally_of(pos, weak, Piece::Rook);
    let queens_s = tally_of(pos, strong, Piece::Queen);
    let queens_w = tally_of(pos, weak, Piece::Queen);
    let minors_s = knights_s + bishops_s;
    let minors_w = knights_w + bishops_w;
    let majors_s = rooks_s + queens_s;
    let majors_w = rooks_w + queens_w;
    let pawns_both = pawns_s + pawns_w;
    let minors_both = minors_s + minors_w;
    let majors_both = majors_s + majors_w;
    let pawn_adv = pawns_s - pawns_w;
    if pawns_w + minors_w + majors_w == 0 && pawns_s + minors_s + majors_s == 2 && knights_s == 2 {
        return 1;
    }
    if pawns_s == 0 {
        if queens_s > 0 {
            return 96;
        }
        if rooks_s > 0 {
            return if queens_w == 0 {
                64
            } else {
                32
            };
        }
        if minors_both == 1 {
            return 0;
        }
        if knights_s == 2 && minors_both == 2 {
            return 1;
        }
        if minors_s == 2 {
            return 128;
        }
    }
    if majors_both == 0 && knights_s + knights_w == 0 && bishops_s == 1 && bishops_w == 1 {
        let strong_bishop = pos.pieces[strong.idx()][Piece::Bishop.idx()].lsb();
        let weak_bishop = pos.pieces[weak.idx()][Piece::Bishop.idx()].lsb();
        let same = match (strong_bishop.colour(), weak_bishop.colour()) {
            (Colour::White, Colour::White) => true,
            (Colour::Black, Colour::Black) => true,
            _ => false,
        };
        if same {
            return 128;
        }
        if pawns_both == 0 {
            return 1;
        }
        return if pawn_adv <= 0 {
            48
        } else if pawn_adv == 1 {
            32
        } else if pawn_adv == 2 {
            56
        } else if pawn_adv == 3 {
            80
        } else {
            104
        };
    }
    if majors_both == 0 {
        if minors_both == 0 || pawns_both >= 3 {
            return 128;
        }
        let minor_adv = minors_s - minors_w;
        return if minor_adv <= -1 {
            64
        } else if minor_adv == 0 {
            if pawn_adv <= 0 {
                64
            } else if pawn_adv == 1 {
                72
            } else {
                96
            }
        } else if minor_adv == 1 {
            if pawns_both == 0 {
                64
            } else if pawns_both == 1 {
                80
            } else {
                96
            }
        } else {
            112
        };
    }
    if queens_s + queens_w == 0 && minors_both == 0 && rooks_s == 1 && rooks_w == 1 {
        if pawns_both == 0 {
            return 128;
        }
        return if pawn_adv <= 0 {
            96
        } else if pawn_adv == 1 {
            if pawns_both <= 2 {
                72
            } else if pawns_both <= 4 {
                80
            } else {
                88
            }
        } else if pawn_adv == 2 {
            if pawns_both <= 4 {
                96
            } else {
                104
            }
        } else {
            112
        };
    }
    128
}

/// Scales an evaluation down in drawish endings; see `scaled`.
fn scale_drawish(pos: &Position, eval: i32) -> (r: i32)
    requires
        -16_000_000 <= eval <= 16_000_000,
    ensures
        r == scaled(*pos, eval as int),
        -16_000_000 <= r <= 16_000_000,
{
    if eval == 0 {
        return 0;
    }
    let strong = if eval > 0 {
        pos.side_to_move
    } else {
        pos.side_to_move.opposite()
    };
    let scale = draw_scale(pos, strong);
    proof {
        assert(-2_048_000_000 <= eval * scale <= 2_048_000_000) by (nonlinear_arith)
            requires
                -16_000_000 <= eval <= 16_000_000,
                0 <= scale <= 128,
        ;
    }
    let x = eval * scale;
    proof {
        assert(-2_048_000_000 <= x <= 2_048_000_000);
        assert(x >= 0 ==> x / 128 <= 16_000_000) by (nonlinear_arith)
            requires
                x == eval * scale,
                eval <= 16_000_000,
                0 <= scale <= 128,
        ;
        assert(x < 0 ==> (-x) / 128 <= 16_000_000) by (nonlinear_arith)
            requires
                x == eval * scale,
                -16_000_000 <= eval,
                0 <= scale <= 128,
        ;
    }
    if x >= 0 {
        x / 128
    } else {
        -((-x) / 128)
    }
}

/// The score of side `c`: its pawns, pieces, threats and king safety, from its point of view.
pub open spec fn side_total(pos: Position, p: Params, kvm: Seq<Score>, c: Colour) -> (int, int) {
    plus(
        plus(plus(pawn_total(pos, p, c), knight_total(pos, p, c)), plus(bishop_total(pos, p, c), rook_total(pos, p, c))),
        plus(plus(queen_total(pos, p, c), threat_total(pos, p, c)), king_total(pos, p, kvm, c)),
    )
}

/// White's score less black's (middlegame, endgame).
pub open spec fn eval_score(pos: Position, p: Params, kvm: Seq<Score>) -> (int, int) {
    let w = side_total(pos, p, kvm, Colour::White);
    let b = side_total(pos, p, kvm, Colour::Black);
    (w.0 - b.0, w.1 - b.1)
}

/// The full evaluation: the score blended by phase, from the side to move's point of view,
/// scaled down in drawish endings.
pub open spec fn eval_spec(pos: Position, p: Params, kvm: Seq<Score>) -> int {
    let s = eval_score(pos, p, kvm);
    scaled(pos, taper_spec(s.0, s.1, phase_spec(pos), pos.side_to_move))
}

/// What the full evaluation needs: weights within bounds, pawns on inner ranks (at most eight
/// a side), both kings on the board, and no side's weighted king-ring hits below zero.
pub open spec fn eval_ok(pos: Position, p: Params, kvm: Seq<Score>) -> bool {
    &&& params_ok(p)
    &&& weights_ok(kvm)
    &&& pawns_ok(pos)
    &&& pos.white_king_square@ < 64
    &&& pos.black_king_square@ < 64
    &&& ring_units(pos, p, Colour::White).0 >= 0
    &&& ring_units(pos, p, Colour::White).1 >= 0
    &&& ring_units(pos, p, Colour::Black).0 >= 0
    &&& ring_units(pos, p, Colour::Black).1 >= 0
}

proof fn lemma_taper_within(mg: int, eg: int, phase: int, us: Colour, m: int)
    requires
        0 <= phase,
        0 <= m,
        -m <= mg <= m,
        -m <= eg <= m,
    ensures
        -m <= taper_spec(mg, eg, phase, us) <= m,
{
    let p = if phase < 24 {
        phase
    } else {
        24
    };
    assert(-24 * m <= p * mg + (24 - p) * eg <= 24 * m) by (nonlinear_arith)
        requires
            0 <= p <= 24,
            -m <= mg <= m,
            -m <= eg <= m,
    ;
}

/// Evaluates `pos` with the weights `params` and the king mobility table `king_mobility`;
/// see `eval_spec`.
#[verifier::rlimit(100)]
pub fn evaluate_with(pos: &Position, bbs: &Bitboards, params: &Params, king_mobility: &[Score; 28]) -> (r: Eval)
    requires
        bbs.wf(),
        eval_ok(*pos, *params, king_mobility@),
    ensures
        r == eval_spec(*pos, *params, king_mobility@),
        -16_000_000 <= r <= 16_000_000,
{
    let p = params;
    let white = Colour::White;
    let black = Colour::Black;
    let ring_w = bbs.king_attacks(pos.white_king_square).0;
    let ring_b = bbs.king_attacks(pos.black_king_square).0;
    let wp = evaluate_pawns(pos, p, white);
    let bp = evaluate_pawns(pos, p, black);
    let wpa = pawn_attacks_of(pos.pieces[0][Piece::Pawn.idx()].0, white);
    let bpa = pawn_attacks_of(pos.pieces[1][Piece::Pawn.idx()].0, black);
    let wn = evaluate_knights(pos, bbs, p, white, ring_b);
    let bn = evaluate_knights(pos, bbs, p, black, ring_w);
    let wb = evaluate_bishops(pos, bbs, p, white, ring_b);
    let bb = evaluate_bishops(pos, bbs, p, black, ring_w);
    let wr = evaluate_rooks(pos, bbs, p, white, ring_b);
    let br = evaluate_rooks(pos, bbs, p, black, ring_w);
    let wq = evaluate_queens(pos, bbs, p, white, ring_b);
    let bq = evaluate_queens(pos, bbs, p, black, ring_w);
    let wa = SideAttacks {
        pawns: wpa,
        knights: wn.control,
        bishops: wb.control,
        rooks: wr.control,
        all: ring_w | wpa | wn.control | wb.control | wr.control | wq.control,
    };
    let ba = SideAttacks {
        pawns: bpa,
        knights: bn.control,
        bishops: bb.control,
        rooks: br.control,
        all: ring_b | bpa | bn.control | bb.control | br.control | bq.control,
    };
    let wt = evaluate_threats(pos, p, white, &wa, &ba);
    let bt = evaluate_threats(pos, p, black, &ba, &wa);
    let wk = evaluate_king_safety(pos, bbs, p, king_mobility, white, bpa, bn.hits, bb.hits, br.hits, bq.hits);
    let bk = evaluate_king_safety(pos, bbs, p, king_mobility, black, wpa, wn.hits, wb.hits, wr.hits, wq.hits);
    let w = sc_add(
        sc_add(sc_add(wp, wn.score), sc_add(wb.score, wr.score)),
        sc_add(sc_add(wq.score, wt), wk),
    );
    let b = sc_add(
        sc_add(sc_add(bp, bn.score), sc_add(bb.score, br.score)),
        sc_add(sc_add(bq.score, bt), bk),
    );
    let score = Score { mg: w.mg - b.mg, eg: w.eg - b.eg };
    let phase = game_phase(pos);
    proof {
        lemma_taper_within(score.mg as int, score.eg as int, phase as int, pos.side_to_move, 12_000_000);
    }
    let eval = taper(score, phase, pos.side_to_move);
    scale_drawish(pos, eval)
}

} // verus!
