//! The packed layout of the parameters: each group of scores flat in a fixed order, with
//! bounds and an active flag per group, and the rules that keep tuned values sensible.
use vstd::prelude::*;

use crate::evaluate::Score;
use crate::params::helpers::{
    flat, flat_all, lemma_flat_all_eq, lemma_flat_all_parts, lemma_flat_all_take, lemma_flat_one,
    lemma_flat_unflat, lemma_offsets_mono, lemma_spread_parts, lemma_spread_take, lemma_unflat_flat, lemma_unflat_one,
    next_pawn_pst, next_score, next_score_array, offsets_fit, push_pawn_pst, push_pawn_pst_bounds,
    push_score, push_score_array, push_score_array_bounds, push_score_bounds, spread, unflat,
};
use crate::params::helpers::{
    cap_each, capped_by, king_ring_fits, king_ring_of, make_nondecreasing, make_nonincreasing,
    mean_added, mean_removed, mgs, egs, nondecreasing_of, nonincreasing_of, normalise_king_ring,
    normalise_mean_zero, normalise_ok,
};
use crate::params::types::{LazyParams, Params};

verus! {

/// The range a tuned value is held to.
#[derive(Copy, Clone, Debug, PartialEq, Eq, Structural)]
pub struct ParamBounds {
    pub min: i32,
    pub max: i32,
}

/// The bounds of a group of parameters, and whether tuning changes it.
#[derive(Copy, Clone, Debug, PartialEq, Eq, Structural)]
pub struct ParamMeta {
    pub bounds: ParamBounds,
    pub active: bool,
}

/// The number of groups of the full and of the lazy parameters.
pub const PARAM_COUNT: usize = 59;

pub const LAZY_PARAM_COUNT: usize = 11;

/// The table is zero on the first and last ranks, where pawns never stand.
pub open spec fn pawn_edges_zero(pst: Seq<Score>) -> bool {
    &&& pst.len() == 64
    &&& forall|i: int|
        (0 <= i < 8 || 56 <= i < 64) ==> #[trigger] pst[i] == (Score { mg: 0, eg: 0 })
}

/// The number of scores in each group of the full parameters, in packing order.
pub open spec fn full_sizes() -> Seq<int> {
    seq![48, 64, 64, 64, 64, 64, 1, 1, 1, 1, 1, 1, 1, 1, 9, 1, 1, 1, 1, 1, 1, 1, 1, 1, 1, 1, 1, 1, 1, 1, 1, 1, 1, 1, 1, 4, 4, 1, 6, 6, 3, 6, 1, 1, 1, 4, 4, 1, 1, 1, 1, 1, 24, 9, 9, 9, 14, 15, 28]
}

/// Where each group of the full parameters starts in the packed list, and where the last ends.
pub open spec fn full_offsets() -> Seq<int> {
    seq![0, 96, 224, 352, 480, 608, 736, 738, 740, 742, 744, 746, 748, 750, 752, 770, 772, 774, 776, 778, 780, 782, 784, 786, 788, 790, 792, 794, 796, 798, 800, 802, 804, 806, 808, 810, 818, 826, 828, 840, 852, 858, 870, 872, 874, 876, 884, 892, 894, 896, 898, 900, 902, 950, 968, 986, 1004, 1032, 1062, 1118]
}

/// The groups of the full parameters in packing order (the pawn table without its first and
/// last ranks).
#[verifier::opaque]
pub open spec fn full_groups(p: Params) -> Seq<Seq<Score>> {
    seq![
        p.pawn_pst@.subrange(8, 64 - 8),
        p.knight_pst@,
        p.bishop_pst@,
        p.rook_pst@,
        p.queen_pst@,
        p.king_pst@,
        seq![p.pawn_value],
        seq![p.knight_value],
        seq![p.bishop_value],
        seq![p.rook_value],
        seq![p.queen_value],
        seq![p.knight_outpost],
        seq![p.defended_knight_outpost],
        seq![p.bishop_pair],
        p.bishop_same_colour_pawns@,
        seq![p.fianchetto],
        seq![p.bishop_outpost],
        seq![p.defended_bishop_outpost],
        seq![p.rook_open_file],
        seq![p.rook_semi_open_file],
        seq![p.rook_on_seventh],
        seq![p.rook_on_queen_file],
        seq![p.connected_doubled_rooks],
        seq![p.queen_undeveloped_piece_punishment],
        seq![p.queen_unmoved_king_punishment],
        seq![p.pawn_threat_minor],
        seq![p.pawn_threat_major],
        seq![p.hanging_minor],
        seq![p.hanging_rook],
        seq![p.hanging_queen],
        seq![p.minor_threat_queen],
        seq![p.rook_threat_queen],
        seq![p.doubled_pawns],
        seq![p.tripled_pawns],
        seq![p.quadrupled_pawns],
        p.isolated_pawn@,
        p.backward_pawn@,
        seq![p.weak_unopposed],
        p.candidate_passer@,
        p.connected_bonus@,
        p.supported_bonus@,
        p.passed_pawn@,
        seq![p.king_on_open_file],
        seq![p.king_on_semi_open_file],
        seq![p.king_shield_missing_pawn],
        p.king_pawn_shield_distance@,
        p.enemy_pawn_distance_from_backrank@,
        seq![p.king_ring_pawn_weight],
        seq![p.king_ring_knight_weight],
        seq![p.king_ring_bishop_weight],
        seq![p.king_ring_rook_weight],
        seq![p.king_ring_queen_weight],
        p.king_ring_attacks@,
        p.knight_adj@,
        p.rook_adj@,
        p.knight_mobility@,
        p.bishop_mobility@,
        p.rook_mobility@,
        p.queen_mobility@,
    ]
}

/// The number of scores in each group of the lazy parameters, in packing order.
pub open spec fn lazy_sizes() -> Seq<int> {
    seq![48, 64, 64, 64, 64, 64, 1, 1, 1, 1, 1]
}

/// Where each group of the lazy parameters starts in the packed list, and where the last ends.
pub open spec fn lazy_offsets() -> Seq<int> {
    seq![0, 96, 224, 352, 480, 608, 736, 738, 740, 742, 744, 746]
}

/// The groups of the lazy parameters in packing order (the pawn table without its first and
/// last ranks).
pub open spec fn lazy_groups(p: LazyParams) -> Seq<Seq<Score>> {
    seq![
        p.pawn_pst@.subrange(8, 64 - 8),
        p.knight_pst@,
        p.bishop_pst@,
        p.rook_pst@,
        p.queen_pst@,
        p.king_pst@,
        seq![p.pawn_value],
        seq![p.knight_value],
        seq![p.bishop_value],
        seq![p.rook_value],
        seq![p.queen_value],
    ]
}

/// `r` holds the parameters read from `v`: each group from its place in the list, and zero on
/// the first and last ranks of the pawn table.
pub open spec fn unpacked_full(v: Seq<i32>, r: Params) -> bool {
    &&& v.len() == 1118
    &&& pawn_edges_zero(r.pawn_pst@)
    &&& forall|k: int|
        0 <= k < 59 ==> #[trigger] full_groups(r)[k] == unflat(
            v.subrange(full_offsets()[k], full_offsets()[k + 1]),
        )
}

/// `r` holds the parameters read from `v`: each group from its place in the list, and zero on
/// the first and last ranks of the pawn table.
pub open spec fn unpacked_lazy(v: Seq<i32>, r: LazyParams) -> bool {
    &&& v.len() == 746
    &&& pawn_edges_zero(r.pawn_pst@)
    &&& forall|k: int|
        0 <= k < 11 ==> #[trigger] lazy_groups(r)[k] == unflat(
            v.subrange(lazy_offsets()[k], lazy_offsets()[k + 1]),
        )
}

/// The groups have the sizes of `full_sizes`, and their starts are `full_offsets`.
pub proof fn lemma_full_groups(p: Params)
    ensures
        full_groups(p).len() == 59,
        full_sizes().len() == 59,
        offsets_fit(full_sizes(), full_offsets()),
        forall|k: int| 0 <= k < 59 ==> (#[trigger] full_groups(p)[k]).len() == full_sizes()[k],
{
    reveal(full_groups);
    let g = full_groups(p);
    let sz = full_sizes();
    let off = full_offsets();
    assert forall|k: int| 0 <= k < 59 implies (#[trigger] g[k]).len() == sz[k] by {}
    assert forall|k: int| 0 <= k < 59 implies off[k + 1] == off[k] + 2 * #[trigger] sz[k] by {}
}

/// The groups have the sizes of `lazy_sizes`, and their starts are `lazy_offsets`.
pub proof fn lemma_lazy_groups(p: LazyParams)
    ensures
        lazy_groups(p).len() == 11,
        lazy_sizes().len() == 11,
        offsets_fit(lazy_sizes(), lazy_offsets()),
        forall|k: int| 0 <= k < 11 ==> (#[trigger] lazy_groups(p)[k]).len() == lazy_sizes()[k],
{
    let g = lazy_groups(p);
    let sz = lazy_sizes();
    let off = lazy_offsets();
    assert forall|k: int| 0 <= k < 11 implies (#[trigger] g[k]).len() == sz[k] by {}
    assert forall|k: int| 0 <= k < 11 implies off[k + 1] == off[k] + 2 * #[trigger] sz[k] by {}
}


/// Reading back what `pack` wrote gives the same parameters, when the pawn table is zero on
/// the first and last ranks (which are not packed).
pub proof fn lemma_full_unpack_pack(p: Params, r: Params)
    requires
        pawn_edges_zero(p.pawn_pst@),
        unpacked_full(flat_all(full_groups(p)), r),
    ensures
        r == p,
{
    let g = full_groups(p);
    let gr = full_groups(r);
    lemma_full_groups(p);
    lemma_flat_all_parts(g, full_sizes(), full_offsets());
    assert forall|k: int| 0 <= k < 59 implies #[trigger] gr[k] == g[k] by {
        lemma_unflat_flat(g[k]);
    }
    lemma_full_groups_eq(p, r);
}

/// Parameters with the same groups, both zero on the pawn table's first and last ranks, are
/// the same.
#[verifier::spinoff_prover]
proof fn lemma_full_groups_eq(p: Params, r: Params)
    requires
        pawn_edges_zero(p.pawn_pst@),
        pawn_edges_zero(r.pawn_pst@),
        forall|k: int| 0 <= k < 59 ==> #[trigger] full_groups(r)[k] == full_groups(p)[k],
    ensures
        r == p,
{
    reveal(full_groups);
    let g = full_groups(p);
    let gr = full_groups(r);
    assert(gr[6][0] == g[6][0]);
    assert(gr[7][0] == g[7][0]);
    assert(gr[8][0] == g[8][0]);
    assert(gr[9][0] == g[9][0]);
    assert(gr[10][0] == g[10][0]);
    assert(gr[11][0] == g[11][0]);
    assert(gr[12][0] == g[12][0]);
    assert(gr[13][0] == g[13][0]);
    assert(gr[15][0] == g[15][0]);
    assert(gr[16][0] == g[16][0]);
    assert(gr[17][0] == g[17][0]);
    assert(gr[18][0] == g[18][0]);
    assert(gr[19][0] == g[19][0]);
    assert(gr[20][0] == g[20][0]);
    assert(gr[21][0] == g[21][0]);
    assert(gr[22][0] == g[22][0]);
    assert(gr[23][0] == g[23][0]);
    assert(gr[24][0] == g[24][0]);
    assert(gr[25][0] == g[25][0]);
    assert(gr[26][0] == g[26][0]);
    assert(gr[27][0] == g[27][0]);
    assert(gr[28][0] == g[28][0]);
    assert(gr[29][0] == g[29][0]);
    assert(gr[30][0] == g[30][0]);
    assert(gr[31][0] == g[31][0]);
    assert(gr[32][0] == g[32][0]);
    assert(gr[33][0] == g[33][0]);
    assert(gr[34][0] == g[34][0]);
    assert(gr[37][0] == g[37][0]);
    assert(gr[42][0] == g[42][0]);
    assert(gr[43][0] == g[43][0]);
    assert(gr[44][0] == g[44][0]);
    assert(gr[47][0] == g[47][0]);
    assert(gr[48][0] == g[48][0]);
    assert(gr[49][0] == g[49][0]);
    assert(gr[50][0] == g[50][0]);
    assert(gr[51][0] == g[51][0]);
    assert(r.pawn_pst@ =~= p.pawn_pst@) by {
        assert(gr[0] == g[0]);
        assert forall|i: int| 8 <= i < 56 implies r.pawn_pst@[i] == p.pawn_pst@[i] by {
            assert(gr[0][i - 8] == g[0][i - 8]);
        }
    }
    assert(r.pawn_pst =~= p.pawn_pst);
    assert(r.knight_pst =~= p.knight_pst);
    assert(r.bishop_pst =~= p.bishop_pst);
    assert(r.rook_pst =~= p.rook_pst);
    assert(r.queen_pst =~= p.queen_pst);
    assert(r.king_pst =~= p.king_pst);
    assert(r.bishop_same_colour_pawns =~= p.bishop_same_colour_pawns);
    assert(r.isolated_pawn =~= p.isolated_pawn);
    assert(r.backward_pawn =~= p.backward_pawn);
    assert(r.candidate_passer =~= p.candidate_passer);
    assert(r.connected_bonus =~= p.connected_bonus);
    assert(r.supported_bonus =~= p.supported_bonus);
    assert(r.passed_pawn =~= p.passed_pawn);
    assert(r.king_pawn_shield_distance =~= p.king_pawn_shield_distance);
    assert(r.enemy_pawn_distance_from_backrank =~= p.enemy_pawn_distance_from_backrank);
    assert(r.king_ring_attacks =~= p.king_ring_attacks);
    assert(r.knight_adj =~= p.knight_adj);
    assert(r.rook_adj =~= p.rook_adj);
    assert(r.knight_mobility =~= p.knight_mobility);
    assert(r.bishop_mobility =~= p.bishop_mobility);
    assert(r.rook_mobility =~= p.rook_mobility);
    assert(r.queen_mobility =~= p.queen_mobility);
}

/// The bounds line up with the packed values: `flat_param_meta` and `pack` both give 1118
/// places, and every place that `pack` fills from group `k` (its values, middlegame and endgame
/// alike) has group `k`'s entry in `flat_param_meta`.
pub proof fn lemma_meta_lines_up(meta: Seq<ParamMeta>, p: Params, k: int, i: int)
    requires
        meta.len() == 59,
        0 <= k < 59,
        full_offsets()[k] <= i < full_offsets()[k + 1],
    ensures
        spread(meta, full_sizes()).len() == 1118,
        flat_all(full_groups(p)).len() == 1118,
        flat_all(full_groups(p)).subrange(full_offsets()[k], full_offsets()[k + 1]) == flat(full_groups(p)[k]),
        spread(meta, full_sizes())[i] == meta[k],
{
    lemma_full_groups(p);
    lemma_spread_parts(meta, full_sizes(), full_offsets());
    lemma_flat_all_parts(full_groups(p), full_sizes(), full_offsets());
}

/// Packing parameters read from a list gives the list back.
pub proof fn lemma_full_pack_unpack(v: Seq<i32>, r: Params)
    requires
        unpacked_full(v, r),
    ensures
        flat_all(full_groups(r)) == v,
{
    reveal(full_groups);
    let g = full_groups(r);
    lemma_full_groups(r);
    lemma_offsets_mono(full_sizes(), full_offsets(), 59);
    assert forall|k: int| 0 <= k < 59 implies #[trigger] v.subrange(full_offsets()[k], full_offsets()[k + 1]) == flat(g[k]) by {
        let o = full_offsets();
        assert(o[k + 1] == o[k] + 2 * full_sizes()[k]);
        lemma_flat_unflat(v.subrange(o[k], o[k + 1]));
    }
    lemma_flat_all_eq(g, full_sizes(), full_offsets(), v);
}


/// Reading back what `pack` wrote gives the same parameters, when the pawn table is zero on
/// the first and last ranks (which are not packed).
pub proof fn lemma_lazy_unpack_pack(p: LazyParams, r: LazyParams)
    requires
        pawn_edges_zero(p.pawn_pst@),
        unpacked_lazy(flat_all(lazy_groups(p)), r),
    ensures
        r == p,
{
    let g = lazy_groups(p);
    let gr = lazy_groups(r);
    lemma_lazy_groups(p);
    lemma_flat_all_parts(g, lazy_sizes(), lazy_offsets());
    assert forall|k: int| 0 <= k < 11 implies #[trigger] gr[k] == g[k] by {
        lemma_unflat_flat(g[k]);
    }
    assert(gr[6][0] == g[6][0]);
    assert(gr[7][0] == g[7][0]);
    assert(gr[8][0] == g[8][0]);
    assert(gr[9][0] == g[9][0]);
    assert(gr[10][0] == g[10][0]);
    assert(r.pawn_pst@ =~= p.pawn_pst@) by {
        assert(gr[0] == g[0]);
        assert forall|i: int| 8 <= i < 56 implies r.pawn_pst@[i] == p.pawn_pst@[i] by {
            assert(gr[0][i - 8] == g[0][i - 8]);
        }
    }
    assert(r.pawn_pst =~= p.pawn_pst);
    assert(r.knight_pst =~= p.knight_pst);
    assert(r.bishop_pst =~= p.bishop_pst);
    assert(r.rook_pst =~= p.rook_pst);
    assert(r.queen_pst =~= p.queen_pst);
    assert(r.king_pst =~= p.king_pst);
}

/// Packing parameters read from a list gives the list back.
pub proof fn lemma_lazy_pack_unpack(v: Seq<i32>, r: LazyParams)
    requires
        unpacked_lazy(v, r),
    ensures
        flat_all(lazy_groups(r)) == v,
{
    let g = lazy_groups(r);
    lemma_lazy_groups(r);
    lemma_offsets_mono(lazy_sizes(), lazy_offsets(), 11);
    assert forall|k: int| 0 <= k < 11 implies #[trigger] v.subrange(lazy_offsets()[k], lazy_offsets()[k + 1]) == flat(g[k]) by {
        let o = lazy_offsets();
        assert(o[k + 1] == o[k] + 2 * lazy_sizes()[k]);
        lemma_flat_unflat(v.subrange(o[k], o[k + 1]));
    }
    lemma_flat_all_eq(g, lazy_sizes(), lazy_offsets(), v);
}

/// `x` held to `[lo, hi]`.
pub open spec fn clamp_spec(x: int, lo: int, hi: int) -> int {
    if x < lo {
        lo
    } else if x > hi {
        hi
    } else {
        x
    }
}

/// The packed values `v` with each one whose meta is active held to its bounds.
pub open spec fn clamped(v: Seq<i32>, m: Seq<ParamMeta>) -> Seq<i32> {
    Seq::new(
        v.len(),
        |j: int|
            if m[j].active {
                clamp_spec(v[j] as int, m[j].bounds.min as int, m[j].bounds.max as int) as i32
            } else {
                v[j]
            },
    )
}

/// Every active group has bounds that are not empty.
pub open spec fn meta_ok(m: Seq<ParamMeta>) -> bool {
    forall|k: int| 0 <= k < m.len() && (#[trigger] m[k]).active ==> m[k].bounds.min <= m[k].bounds.max
}

/// Spreading metas with non-empty active bounds keeps them so.
proof fn lemma_spread_meta_ok(xs: Seq<ParamMeta>, sizes: Seq<int>)
    requires
        meta_ok(xs),
    ensures
        meta_ok(spread(xs, sizes)),
    decreases xs.len(),
{
    if xs.len() > 0 && sizes.len() > 0 {
        let d = xs.drop_last();
        assert(meta_ok(d)) by {
            assert forall|k: int| 0 <= k < d.len() && (#[trigger] d[k]).active implies d[k].bounds.min
                <= d[k].bounds.max by {
                assert(d[k] == xs[k]);
            }
        }
        lemma_spread_meta_ok(d, sizes.drop_last());
        let a = spread(d, sizes.drop_last());
        let b = Seq::new((2 * sizes.last()) as nat, |i: int| xs.last());
        assert(xs[xs.len() - 1] == xs.last());
        assert forall|j: int|
            0 <= j < (a + b).len() && (#[trigger] (a + b)[j]).active implies (a + b)[j].bounds.min
            <= (a + b)[j].bounds.max by {
            if j < a.len() {
                assert((a + b)[j] == a[j]);
            } else {
                assert((a + b)[j] == xs.last());
            }
        }
    }
}

/// Holds each value whose meta is active to its bounds.
fn clamp_values(theta: &mut Vec<i32>, meta: &Vec<ParamMeta>)
    requires
        old(theta)@.len() == meta@.len(),
        meta_ok(meta@),
    ensures
        final(theta)@ == clamped(old(theta)@, meta@),
{
    let ghost t0 = theta@;
    let n = theta.len();
    let mut i: usize = 0;
    while i < n
        invariant
            i <= n,
            n == theta@.len(),
            n == meta@.len(),
            t0.len() == n,
            meta_ok(meta@),
            forall|j: int| i <= j < n ==> #[trigger] theta@[j] == t0[j],
            forall|j: int| 0 <= j < i ==> #[trigger] theta@[j] == clamped(t0, meta@)[j],
        decreases n - i,
    {
        let m = meta[i];
        if m.active {
            let x = theta[i];
            proof {
                assert(meta@[i as int].active);
            }
            let c = if x < m.bounds.min {
                m.bounds.min
            } else if x > m.bounds.max {
                m.bounds.max
            } else {
                x
            };
            theta[i] = c;
        }
        i = i + 1;
    }
    assert(theta@ =~= clamped(t0, meta@));
}

/// After clamping, each packed value of an active group lies within that group's bounds;
/// the values of inactive groups are kept.
pub proof fn lemma_clamped_bounds(v: Seq<i32>, meta: Seq<ParamMeta>, sizes: Seq<int>, off: Seq<int>, k: int, j: int)
    requires
        offsets_fit(sizes, off),
        meta.len() == sizes.len(),
        v.len() == off[sizes.len() as int],
        0 <= k < meta.len(),
        off[k] <= j < off[k + 1],
    ensures
        meta[k].active && meta[k].bounds.min <= meta[k].bounds.max ==> meta[k].bounds.min
            <= clamped(v, spread(meta, sizes))[j] <= meta[k].bounds.max,
        !meta[k].active ==> clamped(v, spread(meta, sizes))[j] == v[j],
{
    lemma_spread_parts(meta, sizes, off);
    lemma_offsets_mono(sizes, off, sizes.len() as int);
    assert(spread(meta, sizes)[j] == meta[k]);
}

/// `x` raised to at least `y`.
pub open spec fn at_least(x: i32, y: int) -> int {
    if x > y {
        x as int
    } else {
        y
    }
}

/// `x` lowered to at most `y`.
pub open spec fn at_most(x: i32, y: int) -> int {
    if x < y {
        x as int
    } else {
        y
    }
}

/// The bishop raised to at least the knight less 20 (when bishops are tuned).
pub open spec fn bishop_floor(active: bool, bishop: Score, knight: Score) -> Score {
    if active {
        Score {
            mg: at_least(bishop.mg, knight.mg - 20) as i32,
            eg: at_least(bishop.eg, knight.eg - 20) as i32,
        }
    } else {
        bishop
    }
}

/// The rook raised to at least the bishop plus 100 (when rooks are tuned).
pub open spec fn rook_floor(active: bool, rook: Score, bishop: Score) -> Score {
    if active {
        Score {
            mg: at_least(rook.mg, bishop.mg + 100) as i32,
            eg: at_least(rook.eg, bishop.eg + 100) as i32,
        }
    } else {
        rook
    }
}

/// The lazy parameters' groups after the material rules, before clamping.
pub open spec fn lazy_projected(meta: Seq<ParamMeta>, g: Seq<Seq<Score>>) -> Seq<Seq<Score>> {
    let b = bishop_floor(meta[8].active, g[8][0], g[7][0]);
    let r = rook_floor(meta[9].active, g[9][0], b);
    g.update(8, seq![b]).update(9, seq![r])
}

/// A score lowered to at most another, and raised to at least another plus `d`.
pub open spec fn score_at_most(x: Score, y: Score) -> Score {
    Score { mg: at_most(x.mg, y.mg as int) as i32, eg: at_most(x.eg, y.eg as int) as i32 }
}

pub open spec fn score_at_least(x: Score, y: Score, d: int) -> Score {
    Score { mg: at_least(x.mg, y.mg + d) as i32, eg: at_least(x.eg, y.eg + d) as i32 }
}

/// The number of rules `project` applies before clamping.
pub open spec fn full_step_count() -> int {
    24
}

/// Rule `i` of `project` applied to the groups `g` of the full parameters. In order:
/// candidate passers, connected and supported bonuses and passed pawns made non-decreasing
/// (the supported bonus for no supporter first set to zero); candidate passers capped by
/// passed pawns; king ring attacks made non-increasing; knight adjustments non-decreasing and
/// rook adjustments non-increasing, each with its mean moved into the piece value; tripled
/// pawns at most doubled, quadrupled at most tripled; bishop at least knight less 20, rook at
/// least bishop plus 100; pawn threats on majors, hanging rooks and hanging queens each at
/// least one more than the term before; the mobility tables and the bishop colour table with
/// their means moved into the piece values; and the king ring table normalised. Each rule
/// applies only when its groups are tuned.
pub open spec fn full_step(m: Seq<ParamMeta>, g: Seq<Seq<Score>>, i: int) -> Seq<Seq<Score>> {
    if i == 0 {
        if m[38].active {
            g.update(38, nondecreasing_of(g[38]))
        } else {
            g
        }
    } else if i == 1 {
        if m[39].active {
            g.update(39, nondecreasing_of(g[39]))
        } else {
            g
        }
    } else if i == 2 {
        if true {
            g.update(40, g[40].update(0, Score { mg: 0, eg: 0 }))
        } else {
            g
        }
    } else if i == 3 {
        if m[40].active {
            g.update(40, nondecreasing_of(g[40]))
        } else {
            g
        }
    } else if i == 4 {
        if m[41].active {
            g.update(41, nondecreasing_of(g[41]))
        } else {
            g
        }
    } else if i == 5 {
        if m[38].active || m[41].active {
            g.update(38, capped_by(g[38], g[41]))
        } else {
            g
        }
    } else if i == 6 {
        if m[52].active {
            g.update(52, nonincreasing_of(g[52]))
        } else {
            g
        }
    } else if i == 7 {
        if m[53].active {
            g.update(53, nondecreasing_of(g[53]))
        } else {
            g
        }
    } else if i == 8 {
        if m[53].active && m[7].active {
            g.update(7, seq![mean_added(g[7][0], g[53])]).update(53, mean_removed(g[53]))
        } else {
            g
        }
    } else if i == 9 {
        if m[54].active {
            g.update(54, nonincreasing_of(g[54]))
        } else {
            g
        }
    } else if i == 10 {
        if m[54].active && m[9].active {
            g.update(9, seq![mean_added(g[9][0], g[54])]).update(54, mean_removed(g[54]))
        } else {
            g
        }
    } else if i == 11 {
        if m[33].active {
            g.update(33, seq![score_at_most(g[33][0], g[32][0])])
        } else {
            g
        }
    } else if i == 12 {
        if m[34].active {
            g.update(34, seq![score_at_most(g[34][0], g[33][0])])
        } else {
            g
        }
    } else if i == 13 {
        if m[8].active {
            g.update(8, seq![score_at_least(g[8][0], g[7][0], -20)])
        } else {
            g
        }
    } else if i == 14 {
        if m[9].active {
            g.update(9, seq![score_at_least(g[9][0], g[8][0], 100)])
        } else {
            g
        }
    } else if i == 15 {
        if m[25].active || m[26].active {
            g.update(26, seq![score_at_least(g[26][0], g[25][0], 1)])
        } else {
            g
        }
    } else if i == 16 {
        if m[27].active || m[28].active {
            g.update(28, seq![score_at_least(g[28][0], g[27][0], 1)])
        } else {
            g
        }
    } else if i == 17 {
        if m[28].active || m[29].active {
            g.update(29, seq![score_at_least(g[29][0], g[28][0], 1)])
        } else {
            g
        }
    } else if i == 18 {
        if m[7].active && m[55].active {
            g.update(7, seq![mean_added(g[7][0], g[55])]).update(55, mean_removed(g[55]))
        } else {
            g
        }
    } else if i == 19 {
        if m[8].active && m[56].active {
            g.update(8, seq![mean_added(g[8][0], g[56])]).update(56, mean_removed(g[56]))
        } else {
            g
        }
    } else if i == 20 {
        if m[9].active && m[57].active {
            g.update(9, seq![mean_added(g[9][0], g[57])]).update(57, mean_removed(g[57]))
        } else {
            g
        }
    } else if i == 21 {
        if m[10].active && m[58].active {
            g.update(10, seq![mean_added(g[10][0], g[58])]).update(58, mean_removed(g[58]))
        } else {
            g
        }
    } else if i == 22 {
        if m[8].active && m[14].active {
            g.update(8, seq![mean_added(g[8][0], g[14])]).update(14, mean_removed(g[14]))
        } else {
            g
        }
    } else if i == 23 {
        if m[52].active {
            g.update(52, king_ring_of(g[52]))
        } else {
            g
        }
    } else {
        g
    }
}

/// What rule `i` needs of the groups it applies to: its arithmetic stays within `i32`.
pub open spec fn full_step_ok(m: Seq<ParamMeta>, g: Seq<Seq<Score>>, i: int) -> bool {
    if i == 8 {
        (m[53].active && m[7].active) ==> normalise_ok(g[7][0], g[53])
    } else if i == 10 {
        (m[54].active && m[9].active) ==> normalise_ok(g[9][0], g[54])
    } else if i == 13 {
        (m[8].active) ==> i32::MIN <= g[7][0].mg + -20 <= i32::MAX && i32::MIN <= g[7][0].eg + -20 <= i32::MAX
    } else if i == 14 {
        (m[9].active) ==> i32::MIN <= g[8][0].mg + 100 <= i32::MAX && i32::MIN <= g[8][0].eg + 100 <= i32::MAX
    } else if i == 15 {
        (m[25].active || m[26].active) ==> i32::MIN <= g[25][0].mg + 1 <= i32::MAX && i32::MIN <= g[25][0].eg + 1 <= i32::MAX
    } else if i == 16 {
        (m[27].active || m[28].active) ==> i32::MIN <= g[27][0].mg + 1 <= i32::MAX && i32::MIN <= g[27][0].eg + 1 <= i32::MAX
    } else if i == 17 {
        (m[28].active || m[29].active) ==> i32::MIN <= g[28][0].mg + 1 <= i32::MAX && i32::MIN <= g[28][0].eg + 1 <= i32::MAX
    } else if i == 18 {
        (m[7].active && m[55].active) ==> normalise_ok(g[7][0], g[55])
    } else if i == 19 {
        (m[8].active && m[56].active) ==> normalise_ok(g[8][0], g[56])
    } else if i == 20 {
        (m[9].active && m[57].active) ==> normalise_ok(g[9][0], g[57])
    } else if i == 21 {
        (m[10].active && m[58].active) ==> normalise_ok(g[10][0], g[58])
    } else if i == 22 {
        (m[8].active && m[14].active) ==> normalise_ok(g[8][0], g[14])
    } else if i == 23 {
        (m[52].active) ==> king_ring_fits(mgs(g[52])) && king_ring_fits(egs(g[52]))
    } else {
        true
    }
}

/// The groups after the first `i` rules of `project`, starting from `g0`.
pub open spec fn full_stage(m: Seq<ParamMeta>, g0: Seq<Seq<Score>>, i: nat) -> Seq<Seq<Score>>
    decreases i,
{
    if i == 0 {
        g0
    } else {
        full_step(m, full_stage(m, g0, (i - 1) as nat), i - 1)
    }
}

/// What `project` needs: non-empty active bounds, and each rule's arithmetic within `i32` at
/// the stage where it applies.
pub open spec fn full_project_ok(m: Seq<ParamMeta>, g0: Seq<Seq<Score>>) -> bool {
    &&& meta_ok(m)
    &&& forall|i: nat| i < full_step_count() ==> full_step_ok(m, #[trigger] full_stage(m, g0, i), i as int)
}

/// Changing only `knight_value` changes only its group.
pub proof fn lemma_full_set_knight_value(p: Params, q: Params)
    requires
        q == (Params { knight_value: q.knight_value, ..p }),
    ensures
        full_groups(q) == full_groups(p).update(7, seq![q.knight_value]),
        full_groups(p)[7] == seq![p.knight_value],
{
    reveal(full_groups);
    assert(full_groups(q) =~= full_groups(p).update(7, seq![q.knight_value]));
}

/// Changing only `bishop_value` changes only its group.
pub proof fn lemma_full_set_bishop_value(p: Params, q: Params)
    requires
        q == (Params { bishop_value: q.bishop_value, ..p }),
    ensures
        full_groups(q) == full_groups(p).update(8, seq![q.bishop_value]),
        full_groups(p)[8] == seq![p.bishop_value],
{
    reveal(full_groups);
    assert(full_groups(q) =~= full_groups(p).update(8, seq![q.bishop_value]));
}

/// Changing only `rook_value` changes only its group.
pub proof fn lemma_full_set_rook_value(p: Params, q: Params)
    requires
        q == (Params { rook_value: q.rook_value, ..p }),
    ensures
        full_groups(q) == full_groups(p).update(9, seq![q.rook_value]),
        full_groups(p)[9] == seq![p.rook_value],
{
    reveal(full_groups);
    assert(full_groups(q) =~= full_groups(p).update(9, seq![q.rook_value]));
}

/// Changing only `queen_value` changes only its group.
pub proof fn lemma_full_set_queen_value(p: Params, q: Params)
    requires
        q == (Params { queen_value: q.queen_value, ..p }),
    ensures
        full_groups(q) == full_groups(p).update(10, seq![q.queen_value]),
        full_groups(p)[10] == seq![p.queen_value],
{
    reveal(full_groups);
    assert(full_groups(q) =~= full_groups(p).update(10, seq![q.queen_value]));
}

/// Changing only `bishop_same_colour_pawns` changes only its group.
pub proof fn lemma_full_set_bishop_same_colour_pawns(p: Params, q: Params)
    requires
        q == (Params { bishop_same_colour_pawns: q.bishop_same_colour_pawns, ..p }),
    ensures
        full_groups(q) == full_groups(p).update(14, q.bishop_same_colour_pawns@),
        full_groups(p)[14] == p.bishop_same_colour_pawns@,
{
    reveal(full_groups);
    assert(full_groups(q) =~= full_groups(p).update(14, q.bishop_same_colour_pawns@));
}

/// Changing only `pawn_threat_minor` changes only its group.
pub proof fn lemma_full_set_pawn_threat_minor(p: Params, q: Params)
    requires
        q == (Params { pawn_threat_minor: q.pawn_threat_minor, ..p }),
    ensures
        full_groups(q) == full_groups(p).update(25, seq![q.pawn_threat_minor]),
        full_groups(p)[25] == seq![p.pawn_threat_minor],
{
    reveal(full_groups);
    assert(full_groups(q) =~= full_groups(p).update(25, seq![q.pawn_threat_minor]));
}

/// Changing only `pawn_threat_major` changes only its group.
pub proof fn lemma_full_set_pawn_threat_major(p: Params, q: Params)
    requires
        q == (Params { pawn_threat_major: q.pawn_threat_major, ..p }),
    ensures
        full_groups(q) == full_groups(p).update(26, seq![q.pawn_threat_major]),
        full_groups(p)[26] == seq![p.pawn_threat_major],
{
    reveal(full_groups);
    assert(full_groups(q) =~= full_groups(p).update(26, seq![q.pawn_threat_major]));
}

/// Changing only `hanging_minor` changes only its group.
pub proof fn lemma_full_set_hanging_minor(p: Params, q: Params)
    requires
        q == (Params { hanging_minor: q.hanging_minor, ..p }),
    ensures
        full_groups(q) == full_groups(p).update(27, seq![q.hanging_minor]),
        full_groups(p)[27] == seq![p.hanging_minor],
{
    reveal(full_groups);
    assert(full_groups(q) =~= full_groups(p).update(27, seq![q.hanging_minor]));
}

/// Changing only `hanging_rook` changes only its group.
pub proof fn lemma_full_set_hanging_rook(p: Params, q: Params)
    requires
        q == (Params { hanging_rook: q.hanging_rook, ..p }),
    ensures
        full_groups(q) == full_groups(p).update(28, seq![q.hanging_rook]),
        full_groups(p)[28] == seq![p.hanging_rook],
{
    reveal(full_groups);
    assert(full_groups(q) =~= full_groups(p).update(28, seq![q.hanging_rook]));
}

/// Changing only `hanging_queen` changes only its group.
pub proof fn lemma_full_set_hanging_queen(p: Params, q: Params)
    requires
        q == (Params { hanging_queen: q.hanging_queen, ..p }),
    ensures
        full_groups(q) == full_groups(p).update(29, seq![q.hanging_queen]),
        full_groups(p)[29] == seq![p.hanging_queen],
{
    reveal(full_groups);
    assert(full_groups(q) =~= full_groups(p).update(29, seq![q.hanging_queen]));
}

/// Changing only `doubled_pawns` changes only its group.
pub proof fn lemma_full_set_doubled_pawns(p: Params, q: Params)
    requires
        q == (Params { doubled_pawns: q.doubled_pawns, ..p }),
    ensures
        full_groups(q) == full_groups(p).update(32, seq![q.doubled_pawns]),
        full_groups(p)[32] == seq![p.doubled_pawns],
{
    reveal(full_groups);
    assert(full_groups(q) =~= full_groups(p).update(32, seq![q.doubled_pawns]));
}

/// Changing only `tripled_pawns` changes only its group.
pub proof fn lemma_full_set_tripled_pawns(p: Params, q: Params)
    requires
        q == (Params { tripled_pawns: q.tripled_pawns, ..p }),
    ensures
        full_groups(q) == full_groups(p).update(33, seq![q.tripled_pawns]),
        full_groups(p)[33] == seq![p.tripled_pawns],
{
    reveal(full_groups);
    assert(full_groups(q) =~= full_groups(p).update(33, seq![q.tripled_pawns]));
}

/// Changing only `quadrupled_pawns` changes only its group.
pub proof fn lemma_full_set_quadrupled_pawns(p: Params, q: Params)
    requires
        q == (Params { quadrupled_pawns: q.quadrupled_pawns, ..p }),
    ensures
        full_groups(q) == full_groups(p).update(34, seq![q.quadrupled_pawns]),
        full_groups(p)[34] == seq![p.quadrupled_pawns],
{
    reveal(full_groups);
    assert(full_groups(q) =~= full_groups(p).update(34, seq![q.quadrupled_pawns]));
}

/// Changing only `candidate_passer` changes only its group.
pub proof fn lemma_full_set_candidate_passer(p: Params, q: Params)
    requires
        q == (Params { candidate_passer: q.candidate_passer, ..p }),
    ensures
        full_groups(q) == full_groups(p).update(38, q.candidate_passer@),
        full_groups(p)[38] == p.candidate_passer@,
{
    reveal(full_groups);
    assert(full_groups(q) =~= full_groups(p).update(38, q.candidate_passer@));
}

/// Changing only `connected_bonus` changes only its group.
pub proof fn lemma_full_set_connected_bonus(p: Params, q: Params)
    requires
        q == (Params { connected_bonus: q.connected_bonus, ..p }),
    ensures
        full_groups(q) == full_groups(p).update(39, q.connected_bonus@),
        full_groups(p)[39] == p.connected_bonus@,
{
    reveal(full_groups);
    assert(full_groups(q) =~= full_groups(p).update(39, q.connected_bonus@));
}

/// Changing only `supported_bonus` changes only its group.
pub proof fn lemma_full_set_supported_bonus(p: Params, q: Params)
    requires
        q == (Params { supported_bonus: q.supported_bonus, ..p }),
    ensures
        full_groups(q) == full_groups(p).update(40, q.supported_bonus@),
        full_groups(p)[40] == p.supported_bonus@,
{
    reveal(full_groups);
    assert(full_groups(q) =~= full_groups(p).update(40, q.supported_bonus@));
}

/// Changing only `passed_pawn` changes only its group.
pub proof fn lemma_full_set_passed_pawn(p: Params, q: Params)
    requires
        q == (Params { passed_pawn: q.passed_pawn, ..p }),
    ensures
        full_groups(q) == full_groups(p).update(41, q.passed_pawn@),
        full_groups(p)[41] == p.passed_pawn@,
{
    reveal(full_groups);
    assert(full_groups(q) =~= full_groups(p).update(41, q.passed_pawn@));
}

/// Changing only `king_ring_attacks` changes only its group.
pub proof fn lemma_full_set_king_ring_attacks(p: Params, q: Params)
    requires
        q == (Params { king_ring_attacks: q.king_ring_attacks, ..p }),
    ensures
        full_groups(q) == full_groups(p).update(52, q.king_ring_attacks@),
        full_groups(p)[52] == p.king_ring_attacks@,
{
    reveal(full_groups);
    assert(full_groups(q) =~= full_groups(p).update(52, q.king_ring_attacks@));
}

/// Changing only `knight_adj` changes only its group.
pub proof fn lemma_full_set_knight_adj(p: Params, q: Params)
    requires
        q == (Params { knight_adj: q.knight_adj, ..p }),
    ensures
        full_groups(q) == full_groups(p).update(53, q.knight_adj@),
        full_groups(p)[53] == p.knight_adj@,
{
    reveal(full_groups);
    assert(full_groups(q) =~= full_groups(p).update(53, q.knight_adj@));
}

/// Changing only `rook_adj` changes only its group.
pub proof fn lemma_full_set_rook_adj(p: Params, q: Params)
    requires
        q == (Params { rook_adj: q.rook_adj, ..p }),
    ensures
        full_groups(q) == full_groups(p).update(54, q.rook_adj@),
        full_groups(p)[54] == p.rook_adj@,
{
    reveal(full_groups);
    assert(full_groups(q) =~= full_groups(p).update(54, q.rook_adj@));
}

/// Changing only `knight_mobility` changes only its group.
pub proof fn lemma_full_set_knight_mobility(p: Params, q: Params)
    requires
        q == (Params { knight_mobility: q.knight_mobility, ..p }),
    ensures
        full_groups(q) == full_groups(p).update(55, q.knight_mobility@),
        full_groups(p)[55] == p.knight_mobility@,
{
    reveal(full_groups);
    assert(full_groups(q) =~= full_groups(p).update(55, q.knight_mobility@));
}

/// Changing only `bishop_mobility` changes only its group.
pub proof fn lemma_full_set_bishop_mobility(p: Params, q: Params)
    requires
        q == (Params { bishop_mobility: q.bishop_mobility, ..p }),
    ensures
        full_groups(q) == full_groups(p).update(56, q.bishop_mobility@),
        full_groups(p)[56] == p.bishop_mobility@,
{
    reveal(full_groups);
    assert(full_groups(q) =~= full_groups(p).update(56, q.bishop_mobility@));
}

/// Changing only `rook_mobility` changes only its group.
pub proof fn lemma_full_set_rook_mobility(p: Params, q: Params)
    requires
        q == (Params { rook_mobility: q.rook_mobility, ..p }),
    ensures
        full_groups(q) == full_groups(p).update(57, q.rook_mobility@),
        full_groups(p)[57] == p.rook_mobility@,
{
    reveal(full_groups);
    assert(full_groups(q) =~= full_groups(p).update(57, q.rook_mobility@));
}

/// Changing only `queen_mobility` changes only its group.
pub proof fn lemma_full_set_queen_mobility(p: Params, q: Params)
    requires
        q == (Params { queen_mobility: q.queen_mobility, ..p }),
    ensures
        full_groups(q) == full_groups(p).update(58, q.queen_mobility@),
        full_groups(p)[58] == p.queen_mobility@,
{
    reveal(full_groups);
    assert(full_groups(q) =~= full_groups(p).update(58, q.queen_mobility@));
}

/// `x` lowered to at most `y`, per value.
fn min_score(x: Score, y: Score) -> (r: Score)
    ensures
        r == score_at_most(x, y),
{
    Score {
        mg: if x.mg < y.mg {
            x.mg
        } else {
            y.mg
        },
        eg: if x.eg < y.eg {
            x.eg
        } else {
            y.eg
        },
    }
}

/// `x` raised to at least `y` plus `d`, per value.
fn floor_score(x: Score, y: Score, d: i32) -> (r: Score)
    requires
        i32::MIN <= y.mg + d <= i32::MAX,
        i32::MIN <= y.eg + d <= i32::MAX,
    ensures
        r == score_at_least(x, y, d as int),
{
    Score {
        mg: if x.mg > y.mg + d {
            x.mg
        } else {
            y.mg + d
        },
        eg: if x.eg > y.eg + d {
            x.eg
        } else {
            y.eg + d
        },
    }
}

/// Tuning the full parameters: their starting values and the bounds of each group.
#[derive(Copy, Clone, Debug)]
pub struct FullTuningConfig {
    pub params: Params,
    pub meta: [ParamMeta; 59],
}

/// Tuning the lazy parameters: their starting values and the bounds of each group.
#[derive(Copy, Clone, Debug)]
pub struct LazyTuningConfig {
    pub params: LazyParams,
    pub meta: [ParamMeta; 11],
}

impl FullTuningConfig {
    #[verifier::rlimit(60)]
    pub fn pack(&self, params: &Params) -> (r: Vec<i32>)
        ensures
            r@ == flat_all(full_groups(*params)),
    {
        proof {
            reveal(full_groups);
        }
        let ghost g = full_groups(*params);
        let mut out: Vec<i32> = Vec::new();
        proof {
            assert(g.take(0) =~= Seq::<Seq<Score>>::empty());
        }
        push_pawn_pst(&mut out, &params.pawn_pst);
        proof {
            lemma_flat_all_take(g, 0);
            assert(out@ =~= flat_all(g.take(1)));
        }
        push_score_array(&mut out, &params.knight_pst);
        proof {
            lemma_flat_all_take(g, 1);
            assert(out@ =~= flat_all(g.take(2)));
        }
        push_score_array(&mut out, &params.bishop_pst);
        proof {
            lemma_flat_all_take(g, 2);
            assert(out@ =~= flat_all(g.take(3)));
        }
        push_score_array(&mut out, &params.rook_pst);
        proof {
            lemma_flat_all_take(g, 3);
            assert(out@ =~= flat_all(g.take(4)));
        }
        push_score_array(&mut out, &params.queen_pst);
        proof {
            lemma_flat_all_take(g, 4);
            assert(out@ =~= flat_all(g.take(5)));
        }
        push_score_array(&mut out, &params.king_pst);
        proof {
            lemma_flat_all_take(g, 5);
            assert(out@ =~= flat_all(g.take(6)));
        }
        push_score(&mut out, params.pawn_value);
        proof {
            lemma_flat_one(params.pawn_value);
            lemma_flat_all_take(g, 6);
            assert(out@ =~= flat_all(g.take(7)));
        }
        push_score(&mut out, params.knight_value);
        proof {
            lemma_flat_one(params.knight_value);
            lemma_flat_all_take(g, 7);
            assert(out@ =~= flat_all(g.take(8)));
        }
        push_score(&mut out, params.bishop_value);
        proof {
            lemma_flat_one(params.bishop_value);
            lemma_flat_all_take(g, 8);
            assert(out@ =~= flat_all(g.take(9)));
        }
        push_score(&mut out, params.rook_value);
        proof {
            lemma_flat_one(params.rook_value);
            lemma_flat_all_take(g, 9);
            assert(out@ =~= flat_all(g.take(10)));
        }
        push_score(&mut out, params.queen_value);
        proof {
            lemma_flat_one(params.queen_value);
            lemma_flat_all_take(g, 10);
            assert(out@ =~= flat_all(g.take(11)));
        }
        push_score(&mut out, params.knight_outpost);
        proof {
            lemma_flat_one(params.knight_outpost);
            lemma_flat_all_take(g, 11);
            assert(out@ =~= flat_all(g.take(12)));
        }
        push_score(&mut out, params.defended_knight_outpost);
        proof {
            lemma_flat_one(params.defended_knight_outpost);
            lemma_flat_all_take(g, 12);
            assert(out@ =~= flat_all(g.take(13)));
        }
        push_score(&mut out, params.bishop_pair);
        proof {
            lemma_flat_one(params.bishop_pair);
            lemma_flat_all_take(g, 13);
            assert(out@ =~= flat_all(g.take(14)));
        }
        push_score_array(&mut out, &params.bishop_same_colour_pawns);
        proof {
            lemma_flat_all_take(g, 14);
            assert(out@ =~= flat_all(g.take(15)));
        }
        push_score(&mut out, params.fianchetto);
        proof {
            lemma_flat_one(params.fianchetto);
            lemma_flat_all_take(g, 15);
            assert(out@ =~= flat_all(g.take(16)));
        }
        push_score(&mut out, params.bishop_outpost);
        proof {
            lemma_flat_one(params.bishop_outpost);
            lemma_flat_all_take(g, 16);
            assert(out@ =~= flat_all(g.take(17)));
        }
        push_score(&mut out, params.defended_bishop_outpost);
        proof {
            lemma_flat_one(params.defended_bishop_outpost);
            lemma_flat_all_take(g, 17);
            assert(out@ =~= flat_all(g.take(18)));
        }
        push_score(&mut out, params.rook_open_file);
        proof {
            lemma_flat_one(params.rook_open_file);
            lemma_flat_all_take(g, 18);
            assert(out@ =~= flat_all(g.take(19)));
        }
        push_score(&mut out, params.rook_semi_open_file);
        proof {
            lemma_flat_one(params.rook_semi_open_file);
            lemma_flat_all_take(g, 19);
            assert(out@ =~= flat_all(g.take(20)));
        }
        push_score(&mut out, params.rook_on_seventh);
        proof {
            lemma_flat_one(params.rook_on_seventh);
            lemma_flat_all_take(g, 20);
            assert(out@ =~= flat_all(g.take(21)));
        }
        push_score(&mut out, params.rook_on_queen_file);
        proof {
            lemma_flat_one(params.rook_on_queen_file);
            lemma_flat_all_take(g, 21);
            assert(out@ =~= flat_all(g.take(22)));
        }
        push_score(&mut out, params.connected_doubled_rooks);
        proof {
            lemma_flat_one(params.connected_doubled_rooks);
            lemma_flat_all_take(g, 22);
            assert(out@ =~= flat_all(g.take(23)));
        }
        push_score(&mut out, params.queen_undeveloped_piece_punishment);
        proof {
            lemma_flat_one(params.queen_undeveloped_piece_punishment);
            lemma_flat_all_take(g, 23);
            assert(out@ =~= flat_all(g.take(24)));
        }
        push_score(&mut out, params.queen_unmoved_king_punishment);
        proof {
            lemma_flat_one(params.queen_unmoved_king_punishment);
            lemma_flat_all_take(g, 24);
            assert(out@ =~= flat_all(g.take(25)));
        }
        push_score(&mut out, params.pawn_threat_minor);
        proof {
            lemma_flat_one(params.pawn_threat_minor);
            lemma_flat_all_take(g, 25);
            assert(out@ =~= flat_all(g.take(26)));
        }
        push_score(&mut out, params.pawn_threat_major);
        proof {
            lemma_flat_one(params.pawn_threat_major);
            lemma_flat_all_take(g, 26);
            assert(out@ =~= flat_all(g.take(27)));
        }
        push_score(&mut out, params.hanging_minor);
        proof {
            lemma_flat_one(params.hanging_minor);
            lemma_flat_all_take(g, 27);
            assert(out@ =~= flat_all(g.take(28)));
        }
        push_score(&mut out, params.hanging_rook);
        proof {
            lemma_flat_one(params.hanging_rook);
            lemma_flat_all_take(g, 28);
            assert(out@ =~= flat_all(g.take(29)));
        }
        push_score(&mut out, params.hanging_queen);
        proof {
            lemma_flat_one(params.hanging_queen);
            lemma_flat_all_take(g, 29);
            assert(out@ =~= flat_all(g.take(30)));
        }
        push_score(&mut out, params.minor_threat_queen);
        proof {
            lemma_flat_one(params.minor_threat_queen);
            lemma_flat_all_take(g, 30);
            assert(out@ =~= flat_all(g.take(31)));
        }
        push_score(&mut out, params.rook_threat_queen);
        proof {
            lemma_flat_one(params.rook_threat_queen);
            lemma_flat_all_take(g, 31);
            assert(out@ =~= flat_all(g.take(32)));
        }
        push_score(&mut out, params.doubled_pawns);
        proof {
            lemma_flat_one(params.doubled_pawns);
            lemma_flat_all_take(g, 32);
            assert(out@ =~= flat_all(g.take(33)));
        }
        push_score(&mut out, params.tripled_pawns);
        proof {
            lemma_flat_one(params.tripled_pawns);
            lemma_flat_all_take(g, 33);
            assert(out@ =~= flat_all(g.take(34)));
        }
        push_score(&mut out, params.quadrupled_pawns);
        proof {
            lemma_flat_one(params.quadrupled_pawns);
            lemma_flat_all_take(g, 34);
            assert(out@ =~= flat_all(g.take(35)));
        }
        push_score_array(&mut out, &params.isolated_pawn);
        proof {
            lemma_flat_all_take(g, 35);
            assert(out@ =~= flat_all(g.take(36)));
        }
        push_score_array(&mut out, &params.backward_pawn);
        proof {
            lemma_flat_all_take(g, 36);
            assert(out@ =~= flat_all(g.take(37)));
        }
        push_score(&mut out, params.weak_unopposed);
        proof {
            lemma_flat_one(params.weak_unopposed);
            lemma_flat_all_take(g, 37);
            assert(out@ =~= flat_all(g.take(38)));
        }
        push_score_array(&mut out, &params.candidate_passer);
        proof {
            lemma_flat_all_take(g, 38);
            assert(out@ =~= flat_all(g.take(39)));
        }
        push_score_array(&mut out, &params.connected_bonus);
        proof {
            lemma_flat_all_take(g, 39);
            assert(out@ =~= flat_all(g.take(40)));
        }
        push_score_array(&mut out, &params.supported_bonus);
        proof {
            lemma_flat_all_take(g, 40);
            assert(out@ =~= flat_all(g.take(41)));
        }
        push_score_array(&mut out, &params.passed_pawn);
        proof {
            lemma_flat_all_take(g, 41);
            assert(out@ =~= flat_all(g.take(42)));
        }
        push_score(&mut out, params.king_on_open_file);
        proof {
            lemma_flat_one(params.king_on_open_file);
            lemma_flat_all_take(g, 42);
            assert(out@ =~= flat_all(g.take(43)));
        }
        push_score(&mut out, params.king_on_semi_open_file);
        proof {
            lemma_flat_one(params.king_on_semi_open_file);
            lemma_flat_all_take(g, 43);
            assert(out@ =~= flat_all(g.take(44)));
        }
        push_score(&mut out, params.king_shield_missing_pawn);
        proof {
            lemma_flat_one(params.king_shield_missing_pawn);
            lemma_flat_all_take(g, 44);
            assert(out@ =~= flat_all(g.take(45)));
        }
        push_score_array(&mut out, &params.king_pawn_shield_distance);
        proof {
            lemma_flat_all_take(g, 45);
            assert(out@ =~= flat_all(g.take(46)));
        }
        push_score_array(&mut out, &params.enemy_pawn_distance_from_backrank);
        proof {
            lemma_flat_all_take(g, 46);
            assert(out@ =~= flat_all(g.take(47)));
        }
        push_score(&mut out, params.king_ring_pawn_weight);
        proof {
            lemma_flat_one(params.king_ring_pawn_weight);
            lemma_flat_all_take(g, 47);
            assert(out@ =~= flat_all(g.take(48)));
        }
        push_score(&mut out, params.king_ring_knight_weight);
        proof {
            lemma_flat_one(params.king_ring_knight_weight);
            lemma_flat_all_take(g, 48);
            assert(out@ =~= flat_all(g.take(49)));
        }
        push_score(&mut out, params.king_ring_bishop_weight);
        proof {
            lemma_flat_one(params.king_ring_bishop_weight);
            lemma_flat_all_take(g, 49);
            assert(out@ =~= flat_all(g.take(50)));
        }
        push_score(&mut out, params.king_ring_rook_weight);
        proof {
            lemma_flat_one(params.king_ring_rook_weight);
            lemma_flat_all_take(g, 50);
            assert(out@ =~= flat_all(g.take(51)));
        }
        push_score(&mut out, params.king_ring_queen_weight);
        proof {
            lemma_flat_one(params.king_ring_queen_weight);
            lemma_flat_all_take(g, 51);
            assert(out@ =~= flat_all(g.take(52)));
        }
        push_score_array(&mut out, &params.king_ring_attacks);
        proof {
            lemma_flat_all_take(g, 52);
            assert(out@ =~= flat_all(g.take(53)));
        }
        push_score_array(&mut out, &params.knight_adj);
        proof {
            lemma_flat_all_take(g, 53);
            assert(out@ =~= flat_all(g.take(54)));
        }
        push_score_array(&mut out, &params.rook_adj);
        proof {
            lemma_flat_all_take(g, 54);
            assert(out@ =~= flat_all(g.take(55)));
        }
        push_score_array(&mut out, &params.knight_mobility);
        proof {
            lemma_flat_all_take(g, 55);
            assert(out@ =~= flat_all(g.take(56)));
        }
        push_score_array(&mut out, &params.bishop_mobility);
        proof {
            lemma_flat_all_take(g, 56);
            assert(out@ =~= flat_all(g.take(57)));
        }
        push_score_array(&mut out, &params.rook_mobility);
        proof {
            lemma_flat_all_take(g, 57);
            assert(out@ =~= flat_all(g.take(58)));
        }
        push_score_array(&mut out, &params.queen_mobility);
        proof {
            lemma_flat_all_take(g, 58);
            assert(out@ =~= flat_all(g.take(59)));
        }
        assert(g.take(59) =~= g);
        out
    }

    pub fn unpack(values: &[i32]) -> (r: Params)
        requires
            values@.len() == 1118,
        ensures
            unpacked_full(values@, r),
    {
        proof {
            reveal(full_groups);
        }
        let mut pos: usize = 0;
        let edges: [Score; 64] = [Score { mg: 0, eg: 0 }; 64];
        let pawn_pst = next_pawn_pst(values, &mut pos, &edges);
        assert(pos == 96);
        let knight_pst = next_score_array::<64>(values, &mut pos);
        assert(pos == 224);
        let bishop_pst = next_score_array::<64>(values, &mut pos);
        assert(pos == 352);
        let rook_pst = next_score_array::<64>(values, &mut pos);
        assert(pos == 480);
        let queen_pst = next_score_array::<64>(values, &mut pos);
        assert(pos == 608);
        let king_pst = next_score_array::<64>(values, &mut pos);
        assert(pos == 736);
        let pawn_value = next_score(values, &mut pos);
        assert(pos == 738);
        let knight_value = next_score(values, &mut pos);
        assert(pos == 740);
        let bishop_value = next_score(values, &mut pos);
        assert(pos == 742);
        let rook_value = next_score(values, &mut pos);
        assert(pos == 744);
        let queen_value = next_score(values, &mut pos);
        assert(pos == 746);
        let knight_outpost = next_score(values, &mut pos);
        assert(pos == 748);
        let defended_knight_outpost = next_score(values, &mut pos);
        assert(pos == 750);
        let bishop_pair = next_score(values, &mut pos);
        assert(pos == 752);
        let bishop_same_colour_pawns = next_score_array::<9>(values, &mut pos);
        assert(pos == 770);
        let fianchetto = next_score(values, &mut pos);
        assert(pos == 772);
        let bishop_outpost = next_score(values, &mut pos);
        assert(pos == 774);
        let defended_bishop_outpost = next_score(values, &mut pos);
        assert(pos == 776);
        let rook_open_file = next_score(values, &mut pos);
        assert(pos == 778);
        let rook_semi_open_file = next_score(values, &mut pos);
        assert(pos == 780);
        let rook_on_seventh = next_score(values, &mut pos);
        assert(pos == 782);
        let rook_on_queen_file = next_score(values, &mut pos);
        assert(pos == 784);
        let connected_doubled_rooks = next_score(values, &mut pos);
        assert(pos == 786);
        let queen_undeveloped_piece_punishment = next_score(values, &mut pos);
        assert(pos == 788);
        let queen_unmoved_king_punishment = next_score(values, &mut pos);
        assert(pos == 790);
        let pawn_threat_minor = next_score(values, &mut pos);
        assert(pos == 792);
        let pawn_threat_major = next_score(values, &mut pos);
        assert(pos == 794);
        let hanging_minor = next_score(values, &mut pos);
        assert(pos == 796);
        let hanging_rook = next_score(values, &mut pos);
        assert(pos == 798);
        let hanging_queen = next_score(values, &mut pos);
        assert(pos == 800);
        let minor_threat_queen = next_score(values, &mut pos);
        assert(pos == 802);
        let rook_threat_queen = next_score(values, &mut pos);
        assert(pos == 804);
        let doubled_pawns = next_score(values, &mut pos);
        assert(pos == 806);
        let tripled_pawns = next_score(values, &mut pos);
        assert(pos == 808);
        let quadrupled_pawns = next_score(values, &mut pos);
        assert(pos == 810);
        let isolated_pawn = next_score_array::<4>(values, &mut pos);
        assert(pos == 818);
        let backward_pawn = next_score_array::<4>(values, &mut pos);
        assert(pos == 826);
        let weak_unopposed = next_score(values, &mut pos);
        assert(pos == 828);
        let candidate_passer = next_score_array::<6>(values, &mut pos);
        assert(pos == 840);
        let connected_bonus = next_score_array::<6>(values, &mut pos);
        assert(pos == 852);
        let supported_bonus = next_score_array::<3>(values, &mut pos);
        assert(pos == 858);
        let passed_pawn = next_score_array::<6>(values, &mut pos);
        assert(pos == 870);
        let king_on_open_file = next_score(values, &mut pos);
        assert(pos == 872);
        let king_on_semi_open_file = next_score(values, &mut pos);
        assert(pos == 874);
        let king_shield_missing_pawn = next_score(values, &mut pos);
        assert(pos == 876);
        let king_pawn_shield_distance = next_score_array::<4>(values, &mut pos);
        assert(pos == 884);
        let enemy_pawn_distance_from_backrank = next_score_array::<4>(values, &mut pos);
        assert(pos == 892);
        let king_ring_pawn_weight = next_score(values, &mut pos);
        assert(pos == 894);
        let king_ring_knight_weight = next_score(values, &mut pos);
        assert(pos == 896);
        let king_ring_bishop_weight = next_score(values, &mut pos);
        assert(pos == 898);
        let king_ring_rook_weight = next_score(values, &mut pos);
        assert(pos == 900);
        let king_ring_queen_weight = next_score(values, &mut pos);
        assert(pos == 902);
        let king_ring_attacks = next_score_array::<24>(values, &mut pos);
        assert(pos == 950);
        let knight_adj = next_score_array::<9>(values, &mut pos);
        assert(pos == 968);
        let rook_adj = next_score_array::<9>(values, &mut pos);
        assert(pos == 986);
        let knight_mobility = next_score_array::<9>(values, &mut pos);
        assert(pos == 1004);
        let bishop_mobility = next_score_array::<14>(values, &mut pos);
        assert(pos == 1032);
        let rook_mobility = next_score_array::<15>(values, &mut pos);
        assert(pos == 1062);
        let queen_mobility = next_score_array::<28>(values, &mut pos);
        assert(pos == 1118);
        let r = Params {
            pawn_pst,
            knight_pst,
            bishop_pst,
            rook_pst,
            queen_pst,
            king_pst,
            pawn_value,
            knight_value,
            bishop_value,
            rook_value,
            queen_value,
            knight_outpost,
            defended_knight_outpost,
            bishop_pair,
            bishop_same_colour_pawns,
            fianchetto,
            bishop_outpost,
            defended_bishop_outpost,
            rook_open_file,
            rook_semi_open_file,
            rook_on_seventh,
            rook_on_queen_file,
            connected_doubled_rooks,
            queen_undeveloped_piece_punishment,
            queen_unmoved_king_punishment,
            pawn_threat_minor,
            pawn_threat_major,
            hanging_minor,
            hanging_rook,
            hanging_queen,
            minor_threat_queen,
            rook_threat_queen,
            doubled_pawns,
            tripled_pawns,
            quadrupled_pawns,
            isolated_pawn,
            backward_pawn,
            weak_unopposed,
            candidate_passer,
            connected_bonus,
            supported_bonus,
            passed_pawn,
            king_on_open_file,
            king_on_semi_open_file,
            king_shield_missing_pawn,
            king_pawn_shield_distance,
            enemy_pawn_distance_from_backrank,
            king_ring_pawn_weight,
            king_ring_knight_weight,
            king_ring_bishop_weight,
            king_ring_rook_weight,
            king_ring_queen_weight,
            king_ring_attacks,
            knight_adj,
            rook_adj,
            knight_mobility,
            bishop_mobility,
            rook_mobility,
            queen_mobility,
        };
        proof {
            let v = values@;
            let g = full_groups(r);
            assert(r.pawn_pst@.subrange(8, 56) =~= unflat(v.subrange(0, 96)));
            assert(g[1] == unflat(v.subrange(96, 224)));
            assert(g[2] == unflat(v.subrange(224, 352)));
            assert(g[3] == unflat(v.subrange(352, 480)));
            assert(g[4] == unflat(v.subrange(480, 608)));
            assert(g[5] == unflat(v.subrange(608, 736)));
            lemma_unflat_one(v, 736);
            assert(g[6] == unflat(v.subrange(736, 738)));
            lemma_unflat_one(v, 738);
            assert(g[7] == unflat(v.subrange(738, 740)));
            lemma_unflat_one(v, 740);
            assert(g[8] == unflat(v.subrange(740, 742)));
            lemma_unflat_one(v, 742);
            assert(g[9] == unflat(v.subrange(742, 744)));
            lemma_unflat_one(v, 744);
            assert(g[10] == unflat(v.subrange(744, 746)));
            lemma_unflat_one(v, 746);
            assert(g[11] == unflat(v.subrange(746, 748)));
            lemma_unflat_one(v, 748);
            assert(g[12] == unflat(v.subrange(748, 750)));
            lemma_unflat_one(v, 750);
            assert(g[13] == unflat(v.subrange(750, 752)));
            assert(g[14] == unflat(v.subrange(752, 770)));
            lemma_unflat_one(v, 770);
            assert(g[15] == unflat(v.subrange(770, 772)));
            lemma_unflat_one(v, 772);
            assert(g[16] == unflat(v.subrange(772, 774)));
            lemma_unflat_one(v, 774);
            assert(g[17] == unflat(v.subrange(774, 776)));
            lemma_unflat_one(v, 776);
            assert(g[18] == unflat(v.subrange(776, 778)));
            lemma_unflat_one(v, 778);
            assert(g[19] == unflat(v.subrange(778, 780)));
            lemma_unflat_one(v, 780);
            assert(g[20] == unflat(v.subrange(780, 782)));
            lemma_unflat_one(v, 782);
            assert(g[21] == unflat(v.subrange(782, 784)));
            lemma_unflat_one(v, 784);
            assert(g[22] == unflat(v.subrange(784, 786)));
            lemma_unflat_one(v, 786);
            assert(g[23] == unflat(v.subrange(786, 788)));
            lemma_unflat_one(v, 788);
            assert(g[24] == unflat(v.subrange(788, 790)));
            lemma_unflat_one(v, 790);
            assert(g[25] == unflat(v.subrange(790, 792)));
            lemma_unflat_one(v, 792);
            assert(g[26] == unflat(v.subrange(792, 794)));
            lemma_unflat_one(v, 794);
            assert(g[27] == unflat(v.subrange(794, 796)));
            lemma_unflat_one(v, 796);
            assert(g[28] == unflat(v.subrange(796, 798)));
            lemma_unflat_one(v, 798);
            assert(g[29] == unflat(v.subrange(798, 800)));
            lemma_unflat_one(v, 800);
            assert(g[30] == unflat(v.subrange(800, 802)));
            lemma_unflat_one(v, 802);
            assert(g[31] == unflat(v.subrange(802, 804)));
            lemma_unflat_one(v, 804);
            assert(g[32] == unflat(v.subrange(804, 806)));
            lemma_unflat_one(v, 806);
            assert(g[33] == unflat(v.subrange(806, 808)));
            lemma_unflat_one(v, 808);
            assert(g[34] == unflat(v.subrange(808, 810)));
            assert(g[35] == unflat(v.subrange(810, 818)));
            assert(g[36] == unflat(v.subrange(818, 826)));
            lemma_unflat_one(v, 826);
            assert(g[37] == unflat(v.subrange(826, 828)));
            assert(g[38] == unflat(v.subrange(828, 840)));
            assert(g[39] == unflat(v.subrange(840, 852)));
            assert(g[40] == unflat(v.subrange(852, 858)));
            assert(g[41] == unflat(v.subrange(858, 870)));
            lemma_unflat_one(v, 870);
            assert(g[42] == unflat(v.subrange(870, 872)));
            lemma_unflat_one(v, 872);
            assert(g[43] == unflat(v.subrange(872, 874)));
            lemma_unflat_one(v, 874);
            assert(g[44] == unflat(v.subrange(874, 876)));
            assert(g[45] == unflat(v.subrange(876, 884)));
            assert(g[46] == unflat(v.subrange(884, 892)));
            lemma_unflat_one(v, 892);
            assert(g[47] == unflat(v.subrange(892, 894)));
            lemma_unflat_one(v, 894);
            assert(g[48] == unflat(v.subrange(894, 896)));
            lemma_unflat_one(v, 896);
            assert(g[49] == unflat(v.subrange(896, 898)));
            lemma_unflat_one(v, 898);
            assert(g[50] == unflat(v.subrange(898, 900)));
            lemma_unflat_one(v, 900);
            assert(g[51] == unflat(v.subrange(900, 902)));
            assert(g[52] == unflat(v.subrange(902, 950)));
            assert(g[53] == unflat(v.subrange(950, 968)));
            assert(g[54] == unflat(v.subrange(968, 986)));
            assert(g[55] == unflat(v.subrange(986, 1004)));
            assert(g[56] == unflat(v.subrange(1004, 1032)));
            assert(g[57] == unflat(v.subrange(1032, 1062)));
            assert(g[58] == unflat(v.subrange(1062, 1118)));
        }
        r
    }

    #[verifier::rlimit(60)]
    pub fn flat_param_meta(&self) -> (r: Vec<ParamMeta>)
        ensures
            r@ == spread(self.meta@, full_sizes()),
    {
        let ghost m = self.meta@;
        let ghost sz = full_sizes();
        let mut out: Vec<ParamMeta> = Vec::new();
        proof {
            assert(m.take(0) =~= Seq::<ParamMeta>::empty());
            assert(sz.take(0) =~= Seq::<int>::empty());
        }
        push_pawn_pst_bounds(&mut out, self.meta[0]);
        proof {
            lemma_spread_take(m, sz, 0);
            assert(out@ =~= spread(m.take(1), sz.take(1)));
        }
        push_score_array_bounds::<64, ParamMeta>(&mut out, self.meta[1]);
        proof {
            lemma_spread_take(m, sz, 1);
            assert(out@ =~= spread(m.take(2), sz.take(2)));
        }
        push_score_array_bounds::<64, ParamMeta>(&mut out, self.meta[2]);
        proof {
            lemma_spread_take(m, sz, 2);
            assert(out@ =~= spread(m.take(3), sz.take(3)));
        }
        push_score_array_bounds::<64, ParamMeta>(&mut out, self.meta[3]);
        proof {
            lemma_spread_take(m, sz, 3);
            assert(out@ =~= spread(m.take(4), sz.take(4)));
        }
        push_score_array_bounds::<64, ParamMeta>(&mut out, self.meta[4]);
        proof {
            lemma_spread_take(m, sz, 4);
            assert(out@ =~= spread(m.take(5), sz.take(5)));
        }
        push_score_array_bounds::<64, ParamMeta>(&mut out, self.meta[5]);
        proof {
            lemma_spread_take(m, sz, 5);
            assert(out@ =~= spread(m.take(6), sz.take(6)));
        }
        push_score_bounds(&mut out, self.meta[6]);
        proof {
            lemma_spread_take(m, sz, 6);
            assert(out@ =~= spread(m.take(7), sz.take(7)));
        }
        push_score_bounds(&mut out, self.meta[7]);
        proof {
            lemma_spread_take(m, sz, 7);
            assert(out@ =~= spread(m.take(8), sz.take(8)));
        }
        push_score_bounds(&mut out, self.meta[8]);
        proof {
            lemma_spread_take(m, sz, 8);
            assert(out@ =~= spread(m.take(9), sz.take(9)));
        }
        push_score_bounds(&mut out, self.meta[9]);
        proof {
            lemma_spread_take(m, sz, 9);
            assert(out@ =~= spread(m.take(10), sz.take(10)));
        }
        push_score_bounds(&mut out, self.meta[10]);
        proof {
            lemma_spread_take(m, sz, 10);
            assert(out@ =~= spread(m.take(11), sz.take(11)));
        }
        push_score_bounds(&mut out, self.meta[11]);
        proof {
            lemma_spread_take(m, sz, 11);
            assert(out@ =~= spread(m.take(12), sz.take(12)));
        }
        push_score_bounds(&mut out, self.meta[12]);
        proof {
            lemma_spread_take(m, sz, 12);
            assert(out@ =~= spread(m.take(13), sz.take(13)));
        }
        push_score_bounds(&mut out, self.meta[13]);
        proof {
            lemma_spread_take(m, sz, 13);
            assert(out@ =~= spread(m.take(14), sz.take(14)));
        }
        push_score_array_bounds::<9, ParamMeta>(&mut out, self.meta[14]);
        proof {
            lemma_spread_take(m, sz, 14);
            assert(out@ =~= spread(m.take(15), sz.take(15)));
        }
        push_score_bounds(&mut out, self.meta[15]);
        proof {
            lemma_spread_take(m, sz, 15);
            assert(out@ =~= spread(m.take(16), sz.take(16)));
        }
        push_score_bounds(&mut out, self.meta[16]);
        proof {
            lemma_spread_take(m, sz, 16);
            assert(out@ =~= spread(m.take(17), sz.take(17)));
        }
        push_score_bounds(&mut out, self.meta[17]);
        proof {
            lemma_spread_take(m, sz, 17);
            assert(out@ =~= spread(m.take(18), sz.take(18)));
        }
        push_score_bounds(&mut out, self.meta[18]);
        proof {
            lemma_spread_take(m, sz, 18);
            assert(out@ =~= spread(m.take(19), sz.take(19)));
        }
        push_score_bounds(&mut out, self.meta[19]);
        proof {
            lemma_spread_take(m, sz, 19);
            assert(out@ =~= spread(m.take(20), sz.take(20)));
        }
        push_score_bounds(&mut out, self.meta[20]);
        proof {
            lemma_spread_take(m, sz, 20);
            assert(out@ =~= spread(m.take(21), sz.take(21)));
        }
        push_score_bounds(&mut out, self.meta[21]);
        proof {
            lemma_spread_take(m, sz, 21);
            assert(out@ =~= spread(m.take(22), sz.take(22)));
        }
        push_score_bounds(&mut out, self.meta[22]);
        proof {
            lemma_spread_take(m, sz, 22);
            assert(out@ =~= spread(m.take(23), sz.take(23)));
        }
        push_score_bounds(&mut out, self.meta[23]);
        proof {
            lemma_spread_take(m, sz, 23);
            assert(out@ =~= spread(m.take(24), sz.take(24)));
        }
        push_score_bounds(&mut out, self.meta[24]);
        proof {
            lemma_spread_take(m, sz, 24);
            assert(out@ =~= spread(m.take(25), sz.take(25)));
        }
        push_score_bounds(&mut out, self.meta[25]);
        proof {
            lemma_spread_take(m, sz, 25);
            assert(out@ =~= spread(m.take(26), sz.take(26)));
        }
        push_score_bounds(&mut out, self.meta[26]);
        proof {
            lemma_spread_take(m, sz, 26);
            assert(out@ =~= spread(m.take(27), sz.take(27)));
        }
        push_score_bounds(&mut out, self.meta[27]);
        proof {
            lemma_spread_take(m, sz, 27);
            assert(out@ =~= spread(m.take(28), sz.take(28)));
        }
        push_score_bounds(&mut out, self.meta[28]);
        proof {
            lemma_spread_take(m, sz, 28);
            assert(out@ =~= spread(m.take(29), sz.take(29)));
        }
        push_score_bounds(&mut out, self.meta[29]);
        proof {
            lemma_spread_take(m, sz, 29);
            assert(out@ =~= spread(m.take(30), sz.take(30)));
        }
        push_score_bounds(&mut out, self.meta[30]);
        proof {
            lemma_spread_take(m, sz, 30);
            assert(out@ =~= spread(m.take(31), sz.take(31)));
        }
        push_score_bounds(&mut out, self.meta[31]);
        proof {
            lemma_spread_take(m, sz, 31);
            assert(out@ =~= spread(m.take(32), sz.take(32)));
        }
        push_score_bounds(&mut out, self.meta[32]);
        proof {
            lemma_spread_take(m, sz, 32);
            assert(out@ =~= spread(m.take(33), sz.take(33)));
        }
        push_score_bounds(&mut out, self.meta[33]);
        proof {
            lemma_spread_take(m, sz, 33);
            assert(out@ =~= spread(m.take(34), sz.take(34)));
        }
        push_score_bounds(&mut out, self.meta[34]);
        proof {
            lemma_spread_take(m, sz, 34);
            assert(out@ =~= spread(m.take(35), sz.take(35)));
        }
        push_score_array_bounds::<4, ParamMeta>(&mut out, self.meta[35]);
        proof {
            lemma_spread_take(m, sz, 35);
            assert(out@ =~= spread(m.take(36), sz.take(36)));
        }
        push_score_array_bounds::<4, ParamMeta>(&mut out, self.meta[36]);
        proof {
            lemma_spread_take(m, sz, 36);
            assert(out@ =~= spread(m.take(37), sz.take(37)));
        }
        push_score_bounds(&mut out, self.meta[37]);
        proof {
            lemma_spread_take(m, sz, 37);
            assert(out@ =~= spread(m.take(38), sz.take(38)));
        }
        push_score_array_bounds::<6, ParamMeta>(&mut out, self.meta[38]);
        proof {
            lemma_spread_take(m, sz, 38);
            assert(out@ =~= spread(m.take(39), sz.take(39)));
        }
        push_score_array_bounds::<6, ParamMeta>(&mut out, self.meta[39]);
        proof {
            lemma_spread_take(m, sz, 39);
            assert(out@ =~= spread(m.take(40), sz.take(40)));
        }
        push_score_array_bounds::<3, ParamMeta>(&mut out, self.meta[40]);
        proof {
            lemma_spread_take(m, sz, 40);
            assert(out@ =~= spread(m.take(41), sz.take(41)));
        }
        push_score_array_bounds::<6, ParamMeta>(&mut out, self.meta[41]);
        proof {
            lemma_spread_take(m, sz, 41);
            assert(out@ =~= spread(m.take(42), sz.take(42)));
        }
        push_score_bounds(&mut out, self.meta[42]);
        proof {
            lemma_spread_take(m, sz, 42);
            assert(out@ =~= spread(m.take(43), sz.take(43)));
        }
        push_score_bounds(&mut out, self.meta[43]);
        proof {
            lemma_spread_take(m, sz, 43);
            assert(out@ =~= spread(m.take(44), sz.take(44)));
        }
        push_score_bounds(&mut out, self.meta[44]);
        proof {
            lemma_spread_take(m, sz, 44);
            assert(out@ =~= spread(m.take(45), sz.take(45)));
        }
        push_score_array_bounds::<4, ParamMeta>(&mut out, self.meta[45]);
        proof {
            lemma_spread_take(m, sz, 45);
            assert(out@ =~= spread(m.take(46), sz.take(46)));
        }
        push_score_array_bounds::<4, ParamMeta>(&mut out, self.meta[46]);
        proof {
            lemma_spread_take(m, sz, 46);
            assert(out@ =~= spread(m.take(47), sz.take(47)));
        }
        push_score_bounds(&mut out, self.meta[47]);
        proof {
            lemma_spread_take(m, sz, 47);
            assert(out@ =~= spread(m.take(48), sz.take(48)));
        }
        push_score_bounds(&mut out, self.meta[48]);
        proof {
            lemma_spread_take(m, sz, 48);
            assert(out@ =~= spread(m.take(49), sz.take(49)));
        }
        push_score_bounds(&mut out, self.meta[49]);
        proof {
            lemma_spread_take(m, sz, 49);
            assert(out@ =~= spread(m.take(50), sz.take(50)));
        }
        push_score_bounds(&mut out, self.meta[50]);
        proof {
            lemma_spread_take(m, sz, 50);
            assert(out@ =~= spread(m.take(51), sz.take(51)));
        }
        push_score_bounds(&mut out, self.meta[51]);
        proof {
            lemma_spread_take(m, sz, 51);
            assert(out@ =~= spread(m.take(52), sz.take(52)));
        }
        push_score_array_bounds::<24, ParamMeta>(&mut out, self.meta[52]);
        proof {
            lemma_spread_take(m, sz, 52);
            assert(out@ =~= spread(m.take(53), sz.take(53)));
        }
        push_score_array_bounds::<9, ParamMeta>(&mut out, self.meta[53]);
        proof {
            lemma_spread_take(m, sz, 53);
            assert(out@ =~= spread(m.take(54), sz.take(54)));
        }
        push_score_array_bounds::<9, ParamMeta>(&mut out, self.meta[54]);
        proof {
            lemma_spread_take(m, sz, 54);
            assert(out@ =~= spread(m.take(55), sz.take(55)));
        }
        push_score_array_bounds::<9, ParamMeta>(&mut out, self.meta[55]);
        proof {
            lemma_spread_take(m, sz, 55);
            assert(out@ =~= spread(m.take(56), sz.take(56)));
        }
        push_score_array_bounds::<14, ParamMeta>(&mut out, self.meta[56]);
        proof {
            lemma_spread_take(m, sz, 56);
            assert(out@ =~= spread(m.take(57), sz.take(57)));
        }
        push_score_array_bounds::<15, ParamMeta>(&mut out, self.meta[57]);
        proof {
            lemma_spread_take(m, sz, 57);
            assert(out@ =~= spread(m.take(58), sz.take(58)));
        }
        push_score_array_bounds::<28, ParamMeta>(&mut out, self.meta[58]);
        proof {
            lemma_spread_take(m, sz, 58);
            assert(out@ =~= spread(m.take(59), sz.take(59)));
        }
        assert(m.take(59) =~= m);
        assert(sz.take(59) =~= sz);
        out
    }

    /// Holds each packed value of an active group to the group's bounds and reads the
    /// parameters back (the pawn table's first and last ranks become zero).
    pub fn clamp(&self, params: &mut Params)
        requires
            meta_ok(self.meta@),
        ensures
            unpacked_full(clamped(flat_all(full_groups(*old(params))), spread(self.meta@, full_sizes())), *final(params)),
            flat_all(full_groups(*final(params))) == clamped(
                flat_all(full_groups(*old(params))),
                spread(self.meta@, full_sizes()),
            ),
    {
        let meta = self.flat_param_meta();
        let mut theta = self.pack(params);
        proof {
            lemma_full_groups(*params);
            lemma_flat_all_parts(full_groups(*params), full_sizes(), full_offsets());
            lemma_spread_parts(self.meta@, full_sizes(), full_offsets());
            lemma_spread_meta_ok(self.meta@, full_sizes());
        }
        clamp_values(&mut theta, &meta);
        let r = Self::unpack(theta.as_slice());
        proof {
            lemma_full_pack_unpack(theta@, r);
        }
        *params = r;
    }

    /// The starting parameters.
    pub fn default_params(&self) -> (r: Params)
        ensures
            r == self.params,
    {
        self.params
    }

    /// Applies rule 0 of `project`.
    fn project_step_0(&self, params: &mut Params, Ghost(g0): Ghost<Seq<Seq<Score>>>)
        requires
            full_project_ok(self.meta@, g0),
            full_groups(*old(params)) == full_stage(self.meta@, g0, 0),
        ensures
            full_groups(*final(params)) == full_stage(self.meta@, g0, 1),
    {
        let ghost g = full_stage(self.meta@, g0, 0);
        let ghost p0 = *params;
        proof {
            assert(full_stage(self.meta@, g0, 1) == full_step(self.meta@, g, 0));
        }
        if self.meta[38].active {
            proof {
                lemma_full_set_candidate_passer(p0, p0);
            }
            make_nondecreasing(&mut params.candidate_passer);
            proof {
                lemma_full_set_candidate_passer(p0, *params);
                assert(params.candidate_passer@ =~= nondecreasing_of(g[38]));
            }
        }
    }

    /// Applies rule 1 of `project`.
    fn project_step_1(&self, params: &mut Params, Ghost(g0): Ghost<Seq<Seq<Score>>>)
        requires
            full_project_ok(self.meta@, g0),
            full_groups(*old(params)) == full_stage(self.meta@, g0, 1),
        ensures
            full_groups(*final(params)) == full_stage(self.meta@, g0, 2),
    {
        let ghost g = full_stage(self.meta@, g0, 1);
        let ghost p0 = *params;
        proof {
            assert(full_stage(self.meta@, g0, 2) == full_step(self.meta@, g, 1));
        }
        if self.meta[39].active {
            proof {
                lemma_full_set_connected_bonus(p0, p0);
            }
            make_nondecreasing(&mut params.connected_bonus);
            proof {
                lemma_full_set_connected_bonus(p0, *params);
                assert(params.connected_bonus@ =~= nondecreasing_of(g[39]));
            }
        }
    }

    /// Applies rule 2 of `project`.
    fn project_step_2(&self, params: &mut Params, Ghost(g0): Ghost<Seq<Seq<Score>>>)
        requires
            full_project_ok(self.meta@, g0),
            full_groups(*old(params)) == full_stage(self.meta@, g0, 2),
        ensures
            full_groups(*final(params)) == full_stage(self.meta@, g0, 3),
    {
        let ghost g = full_stage(self.meta@, g0, 2);
        let ghost p0 = *params;
        proof {
            assert(full_stage(self.meta@, g0, 3) == full_step(self.meta@, g, 2));
        }
            proof {
                lemma_full_set_supported_bonus(p0, p0);
            }
            params.supported_bonus[0] = Score { mg: 0, eg: 0 };
            proof {
                lemma_full_set_supported_bonus(p0, *params);
                assert(params.supported_bonus@ =~= g[40].update(0, Score { mg: 0, eg: 0 }));
            }
    }

    /// Applies rule 3 of `project`.
    fn project_step_3(&self, params: &mut Params, Ghost(g0): Ghost<Seq<Seq<Score>>>)
        requires
            full_project_ok(self.meta@, g0),
            full_groups(*old(params)) == full_stage(self.meta@, g0, 3),
        ensures
            full_groups(*final(params)) == full_stage(self.meta@, g0, 4),
    {
        let ghost g = full_stage(self.meta@, g0, 3);
        let ghost p0 = *params;
        proof {
            assert(full_stage(self.meta@, g0, 4) == full_step(self.meta@, g, 3));
        }
        if self.meta[40].active {
            proof {
                lemma_full_set_supported_bonus(p0, p0);
            }
            make_nondecreasing(&mut params.supported_bonus);
            proof {
                lemma_full_set_supported_bonus(p0, *params);
                assert(params.supported_bonus@ =~= nondecreasing_of(g[40]));
            }
        }
    }

    /// Applies rule 4 of `project`.
    fn project_step_4(&self, params: &mut Params, Ghost(g0): Ghost<Seq<Seq<Score>>>)
        requires
            full_project_ok(self.meta@, g0),
            full_groups(*old(params)) == full_stage(self.meta@, g0, 4),
        ensures
            full_groups(*final(params)) == full_stage(self.meta@, g0, 5),
    {
        let ghost g = full_stage(self.meta@, g0, 4);
        let ghost p0 = *params;
        proof {
            assert(full_stage(self.meta@, g0, 5) == full_step(self.meta@, g, 4));
        }
        if self.meta[41].active {
            proof {
                lemma_full_set_passed_pawn(p0, p0);
            }
            make_nondecreasing(&mut params.passed_pawn);
            proof {
                lemma_full_set_passed_pawn(p0, *params);
                assert(params.passed_pawn@ =~= nondecreasing_of(g[41]));
            }
        }
    }

    /// Applies rule 5 of `project`.
    fn project_step_5(&self, params: &mut Params, Ghost(g0): Ghost<Seq<Seq<Score>>>)
        requires
            full_project_ok(self.meta@, g0),
            full_groups(*old(params)) == full_stage(self.meta@, g0, 5),
        ensures
            full_groups(*final(params)) == full_stage(self.meta@, g0, 6),
    {
        let ghost g = full_stage(self.meta@, g0, 5);
        let ghost p0 = *params;
        proof {
            assert(full_stage(self.meta@, g0, 6) == full_step(self.meta@, g, 5));
        }
        if self.meta[38].active || self.meta[41].active {
            proof {
                lemma_full_set_candidate_passer(p0, p0);
                lemma_full_set_passed_pawn(p0, p0);
            }
            let cap = params.passed_pawn;
            cap_each(&mut params.candidate_passer, &cap);
            proof {
                lemma_full_set_candidate_passer(p0, *params);
            }
        }
    }

    /// Applies rule 6 of `project`.
    fn project_step_6(&self, params: &mut Params, Ghost(g0): Ghost<Seq<Seq<Score>>>)
        requires
            full_project_ok(self.meta@, g0),
            full_groups(*old(params)) == full_stage(self.meta@, g0, 6),
        ensures
            full_groups(*final(params)) == full_stage(self.meta@, g0, 7),
    {
        let ghost g = full_stage(self.meta@, g0, 6);
        let ghost p0 = *params;
        proof {
            assert(full_stage(self.meta@, g0, 7) == full_step(self.meta@, g, 6));
        }
        if self.meta[52].active {
            proof {
                lemma_full_set_king_ring_attacks(p0, p0);
            }
            make_nonincreasing(&mut params.king_ring_attacks);
            proof {
                lemma_full_set_king_ring_attacks(p0, *params);
                assert(params.king_ring_attacks@ =~= nonincreasing_of(g[52]));
            }
        }
    }

    /// Applies rule 7 of `project`.
    fn project_step_7(&self, params: &mut Params, Ghost(g0): Ghost<Seq<Seq<Score>>>)
        requires
            full_project_ok(self.meta@, g0),
            full_groups(*old(params)) == full_stage(self.meta@, g0, 7),
        ensures
            full_groups(*final(params)) == full_stage(self.meta@, g0, 8),
    {
        let ghost g = full_stage(self.meta@, g0, 7);
        let ghost p0 = *params;
        proof {
            assert(full_stage(self.meta@, g0, 8) == full_step(self.meta@, g, 7));
        }
        if self.meta[53].active {
            proof {
                lemma_full_set_knight_adj(p0, p0);
            }
            make_nondecreasing(&mut params.knight_adj);
            proof {
                lemma_full_set_knight_adj(p0, *params);
                assert(params.knight_adj@ =~= nondecreasing_of(g[53]));
            }
        }
    }

    /// Applies rule 8 of `project`.
    fn project_step_8(&self, params: &mut Params, Ghost(g0): Ghost<Seq<Seq<Score>>>)
        requires
            full_project_ok(self.meta@, g0),
            full_groups(*old(params)) == full_stage(self.meta@, g0, 8),
        ensures
            full_groups(*final(params)) == full_stage(self.meta@, g0, 9),
    {
        let ghost g = full_stage(self.meta@, g0, 8);
        let ghost p0 = *params;
        proof {
            assert(full_stage(self.meta@, g0, 9) == full_step(self.meta@, g, 8));
            assert(full_step_ok(self.meta@, g, 8));
        }
        if self.meta[53].active && self.meta[7].active {
            proof {
                lemma_full_set_knight_value(p0, p0);
                lemma_full_set_knight_adj(p0, p0);
            }
            normalise_mean_zero(&mut params.knight_value, &mut params.knight_adj);
            proof {
                let mid = Params { knight_value: params.knight_value, ..p0 };
                lemma_full_set_knight_value(p0, mid);
                lemma_full_set_knight_adj(mid, *params);
                assert(params.knight_adj@ =~= mean_removed(g[53]));
                assert(params.knight_value == mean_added(g[7][0], g[53]));
            }
        }
    }

    /// Applies rule 9 of `project`.
    fn project_step_9(&self, params: &mut Params, Ghost(g0): Ghost<Seq<Seq<Score>>>)
        requires
            full_project_ok(self.meta@, g0),
            full_groups(*old(params)) == full_stage(self.meta@, g0, 9),
        ensures
            full_groups(*final(params)) == full_stage(self.meta@, g0, 10),
    {
        let ghost g = full_stage(self.meta@, g0, 9);
        let ghost p0 = *params;
        proof {
            assert(full_stage(self.meta@, g0, 10) == full_step(self.meta@, g, 9));
        }
        if self.meta[54].active {
            proof {
                lemma_full_set_rook_adj(p0, p0);
            }
            make_nonincreasing(&mut params.rook_adj);
            proof {
                lemma_full_set_rook_adj(p0, *params);
                assert(params.rook_adj@ =~= nonincreasing_of(g[54]));
            }
        }
    }

    /// Applies rule 10 of `project`.
    fn project_step_10(&self, params: &mut Params, Ghost(g0): Ghost<Seq<Seq<Score>>>)
        requires
            full_project_ok(self.meta@, g0),
            full_groups(*old(params)) == full_stage(self.meta@, g0, 10),
        ensures
            full_groups(*final(params)) == full_stage(self.meta@, g0, 11),
    {
        let ghost g = full_stage(self.meta@, g0, 10);
        let ghost p0 = *params;
        proof {
            assert(full_stage(self.meta@, g0, 11) == full_step(self.meta@, g, 10));
            assert(full_step_ok(self.meta@, g, 10));
        }
        if self.meta[54].active && self.meta[9].active {
            proof {
                lemma_full_set_rook_value(p0, p0);
                lemma_full_set_rook_adj(p0, p0);
            }
            normalise_mean_zero(&mut params.rook_value, &mut params.rook_adj);
            proof {
                let mid = Params { rook_value: params.rook_value, ..p0 };
                lemma_full_set_rook_value(p0, mid);
                lemma_full_set_rook_adj(mid, *params);
                assert(params.rook_adj@ =~= mean_removed(g[54]));
                assert(params.rook_value == mean_added(g[9][0], g[54]));
            }
        }
    }

    /// Applies rule 11 of `project`.
    fn project_step_11(&self, params: &mut Params, Ghost(g0): Ghost<Seq<Seq<Score>>>)
        requires
            full_project_ok(self.meta@, g0),
            full_groups(*old(params)) == full_stage(self.meta@, g0, 11),
        ensures
            full_groups(*final(params)) == full_stage(self.meta@, g0, 12),
    {
        let ghost g = full_stage(self.meta@, g0, 11);
        let ghost p0 = *params;
        proof {
            assert(full_stage(self.meta@, g0, 12) == full_step(self.meta@, g, 11));
        }
        if self.meta[33].active {
            proof {
                lemma_full_set_tripled_pawns(p0, p0);
                lemma_full_set_doubled_pawns(p0, p0);
            }
            params.tripled_pawns = min_score(params.tripled_pawns, params.doubled_pawns);
            proof {
                lemma_full_set_tripled_pawns(p0, *params);
            }
        }
    }

    /// Applies rule 12 of `project`.
    fn project_step_12(&self, params: &mut Params, Ghost(g0): Ghost<Seq<Seq<Score>>>)
        requires
            full_project_ok(self.meta@, g0),
            full_groups(*old(params)) == full_stage(self.meta@, g0, 12),
        ensures
            full_groups(*final(params)) == full_stage(self.meta@, g0, 13),
    {
        let ghost g = full_stage(self.meta@, g0, 12);
        let ghost p0 = *params;
        proof {
            assert(full_stage(self.meta@, g0, 13) == full_step(self.meta@, g, 12));
        }
        if self.meta[34].active {
            proof {
                lemma_full_set_quadrupled_pawns(p0, p0);
                lemma_full_set_tripled_pawns(p0, p0);
            }
            params.quadrupled_pawns = min_score(params.quadrupled_pawns, params.tripled_pawns);
            proof {
                lemma_full_set_quadrupled_pawns(p0, *params);
            }
        }
    }

    /// Applies rule 13 of `project`.
    fn project_step_13(&self, params: &mut Params, Ghost(g0): Ghost<Seq<Seq<Score>>>)
        requires
            full_project_ok(self.meta@, g0),
            full_groups(*old(params)) == full_stage(self.meta@, g0, 13),
        ensures
            full_groups(*final(params)) == full_stage(self.meta@, g0, 14),
    {
        let ghost g = full_stage(self.meta@, g0, 13);
        let ghost p0 = *params;
        proof {
            assert(full_stage(self.meta@, g0, 14) == full_step(self.meta@, g, 13));
            assert(full_step_ok(self.meta@, g, 13));
        }
        if self.meta[8].active {
            proof {
                lemma_full_set_bishop_value(p0, p0);
                lemma_full_set_knight_value(p0, p0);
            }
            params.bishop_value = floor_score(params.bishop_value, params.knight_value, -20);
            proof {
                lemma_full_set_bishop_value(p0, *params);
            }
        }
    }

    /// Applies rule 14 of `project`.
    fn project_step_14(&self, params: &mut Params, Ghost(g0): Ghost<Seq<Seq<Score>>>)
        requires
            full_project_ok(self.meta@, g0),
            full_groups(*old(params)) == full_stage(self.meta@, g0, 14),
        ensures
            full_groups(*final(params)) == full_stage(self.meta@, g0, 15),
    {
        let ghost g = full_stage(self.meta@, g0, 14);
        let ghost p0 = *params;
        proof {
            assert(full_stage(self.meta@, g0, 15) == full_step(self.meta@, g, 14));
            assert(full_step_ok(self.meta@, g, 14));
        }
        if self.meta[9].active {
            proof {
                lemma_full_set_rook_value(p0, p0);
                lemma_full_set_bishop_value(p0, p0);
            }
            params.rook_value = floor_score(params.rook_value, params.bishop_value, 100);
            proof {
                lemma_full_set_rook_value(p0, *params);
            }
        }
    }

    /// Applies rule 15 of `project`.
    fn project_step_15(&self, params: &mut Params, Ghost(g0): Ghost<Seq<Seq<Score>>>)
        requires
            full_project_ok(self.meta@, g0),
            full_groups(*old(params)) == full_stage(self.meta@, g0, 15),
        ensures
            full_groups(*final(params)) == full_stage(self.meta@, g0, 16),
    {
        let ghost g = full_stage(self.meta@, g0, 15);
        let ghost p0 = *params;
        proof {
            assert(full_stage(self.meta@, g0, 16) == full_step(self.meta@, g, 15));
            assert(full_step_ok(self.meta@, g, 15));
        }
        if self.meta[25].active || self.meta[26].active {
            proof {
                lemma_full_set_pawn_threat_major(p0, p0);
                lemma_full_set_pawn_threat_minor(p0, p0);
            }
            params.pawn_threat_major = floor_score(params.pawn_threat_major, params.pawn_threat_minor, 1);
            proof {
                lemma_full_set_pawn_threat_major(p0, *params);
            }
        }
    }

    /// Applies rule 16 of `project`.
    fn project_step_16(&self, params: &mut Params, Ghost(g0): Ghost<Seq<Seq<Score>>>)
        requires
            full_project_ok(self.meta@, g0),
            full_groups(*old(params)) == full_stage(self.meta@, g0, 16),
        ensures
            full_groups(*final(params)) == full_stage(self.meta@, g0, 17),
    {
        let ghost g = full_stage(self.meta@, g0, 16);
        let ghost p0 = *params;
        proof {
            assert(full_stage(self.meta@, g0, 17) == full_step(self.meta@, g, 16));
            assert(full_step_ok(self.meta@, g, 16));
        }
        if self.meta[27].active || self.meta[28].active {
            proof {
                lemma_full_set_hanging_rook(p0, p0);
                lemma_full_set_hanging_minor(p0, p0);
            }
            params.hanging_rook = floor_score(params.hanging_rook, params.hanging_minor, 1);
            proof {
                lemma_full_set_hanging_rook(p0, *params);
            }
        }
    }

    /// Applies rule 17 of `project`.
    fn project_step_17(&self, params: &mut Params, Ghost(g0): Ghost<Seq<Seq<Score>>>)
        requires
            full_project_ok(self.meta@, g0),
            full_groups(*old(params)) == full_stage(self.meta@, g0, 17),
        ensures
            full_groups(*final(params)) == full_stage(self.meta@, g0, 18),
    {
        let ghost g = full_stage(self.meta@, g0, 17);
        let ghost p0 = *params;
        proof {
            assert(full_stage(self.meta@, g0, 18) == full_step(self.meta@, g, 17));
            assert(full_step_ok(self.meta@, g, 17));
        }
        if self.meta[28].active || self.meta[29].active {
            proof {
                lemma_full_set_hanging_queen(p0, p0);
                lemma_full_set_hanging_rook(p0, p0);
            }
            params.hanging_queen = floor_score(params.hanging_queen, params.hanging_rook, 1);
            proof {
                lemma_full_set_hanging_queen(p0, *params);
            }
        }
    }

    /// Applies rule 18 of `project`.
    fn project_step_18(&self, params: &mut Params, Ghost(g0): Ghost<Seq<Seq<Score>>>)
        requires
            full_project_ok(self.meta@, g0),
            full_groups(*old(params)) == full_stage(self.meta@, g0, 18),
        ensures
            full_groups(*final(params)) == full_stage(self.meta@, g0, 19),
    {
        let ghost g = full_stage(self.meta@, g0, 18);
        let ghost p0 = *params;
        proof {
            assert(full_stage(self.meta@, g0, 19) == full_step(self.meta@, g, 18));
            assert(full_step_ok(self.meta@, g, 18));
        }
        if self.meta[7].active && self.meta[55].active {
            proof {
                lemma_full_set_knight_value(p0, p0);
                lemma_full_set_knight_mobility(p0, p0);
            }
            normalise_mean_zero(&mut params.knight_value, &mut params.knight_mobility);
            proof {
                let mid = Params { knight_value: params.knight_value, ..p0 };
                lemma_full_set_knight_value(p0, mid);
                lemma_full_set_knight_mobility(mid, *params);
                assert(params.knight_mobility@ =~= mean_removed(g[55]));
                assert(params.knight_value == mean_added(g[7][0], g[55]));
            }
        }
    }

    /// Applies rule 19 of `project`.
    fn project_step_19(&self, params: &mut Params, Ghost(g0): Ghost<Seq<Seq<Score>>>)
        requires
            full_project_ok(self.meta@, g0),
            full_groups(*old(params)) == full_stage(self.meta@, g0, 19),
        ensures
            full_groups(*final(params)) == full_stage(self.meta@, g0, 20),
    {
        let ghost g = full_stage(self.meta@, g0, 19);
        let ghost p0 = *params;
        proof {
            assert(full_stage(self.meta@, g0, 20) == full_step(self.meta@, g, 19));
            assert(full_step_ok(self.meta@, g, 19));
        }
        if self.meta[8].active && self.meta[56].active {
            proof {
                lemma_full_set_bishop_value(p0, p0);
                lemma_full_set_bishop_mobility(p0, p0);
            }
            normalise_mean_zero(&mut params.bishop_value, &mut params.bishop_mobility);
            proof {
                let mid = Params { bishop_value: params.bishop_value, ..p0 };
                lemma_full_set_bishop_value(p0, mid);
                lemma_full_set_bishop_mobility(mid, *params);
                assert(params.bishop_mobility@ =~= mean_removed(g[56]));
                assert(params.bishop_value == mean_added(g[8][0], g[56]));
            }
        }
    }

    /// Applies rule 20 of `project`.
    fn project_step_20(&self, params: &mut Params, Ghost(g0): Ghost<Seq<Seq<Score>>>)
        requires
            full_project_ok(self.meta@, g0),
            full_groups(*old(params)) == full_stage(self.meta@, g0, 20),
        ensures
            full_groups(*final(params)) == full_stage(self.meta@, g0, 21),
    {
        let ghost g = full_stage(self.meta@, g0, 20);
        let ghost p0 = *params;
        proof {
            assert(full_stage(self.meta@, g0, 21) == full_step(self.meta@, g, 20));
            assert(full_step_ok(self.meta@, g, 20));
        }
        if self.meta[9].active && self.meta[57].active {
            proof {
                lemma_full_set_rook_value(p0, p0);
                lemma_full_set_rook_mobility(p0, p0);
            }
            normalise_mean_zero(&mut params.rook_value, &mut params.rook_mobility);
            proof {
                let mid = Params { rook_value: params.rook_value, ..p0 };
                lemma_full_set_rook_value(p0, mid);
                lemma_full_set_rook_mobility(mid, *params);
                assert(params.rook_mobility@ =~= mean_removed(g[57]));
                assert(params.rook_value == mean_added(g[9][0], g[57]));
            }
        }
    }

    /// Applies rule 21 of `project`.
    fn project_step_21(&self, params: &mut Params, Ghost(g0): Ghost<Seq<Seq<Score>>>)
        requires
            full_project_ok(self.meta@, g0),
            full_groups(*old(params)) == full_stage(self.meta@, g0, 21),
        ensures
            full_groups(*final(params)) == full_stage(self.meta@, g0, 22),
    {
        let ghost g = full_stage(self.meta@, g0, 21);
        let ghost p0 = *params;
        proof {
            assert(full_stage(self.meta@, g0, 22) == full_step(self.meta@, g, 21));
            assert(full_step_ok(self.meta@, g, 21));
        }
        if self.meta[10].active && self.meta[58].active {
            proof {
                lemma_full_set_queen_value(p0, p0);
                lemma_full_set_queen_mobility(p0, p0);
            }
            normalise_mean_zero(&mut params.queen_value, &mut params.queen_mobility);
            proof {
                let mid = Params { queen_value: params.queen_value, ..p0 };
                lemma_full_set_queen_value(p0, mid);
                lemma_full_set_queen_mobility(mid, *params);
                assert(params.queen_mobility@ =~= mean_removed(g[58]));
                assert(params.queen_value == mean_added(g[10][0], g[58]));
            }
        }
    }

    /// Applies rule 22 of `project`.
    fn project_step_22(&self, params: &mut Params, Ghost(g0): Ghost<Seq<Seq<Score>>>)
        requires
            full_project_ok(self.meta@, g0),
            full_groups(*old(params)) == full_stage(self.meta@, g0, 22),
        ensures
            full_groups(*final(params)) == full_stage(self.meta@, g0, 23),
    {
        let ghost g = full_stage(self.meta@, g0, 22);
        let ghost p0 = *params;
        proof {
            assert(full_stage(self.meta@, g0, 23) == full_step(self.meta@, g, 22));
            assert(full_step_ok(self.meta@, g, 22));
        }
        if self.meta[8].active && self.meta[14].active {
            proof {
                lemma_full_set_bishop_value(p0, p0);
                lemma_full_set_bishop_same_colour_pawns(p0, p0);
            }
            normalise_mean_zero(&mut params.bishop_value, &mut params.bishop_same_colour_pawns);
            proof {
                let mid = Params { bishop_value: params.bishop_value, ..p0 };
                lemma_full_set_bishop_value(p0, mid);
                lemma_full_set_bishop_same_colour_pawns(mid, *params);
                assert(params.bishop_same_colour_pawns@ =~= mean_removed(g[14]));
                assert(params.bishop_value == mean_added(g[8][0], g[14]));
            }
        }
    }

    /// Applies rule 23 of `project`.
    fn project_step_23(&self, params: &mut Params, Ghost(g0): Ghost<Seq<Seq<Score>>>)
        requires
            full_project_ok(self.meta@, g0),
            full_groups(*old(params)) == full_stage(self.meta@, g0, 23),
        ensures
            full_groups(*final(params)) == full_stage(self.meta@, g0, 24),
    {
        let ghost g = full_stage(self.meta@, g0, 23);
        let ghost p0 = *params;
        proof {
            assert(full_stage(self.meta@, g0, 24) == full_step(self.meta@, g, 23));
            assert(full_step_ok(self.meta@, g, 23));
        }
        if self.meta[52].active {
            proof {
                lemma_full_set_king_ring_attacks(p0, p0);
            }
            normalise_king_ring(&mut params.king_ring_attacks);
            proof {
                lemma_full_set_king_ring_attacks(p0, *params);
                assert(params.king_ring_attacks@ =~= king_ring_of(g[52]));
            }
        }
    }

    /// Applies the rules that keep tuned values sensible (see `full_step`), then clamps.
    pub fn project(&self, params: &mut Params)
        requires
            full_project_ok(self.meta@, full_groups(*old(params))),
        ensures
            flat_all(full_groups(*final(params))) == clamped(
                flat_all(full_stage(self.meta@, full_groups(*old(params)), 24)),
                spread(self.meta@, full_sizes()),
            ),
            pawn_edges_zero(final(params).pawn_pst@),
    {
        let ghost g0 = full_groups(*params);
        self.project_step_0(params, Ghost(g0));
        self.project_step_1(params, Ghost(g0));
        self.project_step_2(params, Ghost(g0));
        self.project_step_3(params, Ghost(g0));
        self.project_step_4(params, Ghost(g0));
        self.project_step_5(params, Ghost(g0));
        self.project_step_6(params, Ghost(g0));
        self.project_step_7(params, Ghost(g0));
        self.project_step_8(params, Ghost(g0));
        self.project_step_9(params, Ghost(g0));
        self.project_step_10(params, Ghost(g0));
        self.project_step_11(params, Ghost(g0));
        self.project_step_12(params, Ghost(g0));
        self.project_step_13(params, Ghost(g0));
        self.project_step_14(params, Ghost(g0));
        self.project_step_15(params, Ghost(g0));
        self.project_step_16(params, Ghost(g0));
        self.project_step_17(params, Ghost(g0));
        self.project_step_18(params, Ghost(g0));
        self.project_step_19(params, Ghost(g0));
        self.project_step_20(params, Ghost(g0));
        self.project_step_21(params, Ghost(g0));
        self.project_step_22(params, Ghost(g0));
        self.project_step_23(params, Ghost(g0));
        self.clamp(params);
    }
}

impl LazyTuningConfig {
    pub fn pack(&self, params: &LazyParams) -> (r: Vec<i32>)
        ensures
            r@ == flat_all(lazy_groups(*params)),
    {
        let ghost g = lazy_groups(*params);
        let mut out: Vec<i32> = Vec::new();
        proof {
            assert(g.take(0) =~= Seq::<Seq<Score>>::empty());
        }
        push_pawn_pst(&mut out, &params.pawn_pst);
        proof {
            lemma_flat_all_take(g, 0);
            assert(out@ =~= flat_all(g.take(1)));
        }
        push_score_array(&mut out, &params.knight_pst);
        proof {
            lemma_flat_all_take(g, 1);
            assert(out@ =~= flat_all(g.take(2)));
        }
        push_score_array(&mut out, &params.bishop_pst);
        proof {
            lemma_flat_all_take(g, 2);
            assert(out@ =~= flat_all(g.take(3)));
        }
        push_score_array(&mut out, &params.rook_pst);
        proof {
            lemma_flat_all_take(g, 3);
            assert(out@ =~= flat_all(g.take(4)));
        }
        push_score_array(&mut out, &params.queen_pst);
        proof {
            lemma_flat_all_take(g, 4);
            assert(out@ =~= flat_all(g.take(5)));
        }
        push_score_array(&mut out, &params.king_pst);
        proof {
            lemma_flat_all_take(g, 5);
            assert(out@ =~= flat_all(g.take(6)));
        }
        push_score(&mut out, params.pawn_value);
        proof {
            lemma_flat_one(params.pawn_value);
            lemma_flat_all_take(g, 6);
            assert(out@ =~= flat_all(g.take(7)));
        }
        push_score(&mut out, params.knight_value);
        proof {
            lemma_flat_one(params.knight_value);
            lemma_flat_all_take(g, 7);
            assert(out@ =~= flat_all(g.take(8)));
        }
        push_score(&mut out, params.bishop_value);
        proof {
            lemma_flat_one(params.bishop_value);
            lemma_flat_all_take(g, 8);
            assert(out@ =~= flat_all(g.take(9)));
        }
        push_score(&mut out, params.rook_value);
        proof {
            lemma_flat_one(params.rook_value);
            lemma_flat_all_take(g, 9);
            assert(out@ =~= flat_all(g.take(10)));
        }
        push_score(&mut out, params.queen_value);
        proof {
            lemma_flat_one(params.queen_value);
            lemma_flat_all_take(g, 10);
            assert(out@ =~= flat_all(g.take(11)));
        }
        assert(g.take(11) =~= g);
        out
    }

    pub fn unpack(values: &[i32]) -> (r: LazyParams)
        requires
            values@.len() == 746,
        ensures
            unpacked_lazy(values@, r),
    {
        let mut pos: usize = 0;
        let edges: [Score; 64] = [Score { mg: 0, eg: 0 }; 64];
        let pawn_pst = next_pawn_pst(values, &mut pos, &edges);
        assert(pos == 96);
        let knight_pst = next_score_array::<64>(values, &mut pos);
        assert(pos == 224);
        let bishop_pst = next_score_array::<64>(values, &mut pos);
        assert(pos == 352);
        let rook_pst = next_score_array::<64>(values, &mut pos);
        assert(pos == 480);
        let queen_pst = next_score_array::<64>(values, &mut pos);
        assert(pos == 608);
        let king_pst = next_score_array::<64>(values, &mut pos);
        assert(pos == 736);
        let pawn_value = next_score(values, &mut pos);
        assert(pos == 738);
        let knight_value = next_score(values, &mut pos);
        assert(pos == 740);
        let bishop_value = next_score(values, &mut pos);
        assert(pos == 742);
        let rook_value = next_score(values, &mut pos);
        assert(pos == 744);
        let queen_value = next_score(values, &mut pos);
        assert(pos == 746);
        let r = LazyParams {
            pawn_pst,
            knight_pst,
            bishop_pst,
            rook_pst,
            queen_pst,
            king_pst,
            pawn_value,
            knight_value,
            bishop_value,
            rook_value,
            queen_value,
        };
        proof {
            let v = values@;
            let g = lazy_groups(r);
            assert(r.pawn_pst@.subrange(8, 56) =~= unflat(v.subrange(0, 96)));
            assert(g[1] == unflat(v.subrange(96, 224)));
            assert(g[2] == unflat(v.subrange(224, 352)));
            assert(g[3] == unflat(v.subrange(352, 480)));
            assert(g[4] == unflat(v.subrange(480, 608)));
            assert(g[5] == unflat(v.subrange(608, 736)));
            lemma_unflat_one(v, 736);
            assert(g[6] == unflat(v.subrange(736, 738)));
            lemma_unflat_one(v, 738);
            assert(g[7] == unflat(v.subrange(738, 740)));
            lemma_unflat_one(v, 740);
            assert(g[8] == unflat(v.subrange(740, 742)));
            lemma_unflat_one(v, 742);
            assert(g[9] == unflat(v.subrange(742, 744)));
            lemma_unflat_one(v, 744);
            assert(g[10] == unflat(v.subrange(744, 746)));
        }
        r
    }

    pub fn flat_param_meta(&self) -> (r: Vec<ParamMeta>)
        ensures
            r@ == spread(self.meta@, lazy_sizes()),
    {
        let ghost m = self.meta@;
        let ghost sz = lazy_sizes();
        let mut out: Vec<ParamMeta> = Vec::new();
        proof {
            assert(m.take(0) =~= Seq::<ParamMeta>::empty());
            assert(sz.take(0) =~= Seq::<int>::empty());
        }
        push_pawn_pst_bounds(&mut out, self.meta[0]);
        proof {
            lemma_spread_take(m, sz, 0);
            assert(out@ =~= spread(m.take(1), sz.take(1)));
        }
        push_score_array_bounds::<64, ParamMeta>(&mut out, self.meta[1]);
        proof {
            lemma_spread_take(m, sz, 1);
            assert(out@ =~= spread(m.take(2), sz.take(2)));
        }
        push_score_array_bounds::<64, ParamMeta>(&mut out, self.meta[2]);
        proof {
            lemma_spread_take(m, sz, 2);
            assert(out@ =~= spread(m.take(3), sz.take(3)));
        }
        push_score_array_bounds::<64, ParamMeta>(&mut out, self.meta[3]);
        proof {
            lemma_spread_take(m, sz, 3);
            assert(out@ =~= spread(m.take(4), sz.take(4)));
        }
        push_score_array_bounds::<64, ParamMeta>(&mut out, self.meta[4]);
        proof {
            lemma_spread_take(m, sz, 4);
            assert(out@ =~= spread(m.take(5), sz.take(5)));
        }
        push_score_array_bounds::<64, ParamMeta>(&mut out, self.meta[5]);
        proof {
            lemma_spread_take(m, sz, 5);
            assert(out@ =~= spread(m.take(6), sz.take(6)));
        }
        push_score_bounds(&mut out, self.meta[6]);
        proof {
            lemma_spread_take(m, sz, 6);
            assert(out@ =~= spread(m.take(7), sz.take(7)));
        }
        push_score_bounds(&mut out, self.meta[7]);
        proof {
            lemma_spread_take(m, sz, 7);
            assert(out@ =~= spread(m.take(8), sz.take(8)));
        }
        push_score_bounds(&mut out, self.meta[8]);
        proof {
            lemma_spread_take(m, sz, 8);
            assert(out@ =~= spread(m.take(9), sz.take(9)));
        }
        push_score_bounds(&mut out, self.meta[9]);
        proof {
            lemma_spread_take(m, sz, 9);
            assert(out@ =~= spread(m.take(10), sz.take(10)));
        }
        push_score_bounds(&mut out, self.meta[10]);
        proof {
            lemma_spread_take(m, sz, 10);
            assert(out@ =~= spread(m.take(11), sz.take(11)));
        }
        assert(m.take(11) =~= m);
        assert(sz.take(11) =~= sz);
        out
    }

    /// Holds each packed value of an active group to the group's bounds and reads the
    /// parameters back (the pawn table's first and last ranks become zero).
    pub fn clamp(&self, params: &mut LazyParams)
        requires
            meta_ok(self.meta@),
        ensures
            unpacked_lazy(clamped(flat_all(lazy_groups(*old(params))), spread(self.meta@, lazy_sizes())), *final(params)),
            flat_all(lazy_groups(*final(params))) == clamped(
                flat_all(lazy_groups(*old(params))),
                spread(self.meta@, lazy_sizes()),
            ),
    {
        let meta = self.flat_param_meta();
        let mut theta = self.pack(params);
        proof {
            lemma_lazy_groups(*params);
            lemma_flat_all_parts(lazy_groups(*params), lazy_sizes(), lazy_offsets());
            lemma_spread_parts(self.meta@, lazy_sizes(), lazy_offsets());
            lemma_spread_meta_ok(self.meta@, lazy_sizes());
        }
        clamp_values(&mut theta, &meta);
        let r = Self::unpack(theta.as_slice());
        proof {
            lemma_lazy_pack_unpack(theta@, r);
        }
        *params = r;
    }

    /// Keeps material values apart (bishop at least knight less 20, rook at least bishop plus
    /// 100, each when that value is tuned), then clamps.
    pub fn project(&self, params: &mut LazyParams)
        requires
            meta_ok(self.meta@),
            self.meta@[8].active ==> old(params).knight_value.mg - 20 >= i32::MIN
                && old(params).knight_value.eg - 20 >= i32::MIN,
            self.meta@[9].active ==> bishop_floor(
                self.meta@[8].active,
                old(params).bishop_value,
                old(params).knight_value,
            ).mg + 100 <= i32::MAX && bishop_floor(
                self.meta@[8].active,
                old(params).bishop_value,
                old(params).knight_value,
            ).eg + 100 <= i32::MAX,
        ensures
            flat_all(lazy_groups(*final(params))) == clamped(
                flat_all(lazy_projected(self.meta@, lazy_groups(*old(params)))),
                spread(self.meta@, lazy_sizes()),
            ),
            pawn_edges_zero(final(params).pawn_pst@),
    {
        let ghost g0 = lazy_groups(*params);
        if self.meta[8].active {
            let k = params.knight_value;
            let b = params.bishop_value;
            params.bishop_value = Score {
                mg: if b.mg > k.mg - 20 { b.mg } else { k.mg - 20 },
                eg: if b.eg > k.eg - 20 { b.eg } else { k.eg - 20 },
            };
        }
        if self.meta[9].active {
            let b = params.bishop_value;
            let r = params.rook_value;
            params.rook_value = Score {
                mg: if r.mg > b.mg + 100 { r.mg } else { b.mg + 100 },
                eg: if r.eg > b.eg + 100 { r.eg } else { b.eg + 100 },
            };
        }
        proof {
            assert(lazy_groups(*params) =~= lazy_projected(self.meta@, g0));
        }
        self.clamp(params);
        proof {
            lemma_lazy_groups(*params);
        }
    }

    /// The starting parameters.
    pub fn default_params(&self) -> (r: LazyParams)
        ensures
            r == self.params,
    {
        self.params
    }
}

/// The default bounds of each group of the full parameters, and which are tuned.
pub open spec fn default_param_meta_spec() -> Seq<ParamMeta> {
    seq![
        ParamMeta { bounds: ParamBounds { min: -50i32, max: 200i32 }, active: false },
        ParamMeta { bounds: ParamBounds { min: -200i32, max: 200i32 }, active: false },
        ParamMeta { bounds: ParamBounds { min: -100i32, max: 100i32 }, active: false },
        ParamMeta { bounds: ParamBounds { min: -100i32, max: 100i32 }, active: true },
        ParamMeta { bounds: ParamBounds { min: -200i32, max: 200i32 }, active: false },
        ParamMeta { bounds: ParamBounds { min: -200i32, max: 200i32 }, active: false },
        ParamMeta { bounds: ParamBounds { min: 70i32, max: 100i32 }, active: false },
        ParamMeta { bounds: ParamBounds { min: 240i32, max: 360i32 }, active: false },
        ParamMeta { bounds: ParamBounds { min: 250i32, max: 370i32 }, active: false },
        ParamMeta { bounds: ParamBounds { min: 400i32, max: 560i32 }, active: true },
        ParamMeta { bounds: ParamBounds { min: 850i32, max: 1100i32 }, active: false },
        ParamMeta { bounds: ParamBounds { min: -5i32, max: 30i32 }, active: false },
        ParamMeta { bounds: ParamBounds { min: -5i32, max: 60i32 }, active: false },
        ParamMeta { bounds: ParamBounds { min: -5i32, max: 100i32 }, active: false },
        ParamMeta { bounds: ParamBounds { min: -50i32, max: 30i32 }, active: false },
        ParamMeta { bounds: ParamBounds { min: -20i32, max: 40i32 }, active: false },
        ParamMeta { bounds: ParamBounds { min: -5i32, max: 30i32 }, active: false },
        ParamMeta { bounds: ParamBounds { min: -5i32, max: 60i32 }, active: false },
        ParamMeta { bounds: ParamBounds { min: -5i32, max: 100i32 }, active: true },
        ParamMeta { bounds: ParamBounds { min: -5i32, max: 100i32 }, active: true },
        ParamMeta { bounds: ParamBounds { min: -5i32, max: 100i32 }, active: true },
        ParamMeta { bounds: ParamBounds { min: -5i32, max: 40i32 }, active: true },
        ParamMeta { bounds: ParamBounds { min: -5i32, max: 60i32 }, active: true },
        ParamMeta { bounds: ParamBounds { min: -20i32, max: 0i32 }, active: false },
        ParamMeta { bounds: ParamBounds { min: -20i32, max: 0i32 }, active: false },
        ParamMeta { bounds: ParamBounds { min: 0i32, max: 40i32 }, active: false },
        ParamMeta { bounds: ParamBounds { min: 0i32, max: 80i32 }, active: false },
        ParamMeta { bounds: ParamBounds { min: 0i32, max: 60i32 }, active: false },
        ParamMeta { bounds: ParamBounds { min: 0i32, max: 120i32 }, active: false },
        ParamMeta { bounds: ParamBounds { min: 0i32, max: 180i32 }, active: false },
        ParamMeta { bounds: ParamBounds { min: 0i32, max: 50i32 }, active: false },
        ParamMeta { bounds: ParamBounds { min: 0i32, max: 70i32 }, active: false },
        ParamMeta { bounds: ParamBounds { min: -100i32, max: -1i32 }, active: false },
        ParamMeta { bounds: ParamBounds { min: -200i32, max: -1i32 }, active: false },
        ParamMeta { bounds: ParamBounds { min: -400i32, max: -50i32 }, active: false },
        ParamMeta { bounds: ParamBounds { min: -50i32, max: 10i32 }, active: false },
        ParamMeta { bounds: ParamBounds { min: -50i32, max: 10i32 }, active: false },
        ParamMeta { bounds: ParamBounds { min: -25i32, max: 0i32 }, active: false },
        ParamMeta { bounds: ParamBounds { min: 0i32, max: 80i32 }, active: false },
        ParamMeta { bounds: ParamBounds { min: 0i32, max: 20i32 }, active: false },
        ParamMeta { bounds: ParamBounds { min: 0i32, max: 15i32 }, active: false },
        ParamMeta { bounds: ParamBounds { min: -5i32, max: 200i32 }, active: false },
        ParamMeta { bounds: ParamBounds { min: -75i32, max: 5i32 }, active: false },
        ParamMeta { bounds: ParamBounds { min: -40i32, max: 40i32 }, active: false },
        ParamMeta { bounds: ParamBounds { min: -75i32, max: 0i32 }, active: false },
        ParamMeta { bounds: ParamBounds { min: -40i32, max: 40i32 }, active: false },
        ParamMeta { bounds: ParamBounds { min: -50i32, max: 0i32 }, active: false },
        ParamMeta { bounds: ParamBounds { min: 1i32, max: 2i32 }, active: false },
        ParamMeta { bounds: ParamBounds { min: 2i32, max: 3i32 }, active: false },
        ParamMeta { bounds: ParamBounds { min: 2i32, max: 3i32 }, active: false },
        ParamMeta { bounds: ParamBounds { min: 3i32, max: 4i32 }, active: false },
        ParamMeta { bounds: ParamBounds { min: 4i32, max: 5i32 }, active: false },
        ParamMeta { bounds: ParamBounds { min: -200i32, max: 20i32 }, active: false },
        ParamMeta { bounds: ParamBounds { min: -60i32, max: 60i32 }, active: false },
        ParamMeta { bounds: ParamBounds { min: -60i32, max: 60i32 }, active: false },
        ParamMeta { bounds: ParamBounds { min: -75i32, max: 75i32 }, active: false },
        ParamMeta { bounds: ParamBounds { min: -75i32, max: 75i32 }, active: false },
        ParamMeta { bounds: ParamBounds { min: -50i32, max: 50i32 }, active: false },
        ParamMeta { bounds: ParamBounds { min: -50i32, max: 50i32 }, active: false },
    ]
}

/// The default bounds of each group of the full parameters, and which are tuned.
pub fn default_param_meta() -> (r: [ParamMeta; 59])
    ensures
        r@ == default_param_meta_spec(),
{
    let r = [
        ParamMeta { bounds: ParamBounds { min: -50, max: 200 }, active: false },
        ParamMeta { bounds: ParamBounds { min: -200, max: 200 }, active: false },
        ParamMeta { bounds: ParamBounds { min: -100, max: 100 }, active: false },
        ParamMeta { bounds: ParamBounds { min: -100, max: 100 }, active: true },
        ParamMeta { bounds: ParamBounds { min: -200, max: 200 }, active: false },
        ParamMeta { bounds: ParamBounds { min: -200, max: 200 }, active: false },
        ParamMeta { bounds: ParamBounds { min: 70, max: 100 }, active: false },
        ParamMeta { bounds: ParamBounds { min: 240, max: 360 }, active: false },
        ParamMeta { bounds: ParamBounds { min: 250, max: 370 }, active: false },
        ParamMeta { bounds: ParamBounds { min: 400, max: 560 }, active: true },
        ParamMeta { bounds: ParamBounds { min: 850, max: 1100 }, active: false },
        ParamMeta { bounds: ParamBounds { min: -5, max: 30 }, active: false },
        ParamMeta { bounds: ParamBounds { min: -5, max: 60 }, active: false },
        ParamMeta { bounds: ParamBounds { min: -5, max: 100 }, active: false },
        ParamMeta { bounds: ParamBounds { min: -50, max: 30 }, active: false },
        ParamMeta { bounds: ParamBounds { min: -20, max: 40 }, active: false },
        ParamMeta { bounds: ParamBounds { min: -5, max: 30 }, active: false },
        ParamMeta { bounds: ParamBounds { min: -5, max: 60 }, active: false },
        ParamMeta { bounds: ParamBounds { min: -5, max: 100 }, active: true },
        ParamMeta { bounds: ParamBounds { min: -5, max: 100 }, active: true },
        ParamMeta { bounds: ParamBounds { min: -5, max: 100 }, active: true },
        ParamMeta { bounds: ParamBounds { min: -5, max: 40 }, active: true },
        ParamMeta { bounds: ParamBounds { min: -5, max: 60 }, active: true },
        ParamMeta { bounds: ParamBounds { min: -20, max: 0 }, active: false },
        ParamMeta { bounds: ParamBounds { min: -20, max: 0 }, active: false },
        ParamMeta { bounds: ParamBounds { min: 0, max: 40 }, active: false },
        ParamMeta { bounds: ParamBounds { min: 0, max: 80 }, active: false },
        ParamMeta { bounds: ParamBounds { min: 0, max: 60 }, active: false },
        ParamMeta { bounds: ParamBounds { min: 0, max: 120 }, active: false },
        ParamMeta { bounds: ParamBounds { min: 0, max: 180 }, active: false },
        ParamMeta { bounds: ParamBounds { min: 0, max: 50 }, active: false },
        ParamMeta { bounds: ParamBounds { min: 0, max: 70 }, active: false },
        ParamMeta { bounds: ParamBounds { min: -100, max: -1 }, active: false },
        ParamMeta { bounds: ParamBounds { min: -200, max: -1 }, active: false },
        ParamMeta { bounds: ParamBounds { min: -400, max: -50 }, active: false },
        ParamMeta { bounds: ParamBounds { min: -50, max: 10 }, active: false },
        ParamMeta { bounds: ParamBounds { min: -50, max: 10 }, active: false },
        ParamMeta { bounds: ParamBounds { min: -25, max: 0 }, active: false },
        ParamMeta { bounds: ParamBounds { min: 0, max: 80 }, active: false },
        ParamMeta { bounds: ParamBounds { min: 0, max: 20 }, active: false },
        ParamMeta { bounds: ParamBounds { min: 0, max: 15 }, active: false },
        ParamMeta { bounds: ParamBounds { min: -5, max: 200 }, active: false },
        ParamMeta { bounds: ParamBounds { min: -75, max: 5 }, active: false },
        ParamMeta { bounds: ParamBounds { min: -40, max: 40 }, active: false },
        ParamMeta { bounds: ParamBounds { min: -75, max: 0 }, active: false },
        ParamMeta { bounds: ParamBounds { min: -40, max: 40 }, active: false },
        ParamMeta { bounds: ParamBounds { min: -50, max: 0 }, active: false },
        ParamMeta { bounds: ParamBounds { min: 1, max: 2 }, active: false },
        ParamMeta { bounds: ParamBounds { min: 2, max: 3 }, active: false },
        ParamMeta { bounds: ParamBounds { min: 2, max: 3 }, active: false },
        ParamMeta { bounds: ParamBounds { min: 3, max: 4 }, active: false },
        ParamMeta { bounds: ParamBounds { min: 4, max: 5 }, active: false },
        ParamMeta { bounds: ParamBounds { min: -200, max: 20 }, active: false },
        ParamMeta { bounds: ParamBounds { min: -60, max: 60 }, active: false },
        ParamMeta { bounds: ParamBounds { min: -60, max: 60 }, active: false },
        ParamMeta { bounds: ParamBounds { min: -75, max: 75 }, active: false },
        ParamMeta { bounds: ParamBounds { min: -75, max: 75 }, active: false },
        ParamMeta { bounds: ParamBounds { min: -50, max: 50 }, active: false },
        ParamMeta { bounds: ParamBounds { min: -50, max: 50 }, active: false },
    ];
    assert(r@ =~= default_param_meta_spec());
    r
}

/// The default bounds of each group of the lazy parameters; all are tuned.
pub open spec fn default_lazy_param_meta_spec() -> Seq<ParamMeta> {
    seq![
        ParamMeta { bounds: ParamBounds { min: -50i32, max: 200i32 }, active: true },
        ParamMeta { bounds: ParamBounds { min: -200i32, max: 200i32 }, active: true },
        ParamMeta { bounds: ParamBounds { min: -100i32, max: 100i32 }, active: true },
        ParamMeta { bounds: ParamBounds { min: -100i32, max: 100i32 }, active: true },
        ParamMeta { bounds: ParamBounds { min: -200i32, max: 200i32 }, active: true },
        ParamMeta { bounds: ParamBounds { min: -200i32, max: 200i32 }, active: true },
        ParamMeta { bounds: ParamBounds { min: 70i32, max: 100i32 }, active: true },
        ParamMeta { bounds: ParamBounds { min: 240i32, max: 360i32 }, active: true },
        ParamMeta { bounds: ParamBounds { min: 250i32, max: 370i32 }, active: true },
        ParamMeta { bounds: ParamBounds { min: 400i32, max: 560i32 }, active: true },
        ParamMeta { bounds: ParamBounds { min: 850i32, max: 1100i32 }, active: true },
    ]
}

/// The default bounds of each group of the lazy parameters; all are tuned.
pub fn default_lazy_param_meta() -> (r: [ParamMeta; 11])
    ensures
        r@ == default_lazy_param_meta_spec(),
{
    let r = [
        ParamMeta { bounds: ParamBounds { min: -50, max: 200 }, active: true },
        ParamMeta { bounds: ParamBounds { min: -200, max: 200 }, active: true },
        ParamMeta { bounds: ParamBounds { min: -100, max: 100 }, active: true },
        ParamMeta { bounds: ParamBounds { min: -100, max: 100 }, active: true },
        ParamMeta { bounds: ParamBounds { min: -200, max: 200 }, active: true },
        ParamMeta { bounds: ParamBounds { min: -200, max: 200 }, active: true },
        ParamMeta { bounds: ParamBounds { min: 70, max: 100 }, active: true },
        ParamMeta { bounds: ParamBounds { min: 240, max: 360 }, active: true },
        ParamMeta { bounds: ParamBounds { min: 250, max: 370 }, active: true },
        ParamMeta { bounds: ParamBounds { min: 400, max: 560 }, active: true },
        ParamMeta { bounds: ParamBounds { min: 850, max: 1100 }, active: true },
    ];
    assert(r@ =~= default_lazy_param_meta_spec());
    r
}

impl LazyTuningConfig {
    /// Tuning the lazy parameters from their tuned values, with the default bounds.
    pub fn new_default() -> (r: LazyTuningConfig)
        ensures
            r.params == crate::evaluate::default_lazy_params_spec(),
            r.meta@ == default_lazy_param_meta_spec(),
    {
        LazyTuningConfig {
            params: crate::evaluate::default_lazy_params(),
            meta: default_lazy_param_meta(),
        }
    }
}

} // verus!
