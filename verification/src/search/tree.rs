//! The tree search: alpha-beta with a transposition table, null-move pruning, late move
//! reductions and a quiescence search, deepened one ply at a time until the time runs out.
use vstd::prelude::*;

use std::time::Instant;

use crate::bitboard::{popcount, Bitboards};
use crate::evaluate::terms::{
    count_over, eval_ok, eval_spec, hits_fn, lemma_count_within, params_ok, pawns_ok, ring_units, times,
    weights_ok,
};
use crate::evaluate::{evaluate_with, Eval, Score, INFINITY};
use crate::movegen::{
    castle_open, castling_ok, gen_ok, generate_legal, generate_legal_noisy, ks_right,
    lemma_gen_from_own, legal_mode, legal_of, qs_right, GenType, MoveList,
};
use crate::params::types::Params;
use crate::position::{
    lemma_made_ok, lemma_make_undo, lemma_make_unique, lemma_null_keeps_wf, lemma_null_undo, Position,
    StateInfo,
};
use crate::search::{
    can_lmr, is_mate_score, is_repetition, lmr_reduction, repeated, scorable, OrderingTables, SearchResult,
    MAX_PLY,
};
use crate::tt::{BoundType, TranspositionTable};
use crate::types::{Castling, Colour, Move, Piece, RANK_1, RANK_8};
use crate::zobrist::ZKey;

verus! {

#[verifier::external_type_specification]
#[verifier::external_body]
pub struct ExInstant(std::time::Instant);

/// The current moment (`std::time::Instant::now`). Nothing is stated of it: it is the clock's.
#[verifier::external_body]
fn clock_now() -> (r: Instant) {
    Instant::now()
}

/// Whether `now` is at or after `stop_at` (`std::time::Instant`'s `>=`). Nothing is stated of
/// the answer: the order of moments is the clock's.
#[verifier::external_body]
fn reached(now: &Instant, stop_at: &Instant) -> (r: bool) {
    *now >= *stop_at
}

/// How many nodes a search visited.
pub struct SearchStats {
    pub nodes: u64,
}

impl SearchStats {
    pub fn new() -> (r: SearchStats)
        ensures
            r.nodes == 0,
    {
        SearchStats { nodes: 0 }
    }
}

/// How deep and how long to search: at most `max_depth` plies, and `move_time` milliseconds
/// when given.
pub struct SearchLimits {
    pub max_depth: i32,
    pub move_time: Option<u64>,
}

/// The node count, the moment to stop at, and whether the search has stopped.
pub struct SearchContext {
    pub stats: SearchStats,
    pub stop_at: Option<Instant>,
    pub stopped: bool,
}

impl SearchContext {
    /// Whether the search must stop: once stopped it stays stopped; otherwise the clock is read
    /// only when the node count is a multiple of 2048, and only when there is a moment to stop
    /// at.
    pub fn should_stop(&mut self) -> (r: bool)
        ensures
            final(self).stats.nodes == old(self).stats.nodes,
            final(self).stop_at == old(self).stop_at,
            r == final(self).stopped,
            old(self).stopped ==> r,
            !old(self).stopped && (old(self).stats.nodes % 2048 != 0 || old(self).stop_at is None)
                ==> !r,
    {
        if self.stopped {
            return true;
        }
        if self.stats.nodes % 2048 != 0 {
            return false;
        }
        match &self.stop_at {
            Some(t) => {
                let now = clock_now();
                if reached(&now, t) {
                    self.stopped = true;
                }
            },
            None => {},
        }
        self.stopped
    }
}

/// The king-ring weights never count against the defender: none is below zero.
pub open spec fn ring_weights_ok(p: Params) -> bool {
    &&& p.king_ring_pawn_weight.mg >= 0 && p.king_ring_pawn_weight.eg >= 0
    &&& p.king_ring_knight_weight.mg >= 0 && p.king_ring_knight_weight.eg >= 0
    &&& p.king_ring_bishop_weight.mg >= 0 && p.king_ring_bishop_weight.eg >= 0
    &&& p.king_ring_rook_weight.mg >= 0 && p.king_ring_rook_weight.eg >= 0
    &&& p.king_ring_queen_weight.mg >= 0 && p.king_ring_queen_weight.eg >= 0
}

proof fn lemma_times_nonneg(w: Score, k: int)
    requires
        w.mg >= 0,
        w.eg >= 0,
        k >= 0,
    ensures
        times(w, k).0 >= 0,
        times(w, k).1 >= 0,
{
    assert(w.mg * k >= 0) by (nonlinear_arith)
        requires
            w.mg >= 0,
            k >= 0,
    ;
    assert(w.eg * k >= 0) by (nonlinear_arith)
        requires
            w.eg >= 0,
            k >= 0,
    ;
}

proof fn lemma_hits_nonneg(bb: u64, f: spec_fn(int) -> u64, ring: u64)
    ensures
        count_over(bb, hits_fn(f, ring)) >= 0,
{
    let h = hits_fn(f, ring);
    assert forall|s: int| crate::bitboard::bit_set(bb, s) implies 0 <= #[trigger] h(s) <= 64 by {
        crate::bitboard::lemma_popcount_bound(f(s) & ring);
    }
    lemma_count_within(bb, h, 64);
}

/// With king-ring weights of at least zero, no side's weighted ring hits fall below zero.
proof fn lemma_units_nonneg(pos: Position, p: Params, c: Colour)
    requires
        ring_weights_ok(p),
    ensures
        ring_units(pos, p, c).0 >= 0,
        ring_units(pos, p, c).1 >= 0,
{
    let by = c.other();
    let r = crate::evaluate::terms::ring(pos, c);
    lemma_hits_nonneg(pos.piece_bb(by, Piece::Knight), crate::evaluate::terms::knight_ctl(), r);
    lemma_hits_nonneg(pos.piece_bb(by, Piece::Bishop), crate::evaluate::terms::bishop_ctl(pos), r);
    lemma_hits_nonneg(pos.piece_bb(by, Piece::Rook), crate::evaluate::terms::rook_ctl(pos), r);
    lemma_hits_nonneg(pos.piece_bb(by, Piece::Queen), crate::evaluate::terms::queen_ctl(pos), r);
    let hp = popcount(crate::evaluate::terms::pawn_att(pos, by) & r) as int;
    let hn = count_over(pos.piece_bb(by, Piece::Knight), hits_fn(crate::evaluate::terms::knight_ctl(), r));
    let hb = count_over(pos.piece_bb(by, Piece::Bishop), hits_fn(crate::evaluate::terms::bishop_ctl(pos), r));
    let hr = count_over(pos.piece_bb(by, Piece::Rook), hits_fn(crate::evaluate::terms::rook_ctl(pos), r));
    let hq = count_over(pos.piece_bb(by, Piece::Queen), hits_fn(crate::evaluate::terms::queen_ctl(pos), r));
    lemma_times_nonneg(p.king_ring_pawn_weight, hp);
    lemma_times_nonneg(p.king_ring_knight_weight, hn);
    lemma_times_nonneg(p.king_ring_bishop_weight, hb);
    lemma_times_nonneg(p.king_ring_rook_weight, hr);
    lemma_times_nonneg(p.king_ring_queen_weight, hq);
}

/// What the search needs of a position before it can generate, evaluate and move: both kings
/// on the board, pawns that the evaluation can score (none on a back rank, at most eight a
/// side), room for a castle the rights allow when not in check, and clocks that can still
/// count.
pub open spec fn node_ready(pos: Position) -> bool {
    &&& pos.white_king_square@ < 64
    &&& pos.black_king_square@ < 64
    &&& pawns_ok(pos)
    &&& (pos.checkers.0 == 0 ==> castling_ok(pos))
    &&& pos.halfmove_clock < 255
    &&& pos.fullmove_counter < 65535
}

/// Whether `node_ready` holds.
pub fn node_ready_check(pos: &Position) -> (r: bool)
    ensures
        r == node_ready(*pos),
{
    if !pos.white_king_square.is_ok() || !pos.black_king_square.is_ok() {
        return false;
    }
    if pos.halfmove_clock >= 255 || pos.fullmove_counter >= 65535 {
        return false;
    }
    let edge = RANK_1 | RANK_8;
    let wp = pos.pieces[0][Piece::Pawn.idx()];
    let bp = pos.pieces[1][Piece::Pawn.idx()];
    if wp.0 & edge != 0 || bp.0 & edge != 0 || wp.bit_count() > 8 || bp.bit_count() > 8 {
        return false;
    }
    if !pos.checkers.is_empty() {
        return true;
    }
    let us = pos.side_to_move;
    let k = pos.king_square(us).u8();
    let (ks, qs) = match us {
        Colour::White => (Castling::WHITE_OO, Castling::WHITE_OOO),
        Colour::Black => (Castling::BLACK_OO, Castling::BLACK_OOO),
    };
    let ks_open = pos.can_castle(ks) && !pos.castling_impeded(ks);
    let qs_open = pos.can_castle(qs) && !pos.castling_impeded(qs);
    (!ks_open || k + 2 < 64) && (!qs_open || k >= 2)
}

/// Whether a node is a principal-variation node.
#[derive(Copy, Clone, Eq, PartialEq, Debug, Structural)]
pub enum NodeType {
    PV,
    NonPV,
}

/// No search score goes beyond this, the evaluation's bound included.
pub const SCORE_BOUND: i32 = 16_000_000;

/// The widest window the search takes.
pub const WINDOW_BOUND: i32 = 20_000_000;

/// A window the search can take: `alpha` in `[-W, W - 1]`, `beta` in `[1 - W, W]`.
pub open spec fn window_ok(alpha: int, beta: int) -> bool {
    -WINDOW_BOUND <= alpha <= WINDOW_BOUND - 1 && 1 - WINDOW_BOUND <= beta <= WINDOW_BOUND
}

/// The state of a search: the transposition table, the positions played so far (for
/// repetitions), the move-ordering tables, the stop control, and the evaluation weights.
pub struct Searcher {
    pub tt: TranspositionTable,
    pub rep_history: Vec<ZKey>,
    pub ordering: OrderingTables,
    pub ctx: SearchContext,
    pub params: Params,
    pub king_mobility: [Score; 28],
}

/// The position is drawn by the fifty-move rule, by a repetition in `history`, or by
/// insufficient material.
pub open spec fn drawn(pos: Position, history: Seq<ZKey>) -> bool {
    ||| pos.halfmove_clock >= 100
    ||| repeated(history, pos.zkey, pos.halfmove_clock as int)
    ||| pos.insufficient_spec()
}

/// No clock can stop the search: it has not stopped and has no moment to stop at.
pub open spec fn unclocked(ctx: SearchContext) -> bool {
    !ctx.stopped && ctx.stop_at is None
}

/// What a search keeps of its stop control: the moment to stop at, and a search that no
/// clock could stop is still running.
pub open spec fn ctx_kept(before: SearchContext, after: SearchContext) -> bool {
    &&& after.stop_at == before.stop_at
    &&& unclocked(before) ==> !after.stopped
}

/// What the quiescence search answers in a position it works on, when no clock can stop it:
/// in check with no legal move, the mate score `-INFINITY + ply`; out of check, at least the
/// static evaluation (which it answers when that reaches `beta`).
#[verifier::opaque]
pub open spec fn quiet_outcome(
    pos: Position,
    history: Seq<ZKey>,
    ctx: SearchContext,
    params: Params,
    kvm: Seq<Score>,
    ply: int,
    beta: int,
    r: int,
) -> bool {
    let live = unclocked(ctx) && !drawn(pos, history) && node_ready(pos);
    let sp = static_value(pos, params, kvm);
    &&& live && pos.checkers.0 != 0 && !has_legal_move(pos) ==> r == -INFINITY + ply
    &&& live && pos.checkers.0 == 0 ==> r >= sp
    &&& live && pos.checkers.0 == 0 && sp >= beta ==> r == sp
}

/// A search result `r` is faithful to a value `v` within the window `(alpha, beta)`: equal to
/// it inside the window, at least `v` when at or below `alpha` (an upper bound), at most `v`
/// when at or above `beta` (a lower bound).
pub open spec fn fail_soft(r: int, v: int, alpha: int, beta: int) -> bool {
    &&& r <= alpha ==> v <= r
    &&& r >= beta ==> r <= v
    &&& alpha < r && r < beta ==> r == v
}

/// The kind of moves the quiescence search plays: every legal move in check, captures and
/// promotions otherwise.
pub open spec fn quiet_mode(pos: Position) -> GenType {
    if pos.checkers.0 != 0 {
        legal_mode(pos)
    } else {
        GenType::Noisy
    }
}

/// A move the quiescence search plays from `pos`: of its kind, legal, and playable on the board.
pub open spec fn quiet_candidate(pos: Position, m: Move) -> bool {
    legal_of(pos, quiet_mode(pos), m) && pos.move_ok(m)
}

/// The position that `m` leads to from `pos` (one only: see `Position::lemma_make_unique`).
pub open spec fn child_of(pos: Position, m: Move) -> Position {
    (choose|p1: Position, st: StateInfo| #[trigger] Position::make_rel(pos, m, p1, st)).0
}

/// The value of the quiescence search of `pos` at distance `ply` from the root, with the keys
/// of the positions played before (the current one last) in `history`: 0 for a draw or a
/// position the search cannot work on; in check, the mate score with no legal move, otherwise
/// the best reply; out of check, the better of the static evaluation and the best capture or
/// promotion. At the deepest ply nothing is searched.
pub open spec fn quiet_value(pos: Position, history: Seq<ZKey>, ply: int, params: Params, kvm: Seq<Score>) -> int
    decreases MAX_PLY - ply, 65537int,
{
    if ply < 0 || ply >= MAX_PLY {
        0
    } else if drawn(pos, history) || !node_ready(pos) {
        0
    } else if pos.checkers.0 != 0 {
        if !has_legal_move(pos) {
            -INFINITY + ply
        } else if ply + 1 >= MAX_PLY {
            -INFINITY as int
        } else {
            quiet_best(pos, history, ply, params, kvm, -INFINITY as int, 65536)
        }
    } else {
        let sp = static_value(pos, params, kvm);
        if ply + 1 >= MAX_PLY {
            sp
        } else {
            quiet_best(pos, history, ply, params, kvm, sp, 65536)
        }
    }
}

/// The value of the reply `m`: minus the value of the position it leads to, one ply deeper,
/// with that position's key added to the history.
pub open spec fn quiet_reply(pos: Position, history: Seq<ZKey>, ply: int, params: Params, kvm: Seq<Score>, m: Move) -> int
    decreases MAX_PLY - ply, 0int,
{
    if ply < 0 || ply + 1 >= MAX_PLY {
        0
    } else {
        let p1 = child_of(pos, m);
        -quiet_value(p1, history.push(p1.zkey), ply + 1, params, kvm)
    }
}

/// The best of `base` and the replies of the candidate moves whose codes are below `c`.
pub open spec fn quiet_best(pos: Position, history: Seq<ZKey>, ply: int, params: Params, kvm: Seq<Score>, base: int, c: int) -> int
    decreases MAX_PLY - ply, c,
{
    if c <= 0 || ply < 0 || ply + 1 >= MAX_PLY {
        base
    } else {
        let prev = quiet_best(pos, history, ply, params, kvm, base, c - 1);
        let m = Move::of_code((c - 1) as u16);
        if quiet_candidate(pos, m) && quiet_reply(pos, history, ply, params, kvm, m) > prev {
            quiet_reply(pos, history, ply, params, kvm, m)
        } else {
            prev
        }
    }
}

/// What `quiet_value` is in each case of the quiescence search.
proof fn lemma_quiet_value_cases(pos: Position, history: Seq<ZKey>, ply: int, params: Params, kvm: Seq<Score>)
    requires
        0 <= ply < MAX_PLY,
    ensures
        ({
            let v = quiet_value(pos, history, ply, params, kvm);
            let base = if pos.checkers.0 != 0 {
                -INFINITY as int
            } else {
                static_value(pos, params, kvm)
            };
            &&& drawn(pos, history) || !node_ready(pos) ==> v == 0
            &&& !drawn(pos, history) && node_ready(pos) && pos.checkers.0 != 0 && !has_legal_move(pos)
                ==> v == -INFINITY + ply
            &&& !drawn(pos, history) && node_ready(pos) && (pos.checkers.0 != 0 ==> has_legal_move(pos))
                && ply + 1 >= MAX_PLY ==> v == base
            &&& !drawn(pos, history) && node_ready(pos) && (pos.checkers.0 != 0 ==> has_legal_move(pos))
                && ply + 1 < MAX_PLY ==> v == quiet_best(pos, history, ply, params, kvm, base, 65536)
        }),
{
}

/// `quiet_best` is the maximum: at least `base` and every candidate reply below `c`, and equal to
/// `base` or to one of them.
proof fn lemma_quiet_best(pos: Position, history: Seq<ZKey>, ply: int, params: Params, kvm: Seq<Score>, base: int, c: int)
    requires
        0 <= c <= 65536,
        0 <= ply,
        ply + 1 < MAX_PLY,
    ensures
        base <= quiet_best(pos, history, ply, params, kvm, base, c),
        forall|k: int|
            0 <= k < c && quiet_candidate(pos, Move::of_code(k as u16)) ==> #[trigger] quiet_reply(
                pos,
                history,
                ply,
                params,
                kvm,
                Move::of_code(k as u16),
            ) <= quiet_best(pos, history, ply, params, kvm, base, c),
        quiet_best(pos, history, ply, params, kvm, base, c) == base || exists|k: int|
            0 <= k < c && quiet_candidate(pos, Move::of_code(k as u16)) && #[trigger] quiet_reply(
                pos,
                history,
                ply,
                params,
                kvm,
                Move::of_code(k as u16),
            ) == quiet_best(pos, history, ply, params, kvm, base, c),
    decreases c,
{
    if c > 0 {
        lemma_quiet_best(pos, history, ply, params, kvm, base, c - 1);
        let m = Move::of_code((c - 1) as u16);
        assert(quiet_reply(pos, history, ply, params, kvm, m) == quiet_reply(
            pos,
            history,
            ply,
            params,
            kvm,
            Move::of_code((c - 1) as u16),
        ));
    }
}

/// The best over a list that holds every candidate move is `quiet_best` over all codes: `m`
/// is at least `base` and every candidate reply of the list, and equal to `base` or one of them.
proof fn lemma_list_best(pos: Position, history: Seq<ZKey>, ply: int, params: Params, kvm: Seq<Score>, base: int, list: Seq<Move>, m: int)
    requires
        0 <= ply,
        ply + 1 < MAX_PLY,
        forall|x: Move| quiet_candidate(pos, x) ==> #[trigger] list.contains(x),
        base <= m,
        forall|k: int|
            0 <= k < list.len() && quiet_candidate(pos, list[k]) ==> #[trigger] quiet_reply(
                pos,
                history,
                ply,
                params,
                kvm,
                list[k],
            ) <= m,
        m == base || exists|k: int|
            0 <= k < list.len() && quiet_candidate(pos, list[k]) && #[trigger] quiet_reply(
                pos,
                history,
                ply,
                params,
                kvm,
                list[k],
            ) == m,
    ensures
        m == quiet_best(pos, history, ply, params, kvm, base, 65536),
{
    lemma_quiet_best(pos, history, ply, params, kvm, base, 65536);
    let v = quiet_best(pos, history, ply, params, kvm, base, 65536);
    if v != base {
        let k = choose|k: int|
            0 <= k < 65536 && quiet_candidate(pos, Move::of_code(k as u16)) && #[trigger] quiet_reply(
                pos,
                history,
                ply,
                params,
                kvm,
                Move::of_code(k as u16),
            ) == v;
        let x = Move::of_code(k as u16);
        assert(list.contains(x));
        let j = choose|j: int| 0 <= j < list.len() && list[j] == x;
        assert(quiet_reply(pos, history, ply, params, kvm, list[j]) <= m);
    }
    if m != base {
        let j = choose|j: int|
            0 <= j < list.len() && quiet_candidate(pos, list[j]) && #[trigger] quiet_reply(
                pos,
                history,
                ply,
                params,
                kvm,
                list[j],
            ) == m;
        let x = list[j];
        Move::lemma_code(x);
        let k = x.bits() as int;
        assert(Move::of_code(k as u16) == x);
        assert(quiet_reply(pos, history, ply, params, kvm, Move::of_code(k as u16)) <= v);
    }
}

/// With no clock to stop it and a window that is not empty, the quiescence search's result `r`
/// is faithful (see `fail_soft`) to `quiet_value` within its window.
#[verifier::opaque]
pub open spec fn quiet_faithful(
    pos: Position,
    history: Seq<ZKey>,
    ctx: SearchContext,
    params: Params,
    kvm: Seq<Score>,
    ply: int,
    alpha: int,
    beta: int,
    r: int,
) -> bool {
    unclocked(ctx) && alpha < beta ==> fail_soft(r, quiet_value(pos, history, ply, params, kvm), alpha, beta)
}

/// One reply searched in the window `(alpha, beta)` of a node whose caller's window began at
/// `a0`: the best score, the window and the best value so far stay related as the fail-soft
/// search needs.
proof fn lemma_window_step(a0: int, beta: int, alpha: int, best: int, m: int, s: int, w: int)
    requires
        m <= best,
        best > a0 ==> best == m,
        best < beta || best == m,
        alpha >= a0,
        alpha == a0 || alpha <= best,
        s < beta,
        fail_soft(s, w, alpha, beta),
    ensures
        ({
            let best2 = if s > best { s } else { best };
            let alpha2 = if s > alpha { s } else { alpha };
            let m2 = if w > m { w } else { m };
            &&& m2 <= best2
            &&& best2 > a0 ==> best2 == m2
            &&& best2 < beta || best2 == m2
            &&& alpha2 >= a0
            &&& alpha2 == a0 || alpha2 <= best2
        }),
{
}

/// A move the full-width search plays from `pos`: legal and playable on the board.
pub open spec fn full_candidate(pos: Position, m: Move) -> bool {
    legal_of(pos, legal_mode(pos), m) && pos.move_ok(m)
}

/// The best of `base` and the replies (see `quiet_reply`) of the legal moves whose codes are
/// below `c`.
pub open spec fn full_best(pos: Position, history: Seq<ZKey>, ply: int, params: Params, kvm: Seq<Score>, base: int, c: int) -> int
    decreases c,
{
    if c <= 0 {
        base
    } else {
        let prev = full_best(pos, history, ply, params, kvm, base, c - 1);
        let m = Move::of_code((c - 1) as u16);
        if full_candidate(pos, m) && quiet_reply(pos, history, ply, params, kvm, m) > prev {
            quiet_reply(pos, history, ply, params, kvm, m)
        } else {
            prev
        }
    }
}

/// The value of a search of `pos` one ply deep: with no legal move, 0 for stalemate and the
/// mate score `-INFINITY + ply` for checkmate; at the deepest ply the static evaluation;
/// otherwise the best of `-INFINITY` and minus the quiescence value of each position a legal
/// move leads to.
pub open spec fn shallow_value(pos: Position, history: Seq<ZKey>, ply: int, params: Params, kvm: Seq<Score>) -> int {
    if !has_legal_move(pos) {
        if pos.checkers.0 == 0 {
            0
        } else {
            -INFINITY + ply
        }
    } else if ply + 1 >= MAX_PLY {
        static_value(pos, params, kvm)
    } else {
        full_best(pos, history, ply, params, kvm, -INFINITY as int, 65536)
    }
}

/// `full_best` is the maximum: at least `base` and every legal reply below `c`, and equal to
/// `base` or to one of them.
proof fn lemma_full_best(pos: Position, history: Seq<ZKey>, ply: int, params: Params, kvm: Seq<Score>, base: int, c: int)
    requires
        0 <= c <= 65536,
    ensures
        base <= full_best(pos, history, ply, params, kvm, base, c),
        forall|k: int|
            0 <= k < c && full_candidate(pos, Move::of_code(k as u16)) ==> #[trigger] quiet_reply(
                pos,
                history,
                ply,
                params,
                kvm,
                Move::of_code(k as u16),
            ) <= full_best(pos, history, ply, params, kvm, base, c),
        full_best(pos, history, ply, params, kvm, base, c) == base || exists|k: int|
            0 <= k < c && full_candidate(pos, Move::of_code(k as u16)) && #[trigger] quiet_reply(
                pos,
                history,
                ply,
                params,
                kvm,
                Move::of_code(k as u16),
            ) == full_best(pos, history, ply, params, kvm, base, c),
    decreases c,
{
    if c > 0 {
        lemma_full_best(pos, history, ply, params, kvm, base, c - 1);
    }
}

/// The reply of any legal move is at most `full_best` over all codes.
proof fn lemma_full_best_above(pos: Position, history: Seq<ZKey>, ply: int, params: Params, kvm: Seq<Score>, base: int, x: Move)
    requires
        full_candidate(pos, x),
    ensures
        quiet_reply(pos, history, ply, params, kvm, x) <= full_best(pos, history, ply, params, kvm, base, 65536),
{
    lemma_full_best(pos, history, ply, params, kvm, base, 65536);
    Move::lemma_code(x);
    assert(Move::of_code(x.bits() as u16) == x);
    assert(quiet_reply(pos, history, ply, params, kvm, Move::of_code(x.bits() as u16)) <= full_best(
        pos,
        history,
        ply,
        params,
        kvm,
        base,
        65536,
    ));
}

/// The best over a list that holds every legal move is `full_best` over all codes.
proof fn lemma_full_list_best(pos: Position, history: Seq<ZKey>, ply: int, params: Params, kvm: Seq<Score>, base: int, list: Seq<Move>, m: int)
    requires
        forall|x: Move| full_candidate(pos, x) ==> #[trigger] list.contains(x),
        base <= m,
        forall|k: int|
            0 <= k < list.len() && full_candidate(pos, list[k]) ==> #[trigger] quiet_reply(
                pos,
                history,
                ply,
                params,
                kvm,
                list[k],
            ) <= m,
        m == base || exists|k: int|
            0 <= k < list.len() && full_candidate(pos, list[k]) && #[trigger] quiet_reply(
                pos,
                history,
                ply,
                params,
                kvm,
                list[k],
            ) == m,
    ensures
        m == full_best(pos, history, ply, params, kvm, base, 65536),
{
    lemma_full_best(pos, history, ply, params, kvm, base, 65536);
    let v = full_best(pos, history, ply, params, kvm, base, 65536);
    if v != base {
        let k = choose|k: int|
            0 <= k < 65536 && full_candidate(pos, Move::of_code(k as u16)) && #[trigger] quiet_reply(
                pos,
                history,
                ply,
                params,
                kvm,
                Move::of_code(k as u16),
            ) == v;
        let x = Move::of_code(k as u16);
        assert(list.contains(x));
        let j = choose|j: int| 0 <= j < list.len() && list[j] == x;
        assert(quiet_reply(pos, history, ply, params, kvm, list[j]) <= m);
    }
    if m != base {
        let j = choose|j: int|
            0 <= j < list.len() && full_candidate(pos, list[j]) && #[trigger] quiet_reply(
                pos,
                history,
                ply,
                params,
                kvm,
                list[j],
            ) == m;
        lemma_full_best_above(pos, history, ply, params, kvm, base, list[j]);
    }
}

/// A child searched by the quiescence search in the window `(-beta, -alpha)` gives its parent
/// a score `s` faithful to the reply's value within `(alpha, beta)`.
proof fn lemma_child_faithful(
    p0: Position,
    mv: Move,
    p1: Position,
    st: StateInfo,
    history: Seq<ZKey>,
    ctx: SearchContext,
    params: Params,
    kvm: Seq<Score>,
    ply: int,
    alpha: int,
    beta: int,
    s: int,
)
    requires
        p0.board_ok(),
        p0.kings_ok(),
        p0.move_ok(mv),
        Position::make_rel(p0, mv, p1, st),
        0 <= ply,
        ply + 1 < MAX_PLY,
        unclocked(ctx),
        alpha < beta,
        quiet_faithful(p1, history.push(p1.zkey), ctx, params, kvm, ply + 1, -beta, -alpha, -s),
    ensures
        fail_soft(s, quiet_reply(p0, history, ply, params, kvm, mv), alpha, beta),
{
    reveal(quiet_faithful);
    let pair = choose|q1: Position, t1: StateInfo| #[trigger] Position::make_rel(p0, mv, q1, t1);
    lemma_make_unique(p0, mv, p1, st, pair.0, pair.1);
    assert(child_of(p0, mv) == p1);
}

/// The principal variation search's step: a reply searched in `(alpha, beta)` updates the best
/// score and, when it improves on both, the window, keeping them related as fail-soft needs.
proof fn lemma_pvs_step(a0: int, beta: int, alpha: int, best: int, m: int, s: int, w: int)
    requires
        m <= best,
        best > a0 ==> best == m,
        best < beta || best == m,
        alpha >= a0,
        alpha == a0 || alpha <= best,
        fail_soft(s, w, alpha, beta),
    ensures
        ({
            let best2 = if s > best { s } else { best };
            let alpha2 = if s > best && s > alpha { s } else { alpha };
            let m2 = if w > m { w } else { m };
            &&& s < beta ==> m2 <= best2
            &&& s < beta ==> (best2 > a0 ==> best2 == m2)
            &&& s < beta ==> (best2 < beta || best2 == m2)
            &&& alpha2 >= a0
            &&& s < beta ==> (alpha2 == a0 || alpha2 <= best2)
            &&& s >= beta ==> beta <= best2 && best2 <= m2
        }),
{
}

/// With a window that is not empty (a null window unless at a principal-variation node), no
/// clock to stop it and no answer from the table, a search one ply deep of a position it works
/// on gives a result `r` faithful (see `fail_soft`) to `shallow_value`.
#[verifier::opaque]
pub open spec fn shallow_faithful(
    pos: Position,
    history: Seq<ZKey>,
    ctx: SearchContext,
    tt: TranspositionTable,
    params: Params,
    kvm: Seq<Score>,
    depth: int,
    ply: int,
    alpha: int,
    beta: int,
    pv: bool,
    r: int,
) -> bool {
    depth == 1 && unclocked(ctx) && !drawn(pos, history) && node_ready(pos) && table_silent(tt, pos.zkey.0, 1)
        && alpha < beta && (!pv ==> beta == alpha + 1) ==> fail_soft(
        r,
        shallow_value(pos, history, ply, params, kvm),
        alpha,
        beta,
    )
}

/// Every legal move of `pos` leads, one ply deeper, to a value strictly between `-INFINITY` and
/// `INFINITY` (see `quiet_reply`).
pub open spec fn replies_bounded(pos: Position, history: Seq<ZKey>, params: Params, kvm: Seq<Score>) -> bool {
    forall|m: Move|
        full_candidate(pos, m) ==> -INFINITY < #[trigger] quiet_reply(pos, history, 0, params, kvm, m) < INFINITY
}

/// A root search one ply deep of a position with a legal move, with no answer from the table and
/// every reply's value strictly inside `(-INFINITY, INFINITY)`, scores the best reply
/// (`full_best`), and, when a legal move can be played on the board, answers with such a move
/// whose reply has that value.
#[verifier::opaque]
pub open spec fn root_faithful(
    pos: Position,
    history: Seq<ZKey>,
    tt: TranspositionTable,
    params: Params,
    kvm: Seq<Score>,
    r: SearchResult,
) -> bool {
    has_legal_move(pos) && table_silent(tt, pos.zkey.0, 1) && replies_bounded(pos, history, params, kvm) ==> {
        &&& r.score == full_best(pos, history, 0, params, kvm, -INFINITY as int, 65536)
        &&& (exists|m: Move| full_candidate(pos, m)) ==> full_candidate(pos, r.best_move) && quiet_reply(
            pos,
            history,
            0,
            params,
            kvm,
            r.best_move,
        ) == r.score
    }
}

/// The static evaluation of `pos` with the given weights (see `eval_spec`).
#[verifier::opaque]
pub open spec fn static_value(pos: Position, params: Params, kvm: Seq<Score>) -> int {
    eval_spec(pos, params, kvm)
}

/// The node's stop check lets it through: it has not stopped, and either there is no moment to
/// stop at or the node count (counting this node) is not one at which the clock is read.
pub open spec fn passes_stop_check(ctx: SearchContext) -> bool {
    &&& !ctx.stopped
    &&& (ctx.stop_at is None || vstd::wrapping::u64_specs::wrapping_add(ctx.stats.nodes, 1) % 2048 != 0)
}

/// The table gives no answer for `key` at `depth`: no entry, or a shallower one.
pub open spec fn table_silent(tt: TranspositionTable, key: u64, depth: int) -> bool {
    match tt.probe_spec(key) {
        None => true,
        Some(h) => (h.depth as int) < depth,
    }
}

impl Searcher {
    /// The tables are well formed, the history is not empty and the weights are usable.
    pub open spec fn inv(&self) -> bool {
        &&& self.tt.wf()
        &&& self.ordering.wf()
        &&& self.rep_history@.len() >= 1
        &&& params_ok(self.params)
        &&& weights_ok(self.king_mobility@)
        &&& ring_weights_ok(self.params)
    }
}

/// Every move of a list of generated moves starts on a piece, so that move ordering can score it.
proof fn lemma_list_scorable(pos: Position, mode: GenType, moves: Seq<Move>)
    requires
        pos.wf(),
        gen_ok(pos, mode),
        forall|m: Move| #[trigger] moves.contains(m) ==> legal_of(pos, mode, m),
    ensures
        forall|i: int| 0 <= i < moves.len() ==> scorable(pos, #[trigger] moves[i]),
{
    assert forall|i: int| 0 <= i < moves.len() implies scorable(pos, #[trigger] moves[i]) by {
        assert(moves.contains(moves[i]));
        lemma_gen_from_own(pos, mode, moves[i]);
    }
}

impl Searcher {
    /// The static evaluation of a ready position with the searcher's weights.
    fn static_eval(&self, pos: &Position, bbs: &Bitboards) -> (r: Eval)
        requires
            self.inv(),
            bbs.wf(),
            node_ready(*pos),
        ensures
            -SCORE_BOUND <= r <= SCORE_BOUND,
            r == eval_spec(*pos, self.params, self.king_mobility@),
    {
        proof {
            lemma_units_nonneg(*pos, self.params, Colour::White);
            lemma_units_nonneg(*pos, self.params, Colour::Black);
        }
        evaluate_with(pos, bbs, &self.params, &self.king_mobility)
    }

    /// The quiescence search: in check every evasion is searched; otherwise the side to move
    /// may stand on the static evaluation and only captures and promotions are searched. Draws
    /// by the fifty-move rule, repetition or insufficient material score 0, and so does a
    /// position the search cannot work on (see `node_ready`). At the deepest ply the search
    /// stops with the score found so far.
    #[verifier::rlimit(100)]
    pub fn q_search(&mut self, pos: &mut Position, bbs: &Bitboards, ply: i32, alpha: Eval, beta: Eval) -> (r: Eval)
        requires
            old(self).inv(),
            bbs.wf(),
            old(pos).wf(),
            0 <= ply < MAX_PLY,
            window_ok(alpha as int, beta as int),
        ensures
            final(self).inv(),
            *final(pos) == *old(pos),
            final(self).rep_history@ == old(self).rep_history@,
            -SCORE_BOUND <= r <= SCORE_BOUND,
            ctx_kept(old(self).ctx, final(self).ctx),
            final(self).tt.age_of() == old(self).tt.age_of(),
            old(self).ctx.stopped ==> r == 0,
            drawn(*old(pos), old(self).rep_history@) ==> r == 0,
            unclocked(old(self).ctx) && !drawn(*old(pos), old(self).rep_history@) && !node_ready(*old(pos)) ==> r == 0,
            quiet_outcome(*old(pos), old(self).rep_history@, old(self).ctx, old(self).params, old(self).king_mobility@, ply as int, beta as int, r as int),
            quiet_faithful(*old(pos), old(self).rep_history@, old(self).ctx, old(self).params, old(self).king_mobility@, ply as int, alpha as int, beta as int, r as int),
            final(self).params == old(self).params,
            final(self).king_mobility == old(self).king_mobility,
        decreases MAX_PLY - ply, 0int,
    {
        let ghost p0 = *pos;
        let ghost h0 = self.rep_history@;
        let ghost a0 = alpha as int;
        self.ctx.stats.nodes = self.ctx.stats.nodes.wrapping_add(1);
        if self.ctx.should_stop() {
            proof {
                reveal(quiet_outcome);
            }
            assert(quiet_faithful(p0, h0, old(self).ctx, old(self).params, old(self).king_mobility@, ply as int, a0, beta as int, (0) as int)) by {
                reveal(quiet_faithful);
                lemma_quiet_value_cases(p0, h0, ply as int, old(self).params, old(self).king_mobility@);
            }
            return 0;
        }
        if pos.halfmove_clock >= 100 || is_repetition(&self.rep_history, pos) || pos.insufficient_material() {
            proof {
                reveal(quiet_outcome);
            }
            assert(quiet_faithful(p0, h0, old(self).ctx, old(self).params, old(self).king_mobility@, ply as int, a0, beta as int, (0) as int)) by {
                reveal(quiet_faithful);
                lemma_quiet_value_cases(p0, h0, ply as int, old(self).params, old(self).king_mobility@);
            }
            return 0;
        }
        if !node_ready_check(pos) {
            proof {
                reveal(quiet_outcome);
            }
            assert(quiet_faithful(p0, h0, old(self).ctx, old(self).params, old(self).king_mobility@, ply as int, a0, beta as int, (0) as int)) by {
                reveal(quiet_faithful);
                lemma_quiet_value_cases(p0, h0, ply as int, old(self).params, old(self).king_mobility@);
            }
            return 0;
        }
        let mut lo = alpha;
        let in_check = !pos.checkers.is_empty();
        let mut state = StateInfo::new();
        state.set_from_position(pos);
        let mut best_score: Eval;
        let mut moves = MoveList::new();
        let ghost mut sp: int = -INFINITY as int;
        if in_check {
            generate_legal(pos, bbs, &mut moves);
            proof {
                if moves@.len() > 0 {
                    assert(moves@.contains(moves@[0]));
                }
            }
            if moves.len() == 0 {
                proof {
                    reveal(quiet_outcome);
                }
                assert(quiet_faithful(p0, h0, old(self).ctx, old(self).params, old(self).king_mobility@, ply as int, a0, beta as int, (-INFINITY + ply) as int)) by {
                    reveal(quiet_faithful);
                    lemma_quiet_value_cases(p0, h0, ply as int, old(self).params, old(self).king_mobility@);
                    if has_legal_move(p0) {
                        let x = choose|x: Move| legal_of(p0, legal_mode(p0), x);
                        assert(moves@.contains(x));
                    }
                }
                return -INFINITY + ply;
            }
            best_score = -INFINITY;
            proof {
                lemma_list_scorable(*pos, legal_mode(*pos), moves@);
            }
        } else {
            let stand_pat = self.static_eval(pos, bbs);
            if stand_pat >= beta {
                proof {
                    reveal(static_value);
                }
                proof {
                    reveal(quiet_outcome);
                }
                assert(quiet_faithful(p0, h0, old(self).ctx, old(self).params, old(self).king_mobility@, ply as int, a0, beta as int, (stand_pat) as int)) by {
                    reveal(quiet_faithful);
                    lemma_quiet_value_cases(p0, h0, ply as int, old(self).params, old(self).king_mobility@);
                    if ply + 1 < MAX_PLY {
                        lemma_quiet_best(p0, h0, ply as int, old(self).params, old(self).king_mobility@, stand_pat as int, 65536);
                    }
                }
                return stand_pat;
            }
            if stand_pat > lo {
                lo = stand_pat;
            }
            best_score = stand_pat;
            proof {
                sp = stand_pat as int;
                reveal(static_value);
            }
            generate_legal_noisy(pos, bbs, &mut moves);
            proof {
                lemma_list_scorable(*pos, GenType::Noisy, moves@);
            }
        }
        let ghost m0 = moves@;
        self.ordering.order_moves(pos, ply as usize, &mut moves, Move::null(), Move::null());
        proof {
            assert forall|x: Move| quiet_candidate(p0, x) implies #[trigger] moves@.contains(x) by {
                vstd::seq_lib::to_multiset_contains(moves@, x);
                vstd::seq_lib::to_multiset_contains(m0, x);
            }
            assert forall|k: int| 0 <= k < moves@.len() implies legal_of(p0, quiet_mode(p0), #[trigger] moves@[k]) by {
                let x = moves@[k];
                assert(moves@.contains(x));
                vstd::seq_lib::to_multiset_contains(moves@, x);
                vstd::seq_lib::to_multiset_contains(m0, x);
            }
        }
        let ghost mut best_seen: int = sp;
        if ply + 1 >= MAX_PLY as i32 {
            proof {
                reveal(quiet_outcome);
            }
            assert(quiet_faithful(p0, h0, old(self).ctx, old(self).params, old(self).king_mobility@, ply as int, a0, beta as int, (best_score) as int)) by {
                reveal(quiet_faithful);
                lemma_quiet_value_cases(p0, h0, ply as int, old(self).params, old(self).king_mobility@);
            }
            return best_score;
        }
        let n = moves.len();
        let mut i: usize = 0;
        while i < n
            invariant
                self.inv(),
                bbs.wf(),
                *pos == p0,
                p0 == *old(pos),
                p0.wf(),
                self.rep_history@ == h0,
                h0 == old(self).rep_history@,
                0 <= ply < MAX_PLY - 1,
                n == moves@.len(),
                i <= n,
                window_ok(lo as int, beta as int),
                -SCORE_BOUND <= best_score <= SCORE_BOUND,
                ctx_kept(old(self).ctx, self.ctx),
                self.tt.age_of() == old(self).tt.age_of(),
                !in_check ==> best_score >= sp && lo >= sp,
                !drawn(p0, h0),
                !old(self).ctx.stopped,
                node_ready(p0),
                in_check ==> has_legal_move(p0),
                !in_check && unclocked(old(self).ctx) && !drawn(p0, h0) && node_ready(p0) ==> sp == static_value(p0, old(self).params, old(self).king_mobility@) && sp < beta,
                in_check == (p0.checkers.0 != 0),
                self.params == old(self).params,
                self.king_mobility == old(self).king_mobility,
                forall|x: Move| quiet_candidate(p0, x) ==> #[trigger] moves@.contains(x),
                forall|k: int| 0 <= k < n ==> legal_of(p0, quiet_mode(p0), #[trigger] moves@[k]),
                in_check ==> sp == -INFINITY as int,
                !in_check ==> sp < beta,
                a0 == alpha as int,
                unclocked(old(self).ctx) && a0 < beta ==> {
                    &&& lo < beta
                    &&& best_seen <= best_score
                    &&& best_score > a0 ==> best_score == best_seen
                    &&& best_score < beta || best_score == best_seen
                    &&& lo >= a0
                    &&& lo == a0 || lo <= best_score
                    &&& sp <= best_seen
                    &&& forall|k: int|
                        0 <= k < i && quiet_candidate(p0, moves@[k]) ==> #[trigger] quiet_reply(
                            p0,
                            h0,
                            ply as int,
                            old(self).params,
                            old(self).king_mobility@,
                            moves@[k],
                        ) <= best_seen
                    &&& best_seen == sp || exists|k: int|
                        0 <= k < i && quiet_candidate(p0, moves@[k]) && #[trigger] quiet_reply(
                            p0,
                            h0,
                            ply as int,
                            old(self).params,
                            old(self).king_mobility@,
                            moves@[k],
                        ) == best_seen
                },
            decreases n - i,
        {
            let mv = moves.get(i);
            let ghost params0 = self.params;
            let ghost kvm0 = self.king_mobility@;
            let ghost w = quiet_reply(p0, h0, ply as int, params0, kvm0, mv);
            let ghost lo_before = lo as int;
            let ghost best_before = best_score as int;
            if pos.move_ok_check(mv) {
                pos.make_move(mv, &mut state, bbs);
                let ghost p1 = *pos;
                proof {
                    lemma_made_ok(p0, mv, p1, state);
                }
                self.rep_history.push(pos.zkey);
                let ghost ctx1 = self.ctx;
                let score = -self.q_search(pos, bbs, ply + 1, -beta, -lo);
                proof {
                    reveal(quiet_faithful);
                    let pair = choose|q1: Position, t1: StateInfo| #[trigger] Position::make_rel(p0, mv, q1, t1);
                    assert(Position::make_rel(p0, mv, p1, state));
                    lemma_make_unique(p0, mv, p1, state, pair.0, pair.1);
                    assert(child_of(p0, mv) == p1);
                    assert(unclocked(old(self).ctx) ==> unclocked(ctx1));
                    assert(unclocked(old(self).ctx) && a0 < beta ==> fail_soft(score as int, w, lo as int, beta as int));
                }
                pos.undo_move(mv, &state, bbs);
                proof {
                    lemma_make_undo(p0, mv, p1, state, *pos);
                }
                self.rep_history.pop();
                proof {
                    assert(self.rep_history@ =~= h0);
                }
                if score >= beta {
                    proof {
                        reveal(quiet_outcome);
                    }
                    assert(quiet_faithful(p0, h0, old(self).ctx, old(self).params, old(self).king_mobility@, ply as int, a0, beta as int, (score) as int)) by {
                        reveal(quiet_faithful);
                        lemma_quiet_value_cases(p0, h0, ply as int, params0, kvm0);
                        lemma_quiet_best(p0, h0, ply as int, params0, kvm0, sp, 65536);
                        Move::lemma_code(mv);
                        assert(Move::of_code(mv.bits() as u16) == mv);
                        assert(quiet_candidate(p0, mv));
                        assert(quiet_reply(p0, h0, ply as int, params0, kvm0, Move::of_code(mv.bits() as u16))
                            <= quiet_best(p0, h0, ply as int, params0, kvm0, sp, 65536));
                    }
                    return score;
                }
                proof {
                    if unclocked(old(self).ctx) && a0 < beta {
                        lemma_window_step(a0, beta as int, lo_before, best_before, best_seen, score as int, w);
                    }
                }
                if score > best_score {
                    best_score = score;
                }
                if score > lo {
                    lo = score;
                }
                proof {
                    if unclocked(old(self).ctx) && a0 < beta && w > best_seen {
                        best_seen = w;
                    }
                }
            }
            i = i + 1;
        }
        proof {
            reveal(quiet_outcome);
        }
        assert(quiet_faithful(p0, h0, old(self).ctx, old(self).params, old(self).king_mobility@, ply as int, a0, beta as int, (best_score) as int)) by {
            reveal(quiet_faithful);
            lemma_quiet_value_cases(p0, h0, ply as int, old(self).params, old(self).king_mobility@);
            if unclocked(old(self).ctx) && a0 < beta {
                lemma_list_best(p0, h0, ply as int, old(self).params, old(self).king_mobility@, sp, moves@, best_seen);
            }
        }
        best_score
    }
}

impl Searcher {
    /// The alpha-beta search of `pos` to `depth` plies at distance `ply` from the root, within
    /// the window `(alpha, beta)`: draws score 0, a position the search cannot work on (see
    /// `node_ready`) scores 0, the transposition table may answer or narrow the window,
    /// checkmate scores `-INFINITY + ply` and stalemate 0, a null move may cut the node, and the
    /// moves (best first) are searched with late move reductions and principal variation
    /// search, quiet moves that cut off becoming killers and gaining history. The result is
    /// stored in the table. At depth 0 or below the quiescence search answers; at the deepest
    /// ply the static evaluation does.
    #[verifier::rlimit(100)]
    pub fn negamax(
        &mut self,
        pos: &mut Position,
        bbs: &Bitboards,
        depth: i32,
        ply: i32,
        alpha: Eval,
        beta: Eval,
        node_type: NodeType,
    ) -> (r: Eval)
        requires
            old(self).inv(),
            bbs.wf(),
            old(pos).wf(),
            0 <= ply < MAX_PLY,
            -2 <= depth <= 46340,
            window_ok(alpha as int, beta as int),
        ensures
            final(self).inv(),
            *final(pos) == *old(pos),
            final(self).rep_history@ == old(self).rep_history@,
            -SCORE_BOUND <= r <= SCORE_BOUND,
            ctx_kept(old(self).ctx, final(self).ctx),
            final(self).tt.age_of() == old(self).tt.age_of(),
            old(self).ctx.stopped ==> r == 0,
            drawn(*old(pos), old(self).rep_history@) ==> r == 0,
            passes_stop_check(old(self).ctx) && !drawn(*old(pos), old(self).rep_history@) && 1 <= depth
                && !node_ready(*old(pos)) ==> r == 0,
            passes_stop_check(old(self).ctx) && !drawn(*old(pos), old(self).rep_history@) && 1 <= depth
                && node_ready(*old(pos)) && table_silent(old(self).tt, old(pos).zkey.0, depth as int)
                && !has_legal_move(*old(pos)) ==> r == (if old(pos).checkers.0 == 0 {
                0
            } else {
                -INFINITY + ply
            }),
            depth <= 0 ==> quiet_faithful(
                *old(pos),
                old(self).rep_history@,
                old(self).ctx,
                old(self).params,
                old(self).king_mobility@,
                ply as int,
                alpha as int,
                beta as int,
                r as int,
            ),
            shallow_faithful(
                *old(pos),
                old(self).rep_history@,
                old(self).ctx,
                old(self).tt,
                old(self).params,
                old(self).king_mobility@,
                depth as int,
                ply as int,
                alpha as int,
                beta as int,
                node_type is PV,
                r as int,
            ),
            final(self).params == old(self).params,
            final(self).king_mobility == old(self).king_mobility,
        decreases MAX_PLY - ply, 1int,
    {
        let ghost p0 = *pos;
        let ghost h0 = self.rep_history@;
        self.ctx.stats.nodes = self.ctx.stats.nodes.wrapping_add(1);
        if self.ctx.should_stop() {
            assert(quiet_faithful(
                    *old(pos),
                    old(self).rep_history@,
                    old(self).ctx,
                    old(self).params,
                    old(self).king_mobility@,
                    ply as int,
                    alpha as int,
                    beta as int,
                    0,
                )) by {
                reveal(quiet_faithful);
            }
            assert(shallow_faithful(
                    *old(pos),
                    old(self).rep_history@,
                    old(self).ctx,
                    old(self).tt,
                    old(self).params,
                    old(self).king_mobility@,
                    depth as int,
                    ply as int,
                    alpha as int,
                    beta as int,
                    node_type is PV,
                    0,
                )) by {
                reveal(shallow_faithful);
            }
            return 0;
        }
        if pos.halfmove_clock >= 100 || is_repetition(&self.rep_history, pos) || pos.insufficient_material() {
            assert(quiet_faithful(
                    *old(pos),
                    old(self).rep_history@,
                    old(self).ctx,
                    old(self).params,
                    old(self).king_mobility@,
                    ply as int,
                    alpha as int,
                    beta as int,
                    0,
                )) by {
                reveal(quiet_faithful);
                lemma_quiet_value_cases(p0, h0, ply as int, old(self).params, old(self).king_mobility@);
            }
            assert(shallow_faithful(
                    *old(pos),
                    old(self).rep_history@,
                    old(self).ctx,
                    old(self).tt,
                    old(self).params,
                    old(self).king_mobility@,
                    depth as int,
                    ply as int,
                    alpha as int,
                    beta as int,
                    node_type is PV,
                    0,
                )) by {
                reveal(shallow_faithful);
            }
            return 0;
        }
        if depth <= 0 {
            let ghost ctx1 = self.ctx;
            let r = self.q_search(pos, bbs, ply, alpha, beta);
            proof {
                reveal(quiet_faithful);
            }
            assert(shallow_faithful(
                    *old(pos),
                    old(self).rep_history@,
                    old(self).ctx,
                    old(self).tt,
                    old(self).params,
                    old(self).king_mobility@,
                    depth as int,
                    ply as int,
                    alpha as int,
                    beta as int,
                    node_type is PV,
                    r as int,
                )) by {
                reveal(shallow_faithful);
            }
            return r;
        }
        if !node_ready_check(pos) {
            assert(shallow_faithful(
                    *old(pos),
                    old(self).rep_history@,
                    old(self).ctx,
                    old(self).tt,
                    old(self).params,
                    old(self).king_mobility@,
                    depth as int,
                    ply as int,
                    alpha as int,
                    beta as int,
                    node_type is PV,
                    0,
                )) by {
                reveal(shallow_faithful);
            }
            return 0;
        }
        let us = pos.side_to_move;
        let alpha_orig = alpha;
        let beta_orig = beta;
        let mut alpha = alpha;
        let mut beta = beta;
        let mut tt_move = Move::null();
        let ghost ex = depth == 1 && unclocked(old(self).ctx) && node_ready(p0) && !drawn(p0, h0)
            && table_silent(old(self).tt, p0.zkey.0, 1) && alpha_orig < beta_orig && (!(node_type is PV)
            ==> beta_orig == alpha_orig + 1);
        assert(self.tt == old(self).tt);
        match self.tt.probe(pos.zkey) {
            Some(hit) => {
                tt_move = hit.mv;
                if hit.depth as i32 >= depth {
                    let bound_type = hit.node_info.bound_type();
                    let mut score = hit.value as Eval;
                    if is_mate_score(score) {
                        if score > 0 {
                            score = score - ply;
                        } else {
                            score = score + ply;
                        }
                    }
                    match bound_type {
                        BoundType::Exact => {
                            assert(shallow_faithful(
                                    *old(pos),
                                    old(self).rep_history@,
                                    old(self).ctx,
                                    old(self).tt,
                                    old(self).params,
                                    old(self).king_mobility@,
                                    depth as int,
                                    ply as int,
                                    alpha_orig as int,
                                    beta_orig as int,
                                    node_type is PV,
                                    score as int,
                            )) by {
                                reveal(shallow_faithful);
                            }
                            return score;
                        },
                        BoundType::Upper => {
                            if score < beta {
                                beta = score;
                            }
                        },
                        BoundType::Lower => {
                            if score > alpha {
                                alpha = score;
                            }
                        },
                        BoundType::NoBound => {},
                    }
                    if alpha >= beta {
                        assert(shallow_faithful(
                                *old(pos),
                                old(self).rep_history@,
                                old(self).ctx,
                                old(self).tt,
                                old(self).params,
                                old(self).king_mobility@,
                                depth as int,
                                ply as int,
                                alpha_orig as int,
                                beta_orig as int,
                                node_type is PV,
                                score as int,
                        )) by {
                            reveal(shallow_faithful);
                        }
                        return score;
                    }
                }
            },
            None => {},
        }
        let mut moves = MoveList::new();
        generate_legal(pos, bbs, &mut moves);
        proof {
            if moves@.len() > 0 {
                assert(moves@.contains(moves@[0]));
            }
        }
        if moves.len() == 0 {
            proof {
                if has_legal_move(p0) {
                    let x = choose|x: Move| legal_of(p0, legal_mode(p0), x);
                    assert(moves@.contains(x));
                }
            }
            if pos.checkers.is_empty() {
                assert(shallow_faithful(
                        *old(pos),
                        old(self).rep_history@,
                        old(self).ctx,
                        old(self).tt,
                        old(self).params,
                        old(self).king_mobility@,
                        depth as int,
                        ply as int,
                        alpha_orig as int,
                        beta_orig as int,
                        node_type is PV,
                        0,
                )) by {
                    reveal(shallow_faithful);
                }
                return 0;
            } else {
                assert(shallow_faithful(
                        *old(pos),
                        old(self).rep_history@,
                        old(self).ctx,
                        old(self).tt,
                        old(self).params,
                        old(self).king_mobility@,
                        depth as int,
                        ply as int,
                        alpha_orig as int,
                        beta_orig as int,
                        node_type is PV,
                        (-INFINITY + ply) as int,
                )) by {
                    reveal(shallow_faithful);
                }
                return -INFINITY + ply;
            }
        }
        proof {
            lemma_list_scorable(*pos, legal_mode(*pos), moves@);
        }
        let in_check = !pos.checkers.is_empty();
        let is_pv = node_type == NodeType::PV;
        let mut state = StateInfo::new();
        state.set_from_position(pos);
        if ply + 1 >= MAX_PLY as i32 {
            let e = self.static_eval(pos, bbs);
            assert(shallow_faithful(
                    *old(pos),
                    old(self).rep_history@,
                    old(self).ctx,
                    old(self).tt,
                    old(self).params,
                    old(self).king_mobility@,
                    depth as int,
                    ply as int,
                    alpha_orig as int,
                    beta_orig as int,
                    node_type is PV,
                    e as int,
            )) by {
                reveal(shallow_faithful);
                reveal(static_value);
                assert(moves@.contains(moves@[0]));
            }
            return e;
        }
        if !in_check && !pos.non_pawn_material(us).is_empty() && depth >= 3 {
            let r = 2 + depth / 3;
            let null_depth = if depth - r > 0 {
                depth - r
            } else {
                0
            };
            let ghost s0 = state;
            pos.make_null_move(&mut state, bbs);
            let ghost p1 = *pos;
            let ghost s1 = state;
            proof {
                lemma_null_keeps_wf(p0, s0, p1, s1);
            }
            self.rep_history.push(pos.zkey);
            let v = -self.negamax(pos, bbs, null_depth, ply + 1, -beta, -beta + 1, NodeType::NonPV);
            pos.undo_null_move(&state, bbs);
            proof {
                lemma_null_undo(p0, s0, p1, s1, *pos);
            }
            self.rep_history.pop();
            proof {
                assert(self.rep_history@ =~= h0);
            }
            if v >= beta {
                assert(shallow_faithful(
                        *old(pos),
                        old(self).rep_history@,
                        old(self).ctx,
                        old(self).tt,
                        old(self).params,
                        old(self).king_mobility@,
                        depth as int,
                        ply as int,
                        alpha_orig as int,
                        beta_orig as int,
                        node_type is PV,
                        v as int,
                )) by {
                    reveal(shallow_faithful);
                }
                return v;
            }
        }
        let ghost m0 = moves@;
        let ghost x0 = moves@[0];
        assert(m0.contains(x0));
        let ghost params0 = self.params;
        let ghost kvm0 = self.king_mobility@;
        self.ordering.order_moves(pos, ply as usize, &mut moves, Move::null(), tt_move);
        proof {
            assert forall|x: Move| full_candidate(p0, x) implies #[trigger] moves@.contains(x) by {
                vstd::seq_lib::to_multiset_contains(moves@, x);
                vstd::seq_lib::to_multiset_contains(m0, x);
            }
            assert forall|k: int| 0 <= k < moves@.len() implies legal_of(p0, legal_mode(p0), #[trigger] moves@[k]) by {
                let x = moves@[k];
                assert(moves@.contains(x));
                vstd::seq_lib::to_multiset_contains(moves@, x);
                vstd::seq_lib::to_multiset_contains(m0, x);
            }
        }
        let mut best_score: Eval = -INFINITY;
        let mut best_move = Move::null();
        let n = moves.len();
        let mut idx: usize = 0;
        let mut cut = false;
        let ghost mut best_seen: int = -INFINITY as int;
        while idx < n && !cut
            invariant
                self.inv(),
                bbs.wf(),
                *pos == p0,
                p0 == *old(pos),
                p0.wf(),
                self.rep_history@ == h0,
                h0 == old(self).rep_history@,
                0 <= ply < MAX_PLY - 1,
                1 <= depth <= 46340,
                us == p0.side_to_move,
                n == moves@.len(),
                idx <= n,
                window_ok(alpha as int, beta as int),
                -SCORE_BOUND <= best_score <= SCORE_BOUND,
                ctx_kept(old(self).ctx, self.ctx),
                self.tt.age_of() == old(self).tt.age_of(),
                self.params == old(self).params,
                self.king_mobility == old(self).king_mobility,
                params0 == old(self).params,
                kvm0 == old(self).king_mobility@,
                is_pv == (node_type is PV),
                in_check == (p0.checkers.0 != 0),
                forall|x: Move| full_candidate(p0, x) ==> #[trigger] moves@.contains(x),
                forall|k: int| 0 <= k < n ==> legal_of(p0, legal_mode(p0), #[trigger] moves@[k]),
                ex ==> depth == 1 && unclocked(old(self).ctx) && beta == beta_orig && alpha >= alpha_orig,
                ex ==> {
                    &&& !cut ==> best_seen <= best_score
                    &&& !cut ==> (best_score > alpha_orig ==> best_score == best_seen)
                    &&& !cut ==> (best_score < beta || best_score == best_seen)
                    &&& !cut ==> (alpha == alpha_orig || alpha <= best_score)
                    &&& !cut ==> alpha < beta
                    &&& (!cut && !is_pv) ==> beta == alpha + 1
                    &&& cut ==> beta <= best_score && best_score <= best_seen
                    &&& -INFINITY <= best_seen
                    &&& forall|k: int|
                        0 <= k < idx && full_candidate(p0, moves@[k]) ==> #[trigger] quiet_reply(
                            p0,
                            h0,
                            ply as int,
                            params0,
                            kvm0,
                            moves@[k],
                        ) <= best_seen
                    &&& best_seen == -INFINITY || exists|k: int|
                        0 <= k < idx && full_candidate(p0, moves@[k]) && #[trigger] quiet_reply(
                            p0,
                            h0,
                            ply as int,
                            params0,
                            kvm0,
                            moves@[k],
                        ) == best_seen
                },
            decreases n - idx,
        {
            let mv = moves.get(idx);
            let ghost w = quiet_reply(p0, h0, ply as int, params0, kvm0, mv);
            if pos.move_ok_check(mv) {
                pos.make_move(mv, &mut state, bbs);
                let ghost p1 = *pos;
                let ghost st1 = state;
                proof {
                    lemma_made_ok(p0, mv, p1, state);
                }
                self.rep_history.push(pos.zkey);
                let mut score: Eval = -INFINITY;
                let new_depth = depth - 1;
                let nw_alpha = -(alpha + 1);
                let nw_beta = -alpha;
                if can_lmr(pos, &self.ordering, mv, in_check, depth, ply) && idx > 0 {
                    let reduction = lmr_reduction(idx);
                    let d = new_depth - reduction;
                    score = -self.negamax(pos, bbs, d, ply + 1, nw_alpha, nw_beta, NodeType::NonPV);
                    if score > alpha {
                        score = -self.negamax(pos, bbs, new_depth, ply + 1, nw_alpha, nw_beta, NodeType::NonPV);
                    }
                } else if !is_pv || idx > 0 {
                    let ghost c1 = self.ctx;
                    score = -self.negamax(pos, bbs, new_depth, ply + 1, nw_alpha, nw_beta, NodeType::NonPV);
                    proof {
                        if ex {
                            lemma_child_faithful(p0, mv, p1, st1, h0, c1, params0, kvm0, ply as int, alpha as int, alpha + 1, score as int);
                        }
                    }
                }
                assert(ex && (!is_pv || idx > 0) ==> fail_soft(score as int, w, alpha as int, alpha + 1));
                if is_pv && (idx == 0 || (alpha < score && score < beta)) {
                    let ghost c2 = self.ctx;
                    score = -self.negamax(pos, bbs, new_depth, ply + 1, -beta, -alpha, NodeType::PV);
                    proof {
                        if ex {
                            lemma_child_faithful(p0, mv, p1, st1, h0, c2, params0, kvm0, ply as int, alpha as int, beta as int, score as int);
                        }
                    }
                }
                assert(ex ==> fail_soft(score as int, w, alpha as int, beta as int));
                pos.undo_move(mv, &state, bbs);
                proof {
                    lemma_make_undo(p0, mv, p1, state, *pos);
                }
                self.rep_history.pop();
                proof {
                    assert(self.rep_history@ =~= h0);
                    if ex {
                        lemma_pvs_step(alpha_orig as int, beta as int, alpha as int, best_score as int, best_seen, score as int, w);
                    }
                }
                if score > best_score {
                    best_score = score;
                    best_move = mv;
                    if score > alpha {
                        alpha = score;
                    }
                }
                if score >= beta {
                    if mv.is_quiet() {
                        self.ordering.update_killers(mv, ply as usize);
                        self.ordering.update_history(mv, depth, us.idx());
                    }
                    cut = true;
                }
                proof {
                    if ex && w > best_seen {
                        best_seen = w;
                    }
                }
            }
            idx = idx + 1;
        }
        proof {
            if ex {
                assert(legal_of(p0, legal_mode(p0), x0));
                if cut {
                    lemma_full_best(p0, h0, ply as int, params0, kvm0, -INFINITY as int, 65536);
                    if best_seen != -INFINITY {
                        let k = choose|k: int|
                            0 <= k < idx && full_candidate(p0, moves@[k]) && #[trigger] quiet_reply(
                                p0,
                                h0,
                                ply as int,
                                params0,
                                kvm0,
                                moves@[k],
                            ) == best_seen;
                        lemma_full_best_above(p0, h0, ply as int, params0, kvm0, -INFINITY as int, moves@[k]);
                    }
                } else {
                    lemma_full_list_best(p0, h0, ply as int, params0, kvm0, -INFINITY as int, moves@, best_seen);
                }
            }
        }
        let bound = if best_score <= alpha_orig {
            BoundType::Upper
        } else if best_score >= beta_orig {
            BoundType::Lower
        } else {
            BoundType::Exact
        };
        let mut value = best_score;
        if is_mate_score(value) {
            if value > 0 {
                value = value + ply;
            } else {
                value = value - ply;
            }
        }
        let eval = self.static_eval(pos, bbs);
        self.tt.store(pos.zkey, depth as u8, best_move, bound, false, value as i16, eval as i16);
        assert(shallow_faithful(
                *old(pos),
                old(self).rep_history@,
                old(self).ctx,
                old(self).tt,
                old(self).params,
                old(self).king_mobility@,
                depth as int,
                ply as int,
                alpha_orig as int,
                beta_orig as int,
                node_type is PV,
                best_score as int,
        )) by {
            reveal(shallow_faithful);
        }
        best_score
    }
}

impl Searcher {
    /// The search of the root to `depth`: no legal move gives no move with 0 (stalemate) or
    /// `-INFINITY` (checkmate); otherwise the table may supply a first answer or narrow the
    /// window, and each legal move (best first, `pv_move` and the table's move leading) is
    /// searched as a principal-variation node, the best one kept. The result is stored in the
    /// table as exact.
    pub fn search_root(&mut self, pos: &mut Position, bbs: &Bitboards, pv_move: Move, depth: i32) -> (r: SearchResult)
        requires
            old(self).inv(),
            bbs.wf(),
            old(pos).wf(),
            node_ready(*old(pos)),
            1 <= depth <= 46340,
        ensures
            final(self).inv(),
            *final(pos) == *old(pos),
            final(self).rep_history@ == old(self).rep_history@,
            r.depth == depth,
            -SCORE_BOUND <= r.score <= SCORE_BOUND,
            ctx_kept(old(self).ctx, final(self).ctx),
            final(self).tt.age_of() == old(self).tt.age_of(),
            !has_legal_move(*old(pos)) ==> r.best_move == Move::null_spec() && r.score == (if old(
                pos,
            ).checkers.0 == 0 {
                0
            } else {
                -INFINITY
            }),
            root_move_ok(*old(pos), old(self).tt, r.best_move),
            final(self).params == old(self).params,
            final(self).king_mobility == old(self).king_mobility,
            depth == 1 && unclocked(old(self).ctx) ==> root_faithful(
                *old(pos),
                old(self).rep_history@,
                old(self).tt,
                old(self).params,
                old(self).king_mobility@,
                r,
            ),
    {
        let ghost p0 = *pos;
        let ghost h0 = self.rep_history@;
        let ghost t0 = self.tt;
        let mut moves = MoveList::new();
        generate_legal(pos, bbs, &mut moves);
        proof {
            if moves@.len() > 0 {
                assert(moves@.contains(moves@[0]));
            }
        }
        if moves.len() == 0 {
            assert(root_faithful(
                    *old(pos),
                    old(self).rep_history@,
                    old(self).tt,
                    old(self).params,
                    old(self).king_mobility@,
                    SearchResult { best_move: Move::null_spec(), score: if pos.checkers.0 == 0 { 0i32 } else { -32001i32 }, depth },
                )) by {
                reveal(root_faithful);
                if has_legal_move(p0) {
                    let x = choose|x: Move| legal_of(p0, legal_mode(p0), x);
                    assert(moves@.contains(x));
                }
            }
            return SearchResult {
                best_move: Move::null(),
                score: if pos.checkers.is_empty() {
                    0
                } else {
                    -INFINITY
                },
                depth,
            };
        }
        proof {
            lemma_list_scorable(*pos, legal_mode(*pos), moves@);
        }
        let mut best_score: Eval = -INFINITY;
        let mut best_move = Move::null();
        let mut alpha: Eval = -INFINITY;
        let mut beta: Eval = INFINITY;
        let mut tt_move = Move::null();
        let ghost params0 = self.params;
        let ghost kvm0 = self.king_mobility@;
        let ghost ex = depth == 1 && unclocked(old(self).ctx) && table_silent(t0, p0.zkey.0, 1)
            && replies_bounded(p0, h0, params0, kvm0);
        assert(self.tt == t0);
        match self.tt.probe(pos.zkey) {
            Some(hit) => {
                tt_move = hit.mv;
                if hit.depth as i32 >= depth {
                    let score = hit.value as Eval;
                    match hit.node_info.bound_type() {
                        BoundType::Exact => {
                            alpha = score;
                            best_score = score;
                            best_move = tt_move;
                        },
                        BoundType::Upper => {
                            if score < beta {
                                beta = score;
                            }
                        },
                        BoundType::Lower => {
                            if score > alpha {
                                alpha = score;
                            }
                        },
                        BoundType::NoBound => {},
                    }
                }
            },
            None => {},
        }
        let ghost m0 = moves@;
        self.ordering.order_moves(pos, 0, &mut moves, pv_move, tt_move);
        proof {
            assert forall|x: Move| full_candidate(p0, x) implies #[trigger] moves@.contains(x) by {
                vstd::seq_lib::to_multiset_contains(moves@, x);
                vstd::seq_lib::to_multiset_contains(m0, x);
            }
            assert forall|k: int| 0 <= k < moves@.len() implies legal_of(p0, legal_mode(p0), #[trigger] moves@[k]) by {
                let x = moves@[k];
                assert(moves@.contains(x));
                vstd::seq_lib::to_multiset_contains(moves@, x);
                vstd::seq_lib::to_multiset_contains(m0, x);
            }
        }
        let mut state = StateInfo::new();
        let n = moves.len();
        let mut i: usize = 0;
        let ghost mut best_seen: int = -INFINITY as int;
        while i < n
            invariant
                self.inv(),
                bbs.wf(),
                *pos == p0,
                p0 == *old(pos),
                p0.wf(),
                node_ready(p0),
                self.rep_history@ == h0,
                h0 == old(self).rep_history@,
                1 <= depth <= 46340,
                n == moves@.len(),
                i <= n,
                window_ok(alpha as int, beta as int),
                -SCORE_BOUND <= best_score <= SCORE_BOUND,
                ctx_kept(old(self).ctx, self.ctx),
                self.tt.age_of() == old(self).tt.age_of(),
                root_move_ok(p0, t0, best_move),
                forall|k: int| 0 <= k < n ==> legal_of(p0, legal_mode(p0), #[trigger] moves@[k]),
                forall|x: Move| full_candidate(p0, x) ==> #[trigger] moves@.contains(x),
                params0 == old(self).params,
                kvm0 == old(self).king_mobility@,
                self.params == old(self).params,
                self.king_mobility == old(self).king_mobility,
                ex ==> {
                    &&& depth == 1
                    &&& unclocked(old(self).ctx)
                    &&& replies_bounded(p0, h0, params0, kvm0)
                    &&& beta == INFINITY
                    &&& alpha == best_score
                    &&& best_seen == best_score
                    &&& -INFINITY <= best_score
                    &&& best_score > -INFINITY ==> full_candidate(p0, best_move) && quiet_reply(
                        p0,
                        h0,
                        0,
                        params0,
                        kvm0,
                        best_move,
                    ) == best_score
                    &&& forall|k: int|
                        0 <= k < i && full_candidate(p0, moves@[k]) ==> #[trigger] quiet_reply(
                            p0,
                            h0,
                            0,
                            params0,
                            kvm0,
                            moves@[k],
                        ) <= best_seen
                    &&& best_seen == -INFINITY || exists|k: int|
                        0 <= k < i && full_candidate(p0, moves@[k]) && #[trigger] quiet_reply(
                            p0,
                            h0,
                            0,
                            params0,
                            kvm0,
                            moves@[k],
                        ) == best_seen
                },
            decreases n - i,
        {
            let mv = moves.get(i);
            let ghost w = quiet_reply(p0, h0, 0, params0, kvm0, mv);
            if pos.move_ok_check(mv) {
                pos.make_move(mv, &mut state, bbs);
                let ghost p1 = *pos;
                let ghost st1 = state;
                proof {
                    lemma_made_ok(p0, mv, p1, state);
                }
                self.rep_history.push(pos.zkey);
                let ghost c1 = self.ctx;
                let score = -self.negamax(pos, bbs, depth - 1, 1, -beta, -alpha, NodeType::PV);
                proof {
                    if ex {
                        assert(full_candidate(p0, mv));
                        assert(-INFINITY < w < INFINITY);
                        lemma_child_faithful(p0, mv, p1, st1, h0, c1, params0, kvm0, 0, alpha as int, beta as int, score as int);
                    }
                }
                pos.undo_move(mv, &state, bbs);
                proof {
                    lemma_make_undo(p0, mv, p1, state, *pos);
                }
                self.rep_history.pop();
                proof {
                    assert(self.rep_history@ =~= h0);
                }
                if score > best_score {
                    best_score = score;
                    best_move = mv;
                }
                if score > alpha {
                    alpha = score;
                }
                proof {
                    if ex && w > best_seen {
                        best_seen = w;
                    }
                }
            }
            i = i + 1;
        }
        proof {
            if ex {
                lemma_full_list_best(p0, h0, 0, params0, kvm0, -INFINITY as int, moves@, best_seen);
                if exists|m: Move| full_candidate(p0, m) {
                    let x = choose|m: Move| full_candidate(p0, m);
                    assert(moves@.contains(x));
                    let j = choose|j: int| 0 <= j < moves@.len() && moves@[j] == x;
                    assert(quiet_reply(p0, h0, 0, params0, kvm0, moves@[j]) <= best_seen);
                }
            }
        }
        assert(depth == 1 && unclocked(old(self).ctx) ==> root_faithful(
                *old(pos),
                old(self).rep_history@,
                old(self).tt,
                old(self).params,
                old(self).king_mobility@,
                SearchResult { best_move, score: best_score, depth },
            )) by {
            reveal(root_faithful);
        }
        let eval = self.static_eval(pos, bbs);
        self.tt.store(pos.zkey, depth as u8, best_move, BoundType::Exact, false, best_score as i16, eval as i16);
        SearchResult { best_move, score: best_score, depth }
    }

    /// Deepens the search one ply at a time from 1 to `max_depth` until the search must stop:
    /// the results of the completed depths, in order, and the last of them (or no move, when
    /// none completed).
    pub fn iterative_deepening(&mut self, pos: &mut Position, bbs: &Bitboards, max_depth: i32) -> (r: (SearchResult, Vec<SearchResult>))
        requires
            old(self).inv(),
            bbs.wf(),
            old(pos).wf(),
            node_ready(*old(pos)),
            max_depth <= 46340,
        ensures
            final(self).inv(),
            *final(pos) == *old(pos),
            final(self).rep_history@ == old(self).rep_history@,
            forall|k: int| 0 <= k < r.1@.len() ==> (#[trigger] r.1@[k]).depth == k + 1,
            r.1@.len() == 0 ==> r.0 == (SearchResult { best_move: Move::null_spec(), score: -32001i32, depth: 0 }),
            r.1@.len() > 0 ==> r.0 == r.1@.last(),
            ctx_kept(old(self).ctx, final(self).ctx),
            final(self).tt.age_of() == old(self).tt.age_of(),
            !has_legal_move(*old(pos)) ==> forall|k: int|
                0 <= k < r.1@.len() ==> #[trigger] r.1@[k] == (SearchResult {
                best_move: Move::null_spec(),
                score: if old(pos).checkers.0 == 0 { 0i32 } else { -32001i32 },
                depth: (k + 1) as i32,
            }),
            unclocked(old(self).ctx) ==> r.1@.len() == (if max_depth >= 1 {
                max_depth as int
            } else {
                0
            }),
            unclocked(old(self).ctx) && r.1@.len() > 0 ==> root_faithful(
                *old(pos),
                old(self).rep_history@,
                old(self).tt,
                old(self).params,
                old(self).king_mobility@,
                r.1@[0],
            ),
    {
        let mut best = SearchResult::new();
        let mut done: Vec<SearchResult> = Vec::new();
        let mut depth: i32 = 1;
        let mut stop = false;
        while depth <= max_depth && !stop
            invariant
                self.inv(),
                bbs.wf(),
                *pos == *old(pos),
                old(pos).wf(),
                node_ready(*old(pos)),
                self.rep_history@ == old(self).rep_history@,
                1 <= depth,
                max_depth <= 46340,
                done@.len() == depth - 1,
                forall|k: int| 0 <= k < done@.len() ==> (#[trigger] done@[k]).depth == k + 1,
                done@.len() == 0 ==> best == (SearchResult { best_move: Move::null_spec(), score: -32001i32, depth: 0 }),
                done@.len() > 0 ==> best == done@.last(),
                ctx_kept(old(self).ctx, self.ctx),
                self.tt.age_of() == old(self).tt.age_of(),
                depth <= max_depth + 1 || depth == 1,
                unclocked(old(self).ctx) ==> !stop,
                depth == 1 && !stop ==> self.tt == old(self).tt && self.params == old(self).params
                    && self.king_mobility == old(self).king_mobility,
                unclocked(old(self).ctx) && done@.len() > 0 ==> root_faithful(
                    *old(pos),
                    old(self).rep_history@,
                    old(self).tt,
                    old(self).params,
                    old(self).king_mobility@,
                    done@[0],
                ),
                !has_legal_move(*old(pos)) ==> forall|k: int|
                    0 <= k < done@.len() ==> #[trigger] done@[k] == (SearchResult {
                best_move: Move::null_spec(),
                score: if old(pos).checkers.0 == 0 { 0i32 } else { -32001i32 },
                depth: (k + 1) as i32,
            }),
            decreases max_depth + 1 - depth, (if stop { 0int } else { 1int }),
        {
            if self.ctx.should_stop() {
                stop = true;
            } else {
                let current = self.search_root(pos, bbs, best.best_move, depth);
                if self.ctx.stopped {
                    stop = true;
                } else {
                    done.push(current);
                    best = current;
                    depth = depth + 1;
                }
            }
        }
        (best, done)
    }
}

/// A move the root search may answer with: no move, a legal move, or the move that the
/// table held for the position when the search began.
pub open spec fn root_move_ok(pos: Position, tt: TranspositionTable, m: Move) -> bool {
    ||| m == Move::null_spec()
    ||| legal_of(pos, legal_mode(pos), m)
    ||| (tt.probe_spec(pos.zkey.0) matches Some(h) && m == h.mv)
}

/// The first legal move of `pos`, or no move when there is none.
pub fn first_legal_move(pos: &Position, bbs: &Bitboards) -> (r: Move)
    requires
        bbs.wf(),
        gen_ok(*pos, legal_mode(*pos)),
    ensures
        has_legal_move(*pos) ==> legal_of(*pos, legal_mode(*pos), r),
        !has_legal_move(*pos) ==> r == Move::null_spec(),
{
    let mut moves = MoveList::new();
    generate_legal(pos, bbs, &mut moves);
    if moves.len() > 0 {
        let m = moves.get(0);
        assert(moves@.contains(moves@[0]));
        m
    } else {
        proof {
            if has_legal_move(*pos) {
                let w = choose|m: Move| legal_of(*pos, legal_mode(*pos), m);
                assert(moves@.contains(w));
            }
        }
        Move::null()
    }
}

/// Some legal move exists in `pos`.
pub open spec fn has_legal_move(pos: Position) -> bool {
    exists|m: Move| legal_of(pos, legal_mode(pos), m)
}

/// Searches `pos` within `limits.max_depth` plies, stopping at `stop_at` when given, with the
/// table `tt`, the keys of the positions played so far `history` (the current one last) and
/// the evaluation weights `params` and `king_mobility`: the result of the deepest completed
/// depth, with the first legal move standing in when no move was found, and the results of
/// every completed depth. The table is aged by one search and handed back.
pub fn search(
    pos: &mut Position,
    bbs: &Bitboards,
    tt: TranspositionTable,
    history: &Vec<ZKey>,
    limits: &SearchLimits,
    stop_at: Option<Instant>,
    params: &Params,
    king_mobility: &[Score; 28],
) -> (r: (SearchResult, Vec<SearchResult>, TranspositionTable))
    requires
        bbs.wf(),
        old(pos).wf(),
        node_ready(*old(pos)),
        tt.wf(),
        history@.len() >= 1,
        limits.max_depth <= 46340,
        params_ok(*params),
        weights_ok(king_mobility@),
        ring_weights_ok(*params),
    ensures
        *final(pos) == *old(pos),
        r.2.wf(),
        forall|k: int| 0 <= k < r.1@.len() ==> (#[trigger] r.1@[k]).depth == k + 1,
        r.1@.len() > 0 ==> r.0.depth == r.1@.last().depth && r.0.score == r.1@.last().score,
        r.1@.len() > 0 && r.1@.last().best_move != Move::null_spec() ==> r.0.best_move == r.1@.last().best_move,
        (r.1@.len() == 0 || r.1@.last().best_move == Move::null_spec()) && has_legal_move(*old(pos))
            ==> legal_of(*old(pos), legal_mode(*old(pos)), r.0.best_move),
        stop_at is None ==> r.1@.len() == (if limits.max_depth >= 1 {
            limits.max_depth as int
        } else {
            0
        }),
        stop_at is None && r.1@.len() > 0 ==> root_faithful(*old(pos), history@, tt, *params, king_mobility@, r.1@[0]),
        r.2.age_of() == vstd::wrapping::u8_specs::wrapping_add(tt.age_of(), 1),
        !has_legal_move(*old(pos)) ==> r.0.best_move == Move::null_spec() && forall|k: int|
            0 <= k < r.1@.len() ==> #[trigger] r.1@[k] == (SearchResult {
                best_move: Move::null_spec(),
                score: if old(pos).checkers.0 == 0 { 0i32 } else { -32001i32 },
                depth: (k + 1) as i32,
            }),
{
    let mut rep_history: Vec<ZKey> = Vec::new();
    let mut i: usize = 0;
    while i < history.len()
        invariant
            i <= history@.len(),
            rep_history@ == history@.subrange(0, i as int),
        decreases history@.len() - i,
    {
        rep_history.push(history[i]);
        i = i + 1;
        assert(rep_history@ =~= history@.subrange(0, i as int));
    }
    assert(rep_history@ =~= history@);
    let fallback = first_legal_move(pos, bbs);
    let mut searcher = Searcher {
        tt,
        rep_history,
        ordering: OrderingTables::new(),
        ctx: SearchContext { stats: SearchStats::new(), stop_at, stopped: false },
        params: *params,
        king_mobility: *king_mobility,
    };
    assert(searcher.rep_history@ == history@ && searcher.tt == tt && searcher.params == *params
        && searcher.king_mobility@ == king_mobility@);
    let (mut result, done) = searcher.iterative_deepening(pos, bbs, limits.max_depth);
    if result.best_move.is_null() {
        result.best_move = fallback;
    }
    searcher.tt.increment_age();
    (result, done, searcher.tt)
}

} // verus!
