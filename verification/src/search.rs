//! Search support: move ordering tables (killers and history), the scores that order moves, late
//! move reduction rules, draw and mate scores, and repetition detection; the tree search itself
//! is in `tree`.
use vstd::prelude::*;

pub mod tree;

pub use tree::{SearchContext, SearchLimits, SearchStats, Searcher};

use crate::evaluate::{Eval, INFINITY};
use crate::movegen::MoveList;
use crate::position::{capture_square, Position};
use crate::types::{Move, MoveFlag, Piece};
use crate::zobrist::ZKey;

verus! {

/// The outcome of a search: the best move found, its score and the depth reached.
#[derive(Copy, Clone, Eq, PartialEq, Debug, Structural)]
pub struct SearchResult {
    pub best_move: Move,
    pub score: Eval,
    pub depth: i32,
}

impl SearchResult {
    /// No move yet, the worst score, depth 0.
    #[inline(always)]
    pub fn new() -> (r: SearchResult)
        ensures
            r.best_move == Move::null_spec(),
            r.score == -INFINITY,
            r.depth == 0,
    {
        SearchResult { best_move: Move::null(), score: -INFINITY, depth: 0 }
    }
}

/// Ordering bonuses: the principal variation move, the hash move, captures, promotions and the
/// two killers, in that order.
pub const PV_BONUS: i32 = 1_000_000;

pub const TT_BONUS: i32 = 900_000;

pub const CAPTURE_BASE: i32 = 800_000;

pub const PROMOTION_BASE: i32 = 700_000;

pub const KILLER1_BONUS: i32 = 600_000;

pub const KILLER2_BONUS: i32 = 599_000;

/// The deepest ply the killer table covers, and the cap on history scores.
pub const MAX_PLY: usize = 256;

pub const MAX_HISTORY: i32 = 16384;

/// Whether `score` is a mate score: within 1000 of the mate value.
pub open spec fn is_mate_score_spec(score: int) -> bool {
    (if score < 0 {
        -score
    } else {
        score
    }) >= INFINITY - 1000
}

/// Whether `score` is a mate score: within 1000 of the mate value.
#[inline(always)]
pub fn is_mate_score(score: Eval) -> (r: bool)
    requires
        score > i32::MIN,
    ensures
        r == is_mate_score_spec(score as int),
{
    let magnitude = if score < 0 {
        -score
    } else {
        score
    };
    magnitude >= INFINITY - 1000
}

/// How much a late move is reduced: nothing for the first three moves, two plies after the
/// twelfth, one ply otherwise.
#[inline(always)]
pub fn lmr_reduction(idx: usize) -> (r: i32)
    ensures
        r == (if idx < 3 {
            0i32
        } else if idx > 12 {
            2i32
        } else {
            1i32
        }),
{
    if idx < 3 {
        return 0;
    }
    if idx > 12 {
        return 2;
    }
    1
}

/// The score of a draw `ply` plies from the root: slightly bad for the side at the root (even
/// plies), slightly good for its opponent.
#[inline(always)]
pub fn draw_score(ply: i32) -> (r: Eval)
    ensures
        r == (if ply % 2 == 0 {
            -10int
        } else {
            10int
        }),
{
    let contempt: Eval = 10;
    if ply % 2 == 0 {
        -contempt
    } else {
        contempt
    }
}

/// The piece a move captures, if it is a capture: a pawn for en passant, otherwise what stands
/// on the destination.
pub open spec fn victim_of(pos: Position, mv: Move) -> Option<Piece> {
    if mv.flag_of() == MoveFlag::EpCapture {
        Some(Piece::Pawn)
    } else {
        pos.mailbox@[mv.to_index() as int].piece_of()
    }
}

/// The ordering bonus of a promotion piece: queen, then knight, rook and bishop.
pub open spec fn promo_bonus(p: Piece) -> int {
    match p {
        Piece::Queen => 40,
        Piece::Knight => 30,
        Piece::Rook => 20,
        _ => 10,
    }
}

fn promo_bonus_of(p: Piece) -> (r: i32)
    ensures
        r == promo_bonus(p),
{
    match p {
        Piece::Queen => 40,
        Piece::Knight => 30,
        Piece::Rook => 20,
        _ => 10,
    }
}

/// The capture score: most valuable victim first, then least valuable attacker, with the
/// promotion bonus of a capturing promotion.
pub open spec fn capture_score(pos: Position, mv: Move, victim: Piece) -> int {
    let attacker = pos.mailbox@[mv.from_index() as int].piece_of().unwrap();
    CAPTURE_BASE + 8 * (victim@ + 1) - attacker@ + match mv.flag_of().promotion() {
        Some(p) => promo_bonus(p),
        None => 0,
    }
}

/// What the ordering scores of a move need: its source square occupied when it captures.
pub open spec fn scorable(pos: Position, mv: Move) -> bool {
    victim_of(pos, mv).is_some() ==> pos.mailbox@[mv.from_index() as int] != crate::types::PieceCode::EMPTY
}

/// Killer moves and history scores, used to order quiet moves.
pub struct OrderingTables {
    killers: Vec<Move>,
    history: Vec<i32>,
}

impl OrderingTables {
    /// Two killer slots for each ply below `MAX_PLY`, and a history score in `[0, MAX_HISTORY]`
    /// for each side, source and destination.
    pub closed spec fn wf(self) -> bool {
        &&& self.killers@.len() == 2 * MAX_PLY
        &&& self.history@.len() == 2 * 64 * 64
        &&& forall|i: int| 0 <= i < self.history@.len() ==> 0 <= #[trigger] self.history@[i] <= MAX_HISTORY
    }

    /// The killers, two per ply.
    pub closed spec fn killers_view(self) -> Seq<Move> {
        self.killers@
    }

    /// The history scores, indexed by side, source and destination.
    pub closed spec fn history_view(self) -> Seq<i32> {
        self.history@
    }

    /// The killer in slot `k` (0 or 1) at `ply`.
    pub closed spec fn killer(self, ply: int, k: int) -> Move {
        self.killers@[2 * ply + k]
    }

    /// The history score of a move from `from` to `to` by `side`.
    pub closed spec fn history_of(self, side: int, from: int, to: int) -> i32 {
        self.history@[side * 4096 + from * 64 + to]
    }

    /// How the killer and history readings stand in the two views, and what well-formedness
    /// says of the views.
    pub proof fn lemma_views(self)
        ensures
            forall|ply: int, k: int| #[trigger] self.killer(ply, k) == self.killers_view()[2 * ply + k],
            forall|side: int, from: int, to: int|
                #[trigger] self.history_of(side, from, to) == self.history_view()[side * 4096 + from * 64 + to],
            self.wf() ==> self.killers_view().len() == 2 * MAX_PLY,
            self.wf() ==> self.history_view().len() == 2 * 64 * 64,
            self.wf() ==> forall|i: int|
                0 <= i < self.history_view().len() ==> 0 <= #[trigger] self.history_view()[i] <= MAX_HISTORY,
    {
    }

    /// Empty tables: null killers and zero history.
    pub fn new() -> (r: OrderingTables)
        ensures
            r.wf(),
            forall|p: int, k: int|
                0 <= p < MAX_PLY && 0 <= k < 2 ==> #[trigger] r.killer(p, k) == Move::null_spec(),
            forall|s: int, f: int, t: int|
                0 <= s < 2 && 0 <= f < 64 && 0 <= t < 64 ==> #[trigger] r.history_of(s, f, t) == 0,
    {
        let mut killers: Vec<Move> = Vec::new();
        let mut i: usize = 0;
        while i < 2 * MAX_PLY
            invariant
                i <= 2 * MAX_PLY,
                killers@.len() == i,
                forall|j: int| 0 <= j < i ==> #[trigger] killers@[j] == Move::null_spec(),
            decreases 2 * MAX_PLY - i,
        {
            killers.push(Move::null());
            i = i + 1;
        }
        let mut history: Vec<i32> = Vec::new();
        let mut j: usize = 0;
        while j < 2 * 64 * 64
            invariant
                j <= 2 * 64 * 64,
                history@.len() == j,
                forall|k: int| 0 <= k < j ==> #[trigger] history@[k] == 0,
            decreases 2 * 64 * 64 - j,
        {
            history.push(0);
            j = j + 1;
        }
        let r = OrderingTables { killers, history };
        assert forall|p: int, k: int| 0 <= p < MAX_PLY && 0 <= k < 2 implies #[trigger] r.killer(p, k)
            == Move::null_spec() by {
            assert(0 <= 2 * p + k < 2 * MAX_PLY);
        }
        assert forall|s: int, f: int, t: int|
            0 <= s < 2 && 0 <= f < 64 && 0 <= t < 64 implies #[trigger] r.history_of(s, f, t) == 0 by {
            assert(0 <= s * 4096 + f * 64 + t < 8192) by (nonlinear_arith)
                requires
                    0 <= s < 2,
                    0 <= f < 64,
                    0 <= t < 64,
            ;
        }
        r
    }

    /// Records `mv` as the first killer at `ply`, moving the old first killer to the second slot,
    /// unless it already is the first killer; plies past the table are ignored.
    pub fn update_killers(&mut self, mv: Move, ply: usize)
        requires
            old(self).wf(),
        ensures
            final(self).wf(),
            final(self).history_view() == old(self).history_view(),
            ply >= MAX_PLY || old(self).killer(ply as int, 0) == mv ==> final(self).killers_view() == old(
                self,
            ).killers_view(),
            ply < MAX_PLY && old(self).killer(ply as int, 0) != mv ==> final(self).killers_view() == old(
                self,
            ).killers_view().update(2 * ply + 1, old(self).killer(ply as int, 0)).update(2 * ply, mv),
    {
        if ply >= MAX_PLY {
            return;
        }
        // Keep the two killers of a ply distinct
        let first = self.killers[2 * ply];
        if first != mv {
            self.killers.set(2 * ply + 1, first);
            self.killers.set(2 * ply, mv);
        }
    }

    /// Adds the square of `depth` to the history score of `mv` for `side`, capped at
    /// `MAX_HISTORY`.
    pub fn update_history(&mut self, mv: Move, depth: i32, side: usize)
        requires
            old(self).wf(),
            side < 2,
            -46340 <= depth <= 46340,
        ensures
            final(self).wf(),
            final(self).killers_view() == old(self).killers_view(),
            ({
                let i = side * 4096 + mv.from_index() * 64 + mv.to_index();
                let w = old(self).history_view()[i] + depth * depth;
                final(self).history_view() == old(self).history_view().update(
                    i,
                    (if w < MAX_HISTORY {
                        w
                    } else {
                        MAX_HISTORY as int
                    }) as i32,
                )
            }),
    {
        let from = mv.from().idx();
        let to = mv.to().idx();
        let i = side * 4096 + from * 64 + to;
        proof {
            assert(0 <= i < 8192) by (nonlinear_arith)
                requires
                    side < 2,
                    from < 64,
                    to < 64,
                    i == side * 4096 + from * 64 + to,
            ;
            assert(0 <= depth * depth <= 46340 * 46340) by (nonlinear_arith)
                requires
                    -46340 <= depth <= 46340,
            ;
        }
        let bonus = depth * depth;
        let weight = self.history[i] + bonus;
        let capped = if weight < MAX_HISTORY {
            weight
        } else {
            MAX_HISTORY
        };
        self.history.set(i, capped);
    }

    /// The ordering score of `mv`: the principal variation move, then the hash move, captures
    /// (most valuable victim, least valuable attacker), promotions, the two killers, and the
    /// history score.
    pub open spec fn score_spec(
        self,
        pos: Position,
        ply: int,
        mv: Move,
        pv_move: Move,
        tt_move: Move,
    ) -> int {
        if mv == pv_move {
            PV_BONUS as int
        } else if mv == tt_move {
            TT_BONUS as int
        } else {
            self.evasion_spec(pos, ply, mv)
        }
    }

    /// The ordering score of `mv` without principal variation or hash move: captures,
    /// promotions, killers, history.
    pub open spec fn evasion_spec(self, pos: Position, ply: int, mv: Move) -> int {
        match victim_of(pos, mv) {
            Some(v) => capture_score(pos, mv, v),
            None => match mv.flag_of().promotion() {
                Some(p) => PROMOTION_BASE + promo_bonus(p),
                None => self.quiet_spec(pos, ply, mv),
            },
        }
    }

    /// The ordering score of a quiet move: the killers, then the history score.
    pub open spec fn quiet_spec(self, pos: Position, ply: int, mv: Move) -> int {
        if mv == self.killer(ply, 0) {
            KILLER1_BONUS as int
        } else if mv == self.killer(ply, 1) {
            KILLER2_BONUS as int
        } else {
            self.history_of(
                pos.side_to_move@ as int,
                mv.from_index() as int,
                mv.to_index() as int,
            ) as int
        }
    }

    /// The ordering score of a capture or promotion.
    pub open spec fn noisy_spec(pos: Position, mv: Move) -> int {
        match victim_of(pos, mv) {
            Some(v) => capture_score(pos, mv, v),
            None => match mv.flag_of().promotion() {
                Some(p) => PROMOTION_BASE + promo_bonus(p),
                None => 0,
            },
        }
    }

    /// Scores a capture or promotion; see `noisy_spec`.
    pub fn score_noisy(&self, pos: &Position, mv: Move) -> (r: i32)
        requires
            scorable(*pos, mv),
        ensures
            r == OrderingTables::noisy_spec(*pos, mv),
    {
        match pos.captured_piece(mv) {
            Some(victim) => {
                let attacker = pos.mailbox.piece_at(mv.from()).unwrap();
                let mut score = CAPTURE_BASE + 8 * (victim.idx() as i32 + 1) - attacker.idx() as i32;
                if let Some(promo) = mv.promotion_piece() {
                    score = score + promo_bonus_of(promo);
                }
                score
            },
            None => match mv.promotion_piece() {
                Some(promo) => PROMOTION_BASE + promo_bonus_of(promo),
                None => 0,
            },
        }
    }

    /// Scores a quiet move; see `quiet_spec`.
    pub fn score_quiet(&self, pos: &Position, mv: Move, ply: usize) -> (r: i32)
        requires
            self.wf(),
            ply < MAX_PLY,
        ensures
            r == self.quiet_spec(*pos, ply as int, mv),
    {
        if mv == self.killers[2 * ply] {
            return KILLER1_BONUS;
        }
        if mv == self.killers[2 * ply + 1] {
            return KILLER2_BONUS;
        }
        let side = pos.side_to_move.idx();
        let i = side * 4096 + mv.from().idx() * 64 + mv.to().idx();
        proof {
            let f = mv.from_index();
            let t = mv.to_index();
            Move::lemma_indices(mv);
            assert(0 <= side * 4096 + f * 64 + t < 8192) by (nonlinear_arith)
                requires
                    side < 2,
                    f < 64,
                    t < 64,
            ;
        }
        self.history[i]
    }

    /// Scores a move when evading check; see `evasion_spec`.
    pub fn score_evasion(&self, pos: &Position, mv: Move, ply: usize) -> (r: i32)
        requires
            self.wf(),
            ply < MAX_PLY,
            scorable(*pos, mv),
        ensures
            r == self.evasion_spec(*pos, ply as int, mv),
    {
        if pos.captured_piece(mv).is_some() || mv.is_promotion() {
            self.score_noisy(pos, mv)
        } else {
            self.score_quiet(pos, mv, ply)
        }
    }

    /// The ordering score of `mv`; see `score_spec`.
    pub fn move_order_score(
        &self,
        pos: &Position,
        ply: usize,
        mv: Move,
        pv_move: Move,
        tt_move: Move,
    ) -> (r: i32)
        requires
            self.wf(),
            ply < MAX_PLY,
            scorable(*pos, mv),
        ensures
            r == self.score_spec(*pos, ply as int, mv, pv_move, tt_move),
    {
        // Always want PV move to be first, followed by TT-move
        if mv == pv_move {
            return PV_BONUS;
        }
        if mv == tt_move {
            return TT_BONUS;
        }
        self.score_evasion(pos, mv, ply)
    }

    /// Sorts `moves` by decreasing ordering score (equal scores keep their order).
    pub fn order_moves(
        &self,
        pos: &Position,
        ply: usize,
        moves: &mut MoveList,
        pv_move: Move,
        tt_move: Move,
    )
        requires
            self.wf(),
            ply < MAX_PLY,
            forall|i: int| 0 <= i < old(moves)@.len() ==> scorable(*pos, #[trigger] old(moves)@[i]),
        ensures
            final(moves)@.to_multiset() == old(moves)@.to_multiset(),
            forall|i: int, j: int|
                0 <= i < j < final(moves)@.len() ==> self.score_spec(
                    *pos,
                    ply as int,
                    #[trigger] final(moves)@[i],
                    pv_move,
                    tt_move,
                ) >= self.score_spec(*pos, ply as int, #[trigger] final(moves)@[j], pv_move, tt_move),
    {
        let n = moves.len();
        let mut list = moves.to_vec();
        let mut scores: Vec<i32> = Vec::new();
        let ghost f = |m: Move| self.score_spec(*pos, ply as int, m, pv_move, tt_move);
        let mut i: usize = 0;
        while i < n
            invariant
                i <= n,
                n == list@.len(),
                list@ == moves@,
                self.wf(),
                ply < MAX_PLY,
                forall|k: int| 0 <= k < moves@.len() ==> scorable(*pos, #[trigger] moves@[k]),
                scores@.len() == i,
                f == (|m: Move| self.score_spec(*pos, ply as int, m, pv_move, tt_move)),
                forall|k: int| 0 <= k < i ==> #[trigger] scores@[k] == f(list@[k]),
            decreases n - i,
        {
            let mv = list[i];
            let s = self.move_order_score(pos, ply, mv, pv_move, tt_move);
            scores.push(s);
            assert(scores@[i as int] == f(list@[i as int]));
            i = i + 1;
        }
        sort_desc(&mut list, &mut scores, Ghost(f));
        moves.replace(list);
    }
}

/// Sorts `moves` by decreasing score `f`, keeping equal ones in order (insertion sort);
/// `scores` holds the score of each move and is reordered with it.
pub(crate) fn sort_desc(moves: &mut Vec<Move>, scores: &mut Vec<i32>, Ghost(f): Ghost<spec_fn(Move) -> int>)
    requires
        old(moves)@.len() == old(scores)@.len(),
        forall|k: int| 0 <= k < old(scores)@.len() ==> #[trigger] old(scores)@[k] == f(old(moves)@[k]),
    ensures
        final(moves)@.to_multiset() == old(moves)@.to_multiset(),
        final(moves)@.len() == final(scores)@.len(),
        forall|k: int| 0 <= k < final(scores)@.len() ==> #[trigger] final(scores)@[k] == f(final(moves)@[k]),
        forall|a: int, b: int|
            0 <= a < b < final(moves)@.len() ==> f(#[trigger] final(moves)@[a]) >= f(
                #[trigger] final(moves)@[b],
            ),
{
    broadcast use vstd::seq_lib::group_to_multiset_ensures, vstd::multiset::group_multiset_axioms;

    let n = moves.len();
    if n == 0 {
        return;
    }
    let mut i: usize = 1;
    while i < n
        invariant
            1 <= i <= n,
            n == moves@.len(),
            n == scores@.len(),
            moves@.to_multiset() == old(moves)@.to_multiset(),
            forall|k: int| 0 <= k < n ==> #[trigger] scores@[k] == f(moves@[k]),
            forall|a: int, b: int| 0 <= a < b < i ==> (#[trigger] scores@[a]) >= (#[trigger] scores@[b]),
        decreases n - i,
    {
        let mut j = i;
        while j > 0 && scores[j - 1] < scores[j]
            invariant
                0 <= j <= i < n,
                n == moves@.len(),
                n == scores@.len(),
                moves@.to_multiset() == old(moves)@.to_multiset(),
                forall|k: int| 0 <= k < n ==> #[trigger] scores@[k] == f(moves@[k]),
                forall|a: int, b: int|
                    0 <= a < b <= i && a != j && b != j ==> (#[trigger] scores@[a]) >= (
                    #[trigger] scores@[b]),
                forall|k: int| j < k <= i ==> (#[trigger] scores@[k]) < scores@[j as int],
                forall|a: int, k: int|
                    0 <= a < j && j < k <= i ==> (#[trigger] scores@[a]) >= (#[trigger] scores@[k]),
            decreases j,
        {
            let x = moves[j - 1];
            let y = moves[j];
            let sx = scores[j - 1];
            let sy = scores[j];
            let ghost m0 = moves@;
            moves.set(j - 1, y);
            moves.set(j, x);
            scores.set(j - 1, sy);
            scores.set(j, sx);
            proof {
                let m1 = m0.update(j - 1, y);
                vstd::seq_lib::to_multiset_update(m0, j - 1, y);
                vstd::seq_lib::to_multiset_update(m1, j as int, x);
                assert(m1[j as int] == y);
                assert(m0[j - 1] == x);
                vstd::seq_lib::to_multiset_contains(m0, x);
                assert(m0.to_multiset().insert(y).remove(x).insert(x).remove(y) =~= m0.to_multiset());
                assert(moves@.to_multiset() =~= m0.to_multiset());
            }
            j = j - 1;
        }
        i = i + 1;
    }
    assert forall|a: int, b: int| 0 <= a < b < moves@.len() implies f(#[trigger] moves@[a]) >= f(
        #[trigger] moves@[b],
    ) by {
        assert(scores@[a] == f(moves@[a]));
        assert(scores@[b] == f(moves@[b]));
    }
}

/// Whether the position with key `key` and halfmove clock `halfmove` occurred before: among
/// the earlier positions of `history` (whose last entry is the current one) at an even distance
/// from 2 up to the clock, within the history.
pub open spec fn repeated(history: Seq<ZKey>, key: ZKey, halfmove: int) -> bool {
    let len = history.len() as int;
    let max_back = if halfmove < len - 1 {
        halfmove
    } else {
        len - 1
    };
    exists|back: int|
        2 <= back <= max_back && back % 2 == 0 && #[trigger] history[len - 1 - back] == key
}

/// Repetition, on the history's own indices: with the current position's key `key` last in
/// `history` and its halfmove clock `halfmove`, the position repeats exactly when the entry `k`
/// plies back is `key` for some even `k` from 2 up to the clock and within the history (an
/// odd distance has the other side to move). In particular, the entry four plies back equal to
/// `key` with a clock of at least 4 is a repetition.
pub proof fn lemma_repetition_law(history: Seq<ZKey>, key: ZKey, halfmove: int, k: int)
    requires
        history.len() >= 1,
    ensures
        2 <= k <= halfmove && k % 2 == 0 && k < history.len() && history[history.len() - 1 - k] == key
            ==> repeated(history, key, halfmove),
        repeated(history, key, halfmove) ==> exists|j: int|
            2 <= j <= halfmove && j % 2 == 0 && j < history.len() && #[trigger] history[history.len() - 1 - j]
                == key,
        history.len() >= 5 && halfmove >= 4 && history[history.len() - 5] == key ==> repeated(history, key, halfmove),
{
    let len = history.len() as int;
    if 2 <= k <= halfmove && k % 2 == 0 && k < len && history[len - 1 - k] == key {
        assert(history[len - 1 - k] == key);
    }
    if len >= 5 && halfmove >= 4 && history[len - 5] == key {
        assert(history[len - 1 - 4] == key);
    }
    if repeated(history, key, halfmove) {
        let b = choose|back: int|
            2 <= back <= (if halfmove < len - 1 { halfmove } else { len - 1 }) && back % 2 == 0
                && #[trigger] history[len - 1 - back] == key;
        assert(history[len - 1 - b] == key);
    }
}

/// Whether the current position repeats an earlier one; see `repeated`.
pub fn is_repetition(history: &Vec<ZKey>, pos: &Position) -> (r: bool)
    requires
        history@.len() >= 1,
    ensures
        r == repeated(history@, pos.zkey, pos.halfmove_clock as int),
{
    let limit = pos.halfmove_clock as usize;
    let len = history.len();
    let max_back = if limit < len - 1 {
        limit
    } else {
        len - 1
    };
    let mut back: usize = 2;
    while back <= max_back
        invariant
            2 <= back,
            back % 2 == 0,
            max_back == (if limit < len - 1 {
                limit
            } else {
                (len - 1) as usize
            }),
            len == history@.len(),
            len >= 1,
            limit == pos.halfmove_clock as usize,
            forall|b: int| 2 <= b < back && b % 2 == 0 ==> #[trigger] history@[len - 1 - b] != pos.zkey,
        decreases max_back + 2 - back,
    {
        if history[len - 1 - back] == pos.zkey {
            return true;
        }
        back = back + 2;
    }
    proof {
        assert forall|b: int|
            2 <= b <= max_back && b % 2 == 0 implies #[trigger] history@[len - 1 - b] != pos.zkey by {
            assert(b < back);
        }
    }
    false
}

/// Whether late move reductions apply to `mv`: not below depth 3, not for captures or
/// promotions, not when in check or giving check, not for killers.
pub fn can_lmr(
    pos: &Position,
    ordering: &OrderingTables,
    mv: Move,
    in_check: bool,
    depth: i32,
    ply: i32,
) -> (r: bool)
    requires
        ordering.wf(),
        0 <= ply < MAX_PLY,
    ensures
        r == (depth >= 3 && !mv.flag_of().is_capture() && !mv.flag_of().is_promotion() && !in_check
            && pos.checkers.0 == 0 && mv != ordering.killer(ply as int, 0) && mv != ordering.killer(
            ply as int,
            1,
        )),
{
    if depth < 3 {
        return false;
    }
    if mv.is_capture() || mv.is_promotion() {
        return false;
    }
    if in_check || !pos.checkers.is_empty() {
        return false;
    }
    if ordering.is_killer(mv, ply as usize) {
        return false;
    }
    true
}

impl OrderingTables {
    /// Whether `mv` is one of the two killers at `ply`.
    pub fn is_killer(&self, mv: Move, ply: usize) -> (r: bool)
        requires
            self.wf(),
            ply < MAX_PLY,
        ensures
            r == (mv == self.killer(ply as int, 0) || mv == self.killer(ply as int, 1)),
    {
        self.killers[2 * ply] == mv || self.killers[2 * ply + 1] == mv
    }
}

} // verus!
