//! Staged move picking: the principal variation move, the hash move, then the generated moves
//! of each stage in order of their scores, one at a time.
use vstd::prelude::*;

use crate::bitboard::Bitboards;
use crate::movegen::{
    gen_move, gen_ok, generate_evasions, generate_noisy, generate_quiets, lemma_gen_from_own,
    GenType, MoveList,
};
use crate::position::Position;
use crate::search::{scorable, sort_desc, OrderingTables, MAX_PLY};
use crate::types::Move;

verus! {

/// Where a move picker is: the regular stages, the stages that evade check, and those of the
/// quiescence search.
#[derive(Copy, Clone, Eq, PartialEq, Debug, Structural)]
pub enum Stage {
    PVMove,
    TTMove,
    GenNoisy,
    Noisy,
    GenQuiets,
    Quiets,
    PVEvasion,
    TTEvasion,
    GenEvasions,
    Evasions,
    TTQSearch,
    GenQSearch,
    QSearch,
    Done,
}

impl Stage {
    /// The stage that follows: each group runs in order and ends in `Done`, which stays.
    pub open spec fn after(self) -> Stage {
        match self {
            Stage::PVMove => Stage::TTMove,
            Stage::TTMove => Stage::GenNoisy,
            Stage::GenNoisy => Stage::Noisy,
            Stage::Noisy => Stage::GenQuiets,
            Stage::GenQuiets => Stage::Quiets,
            Stage::Quiets => Stage::Done,
            Stage::PVEvasion => Stage::TTEvasion,
            Stage::TTEvasion => Stage::GenEvasions,
            Stage::GenEvasions => Stage::Evasions,
            Stage::Evasions => Stage::Done,
            Stage::TTQSearch => Stage::GenQSearch,
            Stage::GenQSearch => Stage::QSearch,
            Stage::QSearch => Stage::Done,
            Stage::Done => Stage::Done,
        }
    }

    /// How many stages are left before `Done`.
    pub open spec fn rank(self) -> nat {
        match self {
            Stage::PVMove => 6,
            Stage::TTMove => 5,
            Stage::GenNoisy => 4,
            Stage::Noisy => 3,
            Stage::GenQuiets => 2,
            Stage::Quiets => 1,
            Stage::PVEvasion => 4,
            Stage::TTEvasion => 3,
            Stage::GenEvasions => 2,
            Stage::Evasions => 1,
            Stage::TTQSearch => 3,
            Stage::GenQSearch => 2,
            Stage::QSearch => 1,
            Stage::Done => 0,
        }
    }

    /// Moves on to the following stage.
    #[inline(always)]
    pub fn next(&mut self)
        ensures
            *final(self) == old(self).after(),
    {
        *self = match *self {
            Stage::PVMove => Stage::TTMove,
            Stage::TTMove => Stage::GenNoisy,
            Stage::GenNoisy => Stage::Noisy,
            Stage::Noisy => Stage::GenQuiets,
            Stage::GenQuiets => Stage::Quiets,
            Stage::Quiets => Stage::Done,
            Stage::PVEvasion => Stage::TTEvasion,
            Stage::TTEvasion => Stage::GenEvasions,
            Stage::GenEvasions => Stage::Evasions,
            Stage::Evasions => Stage::Done,
            Stage::TTQSearch => Stage::GenQSearch,
            Stage::GenQSearch => Stage::QSearch,
            Stage::QSearch => Stage::Done,
            Stage::Done => Stage::Done,
        }
    }
}

/// The kind of moves a generating or listing stage works on.
pub open spec fn mode_of(stage: Stage) -> GenType {
    match stage {
        Stage::GenQuiets | Stage::Quiets => GenType::Quiets,
        Stage::GenEvasions | Stage::Evasions => GenType::Evasions,
        _ => GenType::Noisy,
    }
}

/// What the stages of a group need of the position: generation of quiet moves for the
/// regular stages, of evasions when in check, of noisy moves in the quiescence search.
pub open spec fn stage_ok(pos: Position, stage: Stage) -> bool {
    match stage {
        Stage::PVMove | Stage::TTMove | Stage::GenNoisy | Stage::Noisy | Stage::GenQuiets
        | Stage::Quiets => gen_ok(pos, GenType::Quiets),
        Stage::PVEvasion | Stage::TTEvasion | Stage::GenEvasions | Stage::Evasions => gen_ok(
            pos,
            GenType::Evasions,
        ),
        Stage::TTQSearch | Stage::GenQSearch | Stage::QSearch => gen_ok(pos, GenType::Noisy),
        Stage::Done => true,
    }
}

/// The moves a listing stage passes over because they were already given: the hash move, and
/// outside the quiescence search the principal variation move.
pub open spec fn skips(stage: Stage, pv_move: Move, tt_move: Move, m: Move) -> bool {
    if stage == Stage::QSearch {
        m == tt_move
    } else {
        m == tt_move || m == pv_move
    }
}

/// The first index from `i` on whose move is not passed over, or the length of the list.
pub open spec fn first_unskipped(
    list: Seq<Move>,
    i: int,
    stage: Stage,
    pv_move: Move,
    tt_move: Move,
) -> int
    decreases list.len() - i,
{
    if i >= list.len() {
        list.len() as int
    } else if skips(stage, pv_move, tt_move, list[i]) {
        first_unskipped(list, i + 1, stage, pv_move, tt_move)
    } else {
        i
    }
}

/// The score by which a stage orders its moves: the noisy score for captures and promotions,
/// the quiet score for quiet moves, the evasion score when in check.
pub open spec fn stage_score(
    ordering: OrderingTables,
    pos: Position,
    ply: int,
    stage: Stage,
    m: Move,
) -> int {
    match mode_of(stage) {
        GenType::Quiets => ordering.quiet_spec(pos, ply, m),
        GenType::Evasions => ordering.evasion_spec(pos, ply, m),
        _ => OrderingTables::noisy_spec(pos, m),
    }
}

/// `list` holds exactly the generated moves of the stage's kind, each once, by non-increasing
/// score.
pub open spec fn filled(
    list: Seq<Move>,
    pos: Position,
    ordering: OrderingTables,
    ply: int,
    stage: Stage,
) -> bool {
    &&& forall|m: Move| #[trigger] list.contains(m) <==> gen_move(pos, mode_of(stage), m)
    &&& list.no_duplicates()
    &&& forall|a: int, b: int|
        0 <= a < b < list.len() ==> stage_score(ordering, pos, ply, stage, #[trigger] list[a])
            >= stage_score(ordering, pos, ply, stage, #[trigger] list[b])
}

/// The state of a move picker.
pub ghost struct PickerView {
    pub stage: Stage,
    pub pv_move: Move,
    pub tt_move: Move,
    pub moves: Seq<Move>,
    pub ply: int,
    pub idx: int,
}

/// The same picker at stage `stage` with list `moves` and index `idx`.
pub open spec fn with_state(v: PickerView, stage: Stage, moves: Seq<Move>, idx: int) -> PickerView {
    PickerView { stage, pv_move: v.pv_move, tt_move: v.tt_move, moves, ply: v.ply, idx }
}

/// What one call of `next` does, from picker `v0` to picker `v1`, giving `r`:
/// - the principal variation and hash stages give their move unless it is null (or, for the
///   hash move, equal to the principal variation move), and move on;
/// - a generating stage fills the list (see `filled`; equal scores may come in any order)
///   and goes on to the listing stage;
/// - a listing stage gives the next move of the list that it does not pass over (see
///   `skips`), and when there is none it moves on;
/// - `Done` gives nothing.
pub open spec fn next_rel(
    v0: PickerView,
    pos: Position,
    ordering: OrderingTables,
    v1: PickerView,
    r: Option<Move>,
) -> bool
    decreases v0.stage.rank(),
{
    let s1 = with_state(v0, v0.stage.after(), v0.moves, 0);
    match v0.stage {
        Stage::PVMove | Stage::PVEvasion => if v0.pv_move == Move::null_spec() {
            next_rel(s1, pos, ordering, v1, r)
        } else {
            r == Some(v0.pv_move) && v1 == s1
        },
        Stage::TTMove | Stage::TTEvasion | Stage::TTQSearch => if v0.tt_move == Move::null_spec()
            || v0.tt_move == v0.pv_move {
            next_rel(s1, pos, ordering, v1, r)
        } else {
            r == Some(v0.tt_move) && v1 == s1
        },
        Stage::GenNoisy | Stage::GenQuiets | Stage::GenEvasions | Stage::GenQSearch => exists|
            list: Seq<Move>,
        |
            #![trigger filled(list, pos, ordering, v0.ply, v0.stage)]
            filled(list, pos, ordering, v0.ply, v0.stage) && next_rel(
                with_state(v0, v0.stage.after(), list, v0.idx),
                pos,
                ordering,
                v1,
                r,
            ),
        Stage::Noisy | Stage::Quiets | Stage::Evasions | Stage::QSearch => {
            let j = first_unskipped(v0.moves, v0.idx, v0.stage, v0.pv_move, v0.tt_move);
            if j < v0.moves.len() {
                r == Some(v0.moves[j]) && v1 == with_state(v0, v0.stage, v0.moves, j + 1)
            } else {
                next_rel(s1, pos, ordering, v1, r)
            }
        },
        Stage::Done => r.is_none() && v1 == v0,
    }
}

/// What a picker gives over a run of calls of `next`: a picker whose listing stage holds its
/// generated moves (see `filled`) still does after a call; every move given is the principal
/// variation move, the hash move, or a generated move of the listing stage it is given from;
/// the picker keeps its two moves and its ply; it gives nothing only once done, and a done
/// picker stays as it is and gives nothing; no call moves a picker back to an earlier stage.
pub proof fn lemma_next_gives(v0: PickerView, pos: Position, ordering: OrderingTables, v1: PickerView, r: Option<Move>)
    requires
        next_rel(v0, pos, ordering, v1, r),
        picker_ok(v0),
        is_listing(v0.stage) ==> filled(v0.moves, pos, ordering, v0.ply, v0.stage),
    ensures
        is_listing(v1.stage) ==> filled(v1.moves, pos, ordering, v1.ply, v1.stage),
        v1.pv_move == v0.pv_move && v1.tt_move == v0.tt_move && v1.ply == v0.ply,
        r matches Some(m) ==> m == v0.pv_move || m == v0.tt_move || (is_listing(v1.stage) && gen_move(
            pos,
            mode_of(v1.stage),
            m,
        )),
        r is None ==> v1.stage == Stage::Done,
        v0.stage == Stage::Done ==> r is None && v1 == v0,
        picker_ok(v1),
        v1.stage.rank() <= v0.stage.rank(),
    decreases v0.stage.rank(),
{
    let s1 = with_state(v0, v0.stage.after(), v0.moves, 0);
    match v0.stage {
        Stage::PVMove | Stage::PVEvasion => {
            if v0.pv_move == Move::null_spec() {
                lemma_next_gives(s1, pos, ordering, v1, r);
            }
        },
        Stage::TTMove | Stage::TTEvasion | Stage::TTQSearch => {
            if v0.tt_move == Move::null_spec() || v0.tt_move == v0.pv_move {
                lemma_next_gives(s1, pos, ordering, v1, r);
            }
        },
        Stage::GenNoisy | Stage::GenQuiets | Stage::GenEvasions | Stage::GenQSearch => {
            let list = choose|list: Seq<Move>|
                #![trigger filled(list, pos, ordering, v0.ply, v0.stage)]
                filled(list, pos, ordering, v0.ply, v0.stage) && next_rel(
                    with_state(v0, v0.stage.after(), list, v0.idx),
                    pos,
                    ordering,
                    v1,
                    r,
                );
            let s2 = with_state(v0, v0.stage.after(), list, v0.idx);
            assert(filled(list, pos, ordering, s2.ply, s2.stage));
            lemma_next_gives(s2, pos, ordering, v1, r);
        },
        Stage::Noisy | Stage::Quiets | Stage::Evasions | Stage::QSearch => {
            let j = first_unskipped(v0.moves, v0.idx, v0.stage, v0.pv_move, v0.tt_move);
            if j < v0.moves.len() {
                lemma_first_unskipped_range(v0.moves, v0.idx, v0.stage, v0.pv_move, v0.tt_move);
                assert(v0.moves.contains(v0.moves[j]));
            } else {
                lemma_next_gives(s1, pos, ordering, v1, r);
            }
        },
        Stage::Done => {},
    }
}

/// `first_unskipped` from `i` on is at least `i` (when `i` is not negative).
proof fn lemma_first_unskipped_range(list: Seq<Move>, i: int, stage: Stage, pv_move: Move, tt_move: Move)
    requires
        0 <= i,
    ensures
        i <= first_unskipped(list, i, stage, pv_move, tt_move) || i > list.len(),
        first_unskipped(list, i, stage, pv_move, tt_move) >= 0,
    decreases list.len() - i,
{
    if i < list.len() && skips(stage, pv_move, tt_move, list[i]) {
        lemma_first_unskipped_range(list, i + 1, stage, pv_move, tt_move);
    }
}

/// Gives the moves of a node one at a time, best first: the principal variation move, the
/// hash move, then captures and promotions, then quiet moves (or the evasions when in check,
/// or only the captures and promotions in the quiescence search).
pub struct MovePicker {
    stage: Stage,
    pv_move: Move,
    tt_move: Move,
    moves: MoveList,
    ply: usize,
    idx: usize,
}

impl View for MovePicker {
    type V = PickerView;

    closed spec fn view(&self) -> PickerView {
        PickerView {
            stage: self.stage,
            pv_move: self.pv_move,
            tt_move: self.tt_move,
            moves: self.moves@,
            ply: self.ply as int,
            idx: self.idx as int,
        }
    }
}

/// The stage a picker starts in: the evasion stages when in check, the regular stages at a
/// positive depth, the quiescence stages otherwise; the principal variation and hash stages
/// are left out when their move is null.
pub open spec fn start_stage_spec(in_check: bool, pv_move: Move, tt_move: Move, depth: int) -> Stage {
    if in_check {
        if pv_move != Move::null_spec() {
            Stage::PVEvasion
        } else if tt_move != Move::null_spec() {
            Stage::TTEvasion
        } else {
            Stage::GenEvasions
        }
    } else if depth > 0 {
        if pv_move != Move::null_spec() {
            Stage::PVMove
        } else if tt_move != Move::null_spec() {
            Stage::TTMove
        } else {
            Stage::GenNoisy
        }
    } else if tt_move == Move::null_spec() {
        Stage::GenQSearch
    } else {
        Stage::TTQSearch
    }
}

impl MovePicker {
    fn start_stage(in_check: bool, pv_move: Move, tt_move: Move, depth: i32) -> (r: Stage)
        ensures
            r == start_stage_spec(in_check, pv_move, tt_move, depth as int),
    {
        if in_check {
            if !pv_move.is_null() {
                Stage::PVEvasion
            } else if !tt_move.is_null() {
                Stage::TTEvasion
            } else {
                Stage::GenEvasions
            }
        } else if depth > 0 {
            if !pv_move.is_null() {
                Stage::PVMove
            } else if !tt_move.is_null() {
                Stage::TTMove
            } else {
                Stage::GenNoisy
            }
        } else if tt_move.is_null() {
            Stage::GenQSearch
        } else {
            Stage::TTQSearch
        }
    }

    /// A picker for a node at `ply`, with an empty list; see `start_stage_spec`.
    pub fn new(in_check: bool, pv_move: Move, tt_move: Move, depth: i32, ply: usize) -> (r:
        MovePicker)
        ensures
            r@ == (PickerView {
                stage: start_stage_spec(in_check, pv_move, tt_move, depth as int),
                pv_move,
                tt_move,
                moves: Seq::empty(),
                ply: ply as int,
                idx: 0,
            }),
    {
        let start_stage = Self::start_stage(in_check, pv_move, tt_move, depth);
        MovePicker { stage: start_stage, pv_move, tt_move, moves: MoveList::new(), ply, idx: 0 }
    }

    /// The current stage.
    pub fn stage(&self) -> (r: Stage)
        ensures
            r == self@.stage,
    {
        self.stage
    }

    /// The index of the next move of the list to look at.
    pub fn idx(&self) -> (r: usize)
        ensures
            r == self@.idx,
    {
        self.idx
    }
}


/// Whether a stage fills the list.
pub open spec fn is_gen(stage: Stage) -> bool {
    stage == Stage::GenNoisy || stage == Stage::GenQuiets || stage == Stage::GenEvasions || stage
        == Stage::GenQSearch
}

/// Whether a stage hands out the moves of the list.
pub open spec fn is_listing(stage: Stage) -> bool {
    stage == Stage::Noisy || stage == Stage::Quiets || stage == Stage::Evasions || stage
        == Stage::QSearch
}

/// The picker's index stays within its list, and is at the start when a stage fills it.
pub open spec fn picker_ok(v: PickerView) -> bool {
    &&& 0 <= v.idx <= v.moves.len()
    &&& is_gen(v.stage) ==> v.idx == 0
}

impl MovePicker {
    /// Sorts the list of a listing stage by non-increasing stage score.
    fn order_list(&mut self, pos: &Position, ordering: &OrderingTables)
        requires
            is_listing(old(self)@.stage),
            ordering.wf(),
            old(self)@.ply < MAX_PLY,
            pos.board_ok(),
            pos.kings_ok(),
            gen_ok(*pos, mode_of(old(self)@.stage)),
            forall|m: Move| #[trigger]
                old(self)@.moves.contains(m) ==> gen_move(*pos, mode_of(old(self)@.stage), m),
        ensures
            final(self)@ == with_state(old(self)@, old(self)@.stage, final(self)@.moves, old(self)@.idx),
            final(self)@.moves.to_multiset() == old(self)@.moves.to_multiset(),
            forall|a: int, b: int|
                0 <= a < b < final(self)@.moves.len() ==> stage_score(
                    *ordering,
                    *pos,
                    old(self)@.ply,
                    old(self)@.stage,
                    #[trigger] final(self)@.moves[a],
                ) >= stage_score(
                    *ordering,
                    *pos,
                    old(self)@.ply,
                    old(self)@.stage,
                    #[trigger] final(self)@.moves[b],
                ),
    {
        let ghost v = self@;
        let mut list = self.moves.to_vec();
        let n = list.len();
        assert(list@ == v.moves);
        let mut scores: Vec<i32> = Vec::new();
        let ghost f = |m: Move| stage_score(*ordering, *pos, self.ply as int, self.stage, m);
        let mut i: usize = 0;
        while i < n
            invariant
                i <= n,
                n == list@.len(),
                list@ == v.moves,
                v == self@,
                is_listing(self.stage),
                ordering.wf(),
                self.ply < MAX_PLY,
                pos.board_ok(),
                pos.kings_ok(),
                gen_ok(*pos, mode_of(self.stage)),
                forall|m: Move| #[trigger] v.moves.contains(m) ==> gen_move(*pos, mode_of(v.stage), m),
                f == (|m: Move| stage_score(*ordering, *pos, self.ply as int, self.stage, m)),
                scores@.len() == i,
                forall|k: int| 0 <= k < i ==> #[trigger] scores@[k] == f(list@[k]),
            decreases n - i,
        {
            let mv = list[i];
            proof {
                assert(v.moves.contains(mv)) by {
                    assert(v.moves[i as int] == mv);
                }
                lemma_gen_from_own(*pos, mode_of(self.stage), mv);
                assert(scorable(*pos, mv));
            }
            let s = match self.stage {
                Stage::Quiets => ordering.score_quiet(pos, mv, self.ply),
                Stage::Evasions => ordering.score_evasion(pos, mv, self.ply),
                _ => ordering.score_noisy(pos, mv),
            };
            scores.push(s);
            assert(scores@[i as int] == f(list@[i as int]));
            i = i + 1;
        }
        sort_desc(&mut list, &mut scores, Ghost(f));
        self.moves.replace(list);
    }

    /// Gives the next move, or `None` once every stage is done; see `next_rel`.
    pub fn next(&mut self, pos: &Position, ordering: &OrderingTables, bbs: &Bitboards) -> (r:
        Option<Move>)
        requires
            bbs.wf(),
            ordering.wf(),
            pos.board_ok(),
            pos.kings_ok(),
            stage_ok(*pos, old(self)@.stage),
            old(self)@.ply < MAX_PLY,
            picker_ok(old(self)@),
        ensures
            next_rel(old(self)@, *pos, *ordering, final(self)@, r),
            picker_ok(final(self)@),
            final(self)@.ply == old(self)@.ply,
        decreases old(self)@.stage.rank(),
    {
        let ghost v0 = self@;
        let stage = self.stage;
        match stage {
            Stage::PVMove | Stage::PVEvasion => {
                self.stage.next();
                self.idx = 0;
                if self.pv_move.is_null() {
                    return self.next(pos, ordering, bbs);
                }
                assert(self@ == with_state(v0, v0.stage.after(), v0.moves, 0));
                assert(v0.pv_move != Move::null_spec());
                assert(v0.stage == Stage::PVMove || v0.stage == Stage::PVEvasion);
                Some(self.pv_move)
            },
            Stage::TTMove | Stage::TTEvasion | Stage::TTQSearch => {
                self.stage.next();
                self.idx = 0;
                if self.tt_move.is_null() || self.tt_move == self.pv_move {
                    return self.next(pos, ordering, bbs);
                }
                Some(self.tt_move)
            },
            Stage::GenNoisy | Stage::GenQuiets | Stage::GenEvasions | Stage::GenQSearch => {
                self.stage.next();
                let listing = self.stage;
                match listing {
                    Stage::Quiets => generate_quiets(pos, bbs, &mut self.moves),
                    Stage::Evasions => generate_evasions(pos, bbs, &mut self.moves),
                    _ => generate_noisy(pos, bbs, &mut self.moves),
                }
                let ghost generated = self.moves@;
                self.order_list(pos, ordering);
                let ghost mid = self@;
                proof {
                    broadcast use vstd::seq_lib::group_to_multiset_ensures;

                    assert forall|m: Move| #[trigger] mid.moves.contains(m) <==> gen_move(
                        *pos,
                        mode_of(v0.stage),
                        m,
                    ) by {
                        vstd::seq_lib::to_multiset_contains(mid.moves, m);
                        vstd::seq_lib::to_multiset_contains(generated, m);
                    }
                    generated.lemma_multiset_has_no_duplicates();
                    mid.moves.lemma_multiset_has_no_duplicates_conv();
                    assert(filled(mid.moves, *pos, *ordering, v0.ply, v0.stage));
                }
                let r = self.next(pos, ordering, bbs);
                proof {
                    assert(mid == with_state(v0, v0.stage.after(), mid.moves, v0.idx));
                    assert(filled(mid.moves, *pos, *ordering, v0.ply, v0.stage));
                }
                r
            },
            Stage::Noisy | Stage::Quiets | Stage::Evasions | Stage::QSearch => {
                while self.idx < self.moves.len()
                    invariant
                        v0 == old(self)@,
                        v0.idx <= self.idx <= self.moves@.len(),
                        self@ == with_state(v0, v0.stage, v0.moves, self.idx as int),
                        is_listing(v0.stage),
                        first_unskipped(v0.moves, v0.idx, v0.stage, v0.pv_move, v0.tt_move)
                            == first_unskipped(
                            v0.moves,
                            self.idx as int,
                            v0.stage,
                            v0.pv_move,
                            v0.tt_move,
                        ),
                    decreases self.moves@.len() - self.idx,
                {
                    let ghost k = self.idx as int;
                    let mv = self.moves.get(self.idx);
                    self.idx = self.idx + 1;
                    let skip = if self.stage == Stage::QSearch {
                        mv == self.tt_move
                    } else {
                        mv == self.tt_move || mv == self.pv_move
                    };
                    assert(skip == skips(v0.stage, v0.pv_move, v0.tt_move, v0.moves[k]));
                    if skip {
                        continue;
                    }
                    assert(first_unskipped(v0.moves, k, v0.stage, v0.pv_move, v0.tt_move) == k);
                    assert(self@ == with_state(v0, v0.stage, v0.moves, k + 1));
                    return Some(mv);
                }
                proof {
                    assert(first_unskipped(v0.moves, self.idx as int, v0.stage, v0.pv_move, v0.tt_move)
                        == v0.moves.len());
                }
                self.stage.next();
                self.idx = 0;
                assert(self@ == with_state(v0, v0.stage.after(), v0.moves, 0));
                self.next(pos, ordering, bbs)
            },
            Stage::Done => None,
        }
    }
}

} // verus!
