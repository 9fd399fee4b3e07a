//! Static evaluation: scores, the mate value, the lazy piece-square evaluation, and (in
//! `terms`) the full evaluation.
use vstd::prelude::*;

pub mod terms;

pub use terms::evaluate_with;

use vstd::std_specs::bits::u64_trailing_zeros;

use crate::bitboard::{popcount, Bitboard};
use crate::params::helpers::trunc_div;
use crate::params::types::LazyParams;
use crate::position::{lemma_clear_lowest_lt, Position};
use crate::types::{file_of, rank_of, Colour, Piece, Square};

verus! {

/// A score in centipawns, from the side to move's point of view.
pub type Eval = i32;

/// The mate value: no evaluation reaches it.
pub const INFINITY: Eval = 32001;

/// The marker for "no evaluation stored".
pub const NO_EVAL: i16 = -32768;

/// A pair of scores: one for the middlegame, one for the endgame.
#[derive(Copy, Clone, Debug, PartialEq, Eq, Structural)]
pub struct Score {
    pub mg: Eval,
    pub eg: Eval,
}

impl Score {
    /// The score `(mg, eg)`.
    pub fn new(mg: Eval, eg: Eval) -> (r: Score)
        ensures
            r.mg == mg,
            r.eg == eg,
    {
        Score { mg, eg }
    }

    /// The zero score.
    pub fn zero() -> (r: Score)
        ensures
            r.mg == 0,
            r.eg == 0,
    {
        Score { mg: 0, eg: 0 }
    }
}


/// The index of counts over both sides in the material tallies (white is 0, black 1).
pub const BOTH: usize = 2;

/// The material left on the board: for each kind of piece, the count of white's, black's, and
/// both sides' together.
#[derive(Copy, Clone, Debug)]
pub struct EvalInfo {
    pub pawns_remaining: [u16; 3],
    pub knights_remaining: [u16; 3],
    pub bishops_remaining: [u16; 3],
    pub rooks_remaining: [u16; 3],
    pub queens_remaining: [u16; 3],
}

/// The tally `t` of one kind of piece is that of the bitboards `w` and `b`.
pub open spec fn tally_of(t: [u16; 3], w: u64, b: u64) -> bool {
    &&& t@[0] == popcount(w)
    &&& t@[1] == popcount(b)
    &&& t@[2] == popcount(w) + popcount(b)
}

impl EvalInfo {
    /// The tallies are those of the position's pieces.
    pub open spec fn matches(self, pos: Position) -> bool {
        &&& tally_of(
            self.pawns_remaining,
            pos.piece_bb(Colour::White, Piece::Pawn),
            pos.piece_bb(Colour::Black, Piece::Pawn),
        )
        &&& tally_of(
            self.knights_remaining,
            pos.piece_bb(Colour::White, Piece::Knight),
            pos.piece_bb(Colour::Black, Piece::Knight),
        )
        &&& tally_of(
            self.bishops_remaining,
            pos.piece_bb(Colour::White, Piece::Bishop),
            pos.piece_bb(Colour::Black, Piece::Bishop),
        )
        &&& tally_of(
            self.rooks_remaining,
            pos.piece_bb(Colour::White, Piece::Rook),
            pos.piece_bb(Colour::Black, Piece::Rook),
        )
        &&& tally_of(
            self.queens_remaining,
            pos.piece_bb(Colour::White, Piece::Queen),
            pos.piece_bb(Colour::Black, Piece::Queen),
        )
    }

    /// Each tally is at most 64 per side, and the third is the sum of the first two.
    pub open spec fn wf(self) -> bool {
        &&& forall|i: int| 0 <= i < 2 ==> #[trigger] self.pawns_remaining@[i] <= 64
        &&& forall|i: int| 0 <= i < 2 ==> #[trigger] self.knights_remaining@[i] <= 64
        &&& forall|i: int| 0 <= i < 2 ==> #[trigger] self.bishops_remaining@[i] <= 64
        &&& forall|i: int| 0 <= i < 2 ==> #[trigger] self.rooks_remaining@[i] <= 64
        &&& forall|i: int| 0 <= i < 2 ==> #[trigger] self.queens_remaining@[i] <= 64
        &&& self.pawns_remaining@[2] == self.pawns_remaining@[0] + self.pawns_remaining@[1]
        &&& self.knights_remaining@[2] == self.knights_remaining@[0] + self.knights_remaining@[1]
        &&& self.bishops_remaining@[2] == self.bishops_remaining@[0] + self.bishops_remaining@[1]
        &&& self.rooks_remaining@[2] == self.rooks_remaining@[0] + self.rooks_remaining@[1]
        &&& self.queens_remaining@[2] == self.queens_remaining@[0] + self.queens_remaining@[1]
    }

    pub open spec fn pawns_spec(self, s: int) -> int {
        self.pawns_remaining@[s] as int
    }

    pub open spec fn knights_spec(self, s: int) -> int {
        self.knights_remaining@[s] as int
    }

    pub open spec fn bishops_spec(self, s: int) -> int {
        self.bishops_remaining@[s] as int
    }

    pub open spec fn rooks_spec(self, s: int) -> int {
        self.rooks_remaining@[s] as int
    }

    pub open spec fn queens_spec(self, s: int) -> int {
        self.queens_remaining@[s] as int
    }

    pub open spec fn minors_spec(self, s: int) -> int {
        self.knights_spec(s) + self.bishops_spec(s)
    }

    pub open spec fn majors_spec(self, s: int) -> int {
        self.rooks_spec(s) + self.queens_spec(s)
    }

    pub open spec fn non_king_spec(self, s: int) -> int {
        self.pawns_spec(s) + self.minors_spec(s) + self.majors_spec(s)
    }

    /// The pawns of side `s` (0 white, 1 black, `BOTH` both).
    pub fn pawns(&self, s: usize) -> (r: u16)
        requires
            s < 3,
        ensures
            r == self.pawns_spec(s as int),
    {
        self.pawns_remaining[s]
    }

    pub fn knights(&self, s: usize) -> (r: u16)
        requires
            s < 3,
        ensures
            r == self.knights_spec(s as int),
    {
        self.knights_remaining[s]
    }

    pub fn bishops(&self, s: usize) -> (r: u16)
        requires
            s < 3,
        ensures
            r == self.bishops_spec(s as int),
    {
        self.bishops_remaining[s]
    }

    pub fn rooks(&self, s: usize) -> (r: u16)
        requires
            s < 3,
        ensures
            r == self.rooks_spec(s as int),
    {
        self.rooks_remaining[s]
    }

    pub fn queens(&self, s: usize) -> (r: u16)
        requires
            s < 3,
        ensures
            r == self.queens_spec(s as int),
    {
        self.queens_remaining[s]
    }

    /// Knights and bishops.
    pub fn minors(&self, s: usize) -> (r: u16)
        requires
            s < 3,
            self.wf(),
        ensures
            r == self.minors_spec(s as int),
    {
        self.knights_remaining[s] + self.bishops_remaining[s]
    }

    /// Rooks and queens.
    pub fn majors(&self, s: usize) -> (r: u16)
        requires
            s < 3,
            self.wf(),
        ensures
            r == self.majors_spec(s as int),
    {
        self.rooks_remaining[s] + self.queens_remaining[s]
    }

    /// Every piece but the king.
    pub fn non_king(&self, s: usize) -> (r: u16)
        requires
            s < 3,
            self.wf(),
        ensures
            r == self.non_king_spec(s as int),
    {
        self.pawns(s) + self.minors(s) + self.majors(s)
    }
}


/// The game phase: pawns count 0, knights and bishops 1, rooks 2, queens 4 (24 at the start).
pub open spec fn phase_spec(pos: Position) -> int {
    (popcount(pos.piece_bb(Colour::White, Piece::Knight) | pos.piece_bb(Colour::Black, Piece::Knight))
        + popcount(pos.piece_bb(Colour::White, Piece::Bishop) | pos.piece_bb(Colour::Black, Piece::Bishop))
        + 2 * popcount(pos.piece_bb(Colour::White, Piece::Rook) | pos.piece_bb(Colour::Black, Piece::Rook))
        + 4 * popcount(pos.piece_bb(Colour::White, Piece::Queen) | pos.piece_bb(Colour::Black, Piece::Queen))) as int
}

/// The game phase of `pos`; see `phase_spec`.
pub fn game_phase(pos: &Position) -> (r: i32)
    ensures
        r == phase_spec(*pos),
        0 <= r <= 512,
{
    let wi = Colour::White.idx();
    let bi = Colour::Black.idx();
    let knights = (pos.pieces[wi][Piece::Knight.idx()] | pos.pieces[bi][Piece::Knight.idx()]).bit_count();
    let bishops = (pos.pieces[wi][Piece::Bishop.idx()] | pos.pieces[bi][Piece::Bishop.idx()]).bit_count();
    let rooks = (pos.pieces[wi][Piece::Rook.idx()] | pos.pieces[bi][Piece::Rook.idx()]).bit_count();
    let queens = (pos.pieces[wi][Piece::Queen.idx()] | pos.pieces[bi][Piece::Queen.idx()]).bit_count();
    (knights + bishops + 2 * rooks + 4 * queens) as i32
}

/// The blend of middlegame and endgame scores by phase (capped at 24), from the side to
/// move's point of view: `(p * mg + (24 - p) * eg) / 24`, rounded toward zero, negated for
/// black.
pub open spec fn taper_spec(mg: int, eg: int, phase: int, us: Colour) -> int {
    let p = if phase < 24 {
        phase
    } else {
        24
    };
    let t = trunc_div(p * mg + (24 - p) * eg, 24);
    if us == Colour::White {
        t
    } else {
        -t
    }
}

/// Blends a score by phase; see `taper_spec`.
pub fn taper(score: Score, phase: i32, us: Colour) -> (r: Eval)
    requires
        0 <= phase,
        -40_000_000 <= score.mg <= 40_000_000,
        -40_000_000 <= score.eg <= 40_000_000,
    ensures
        r == taper_spec(score.mg as int, score.eg as int, phase as int, us),
{
    let mg_phase = if phase < 24 {
        phase
    } else {
        24
    };
    let eg_phase = 24 - mg_phase;
    proof {
        assert(-960_000_000 <= mg_phase * score.mg <= 960_000_000) by (nonlinear_arith)
            requires
                0 <= mg_phase <= 24,
                -40_000_000 <= score.mg <= 40_000_000,
        ;
        assert(-960_000_000 <= eg_phase * score.eg <= 960_000_000) by (nonlinear_arith)
            requires
                0 <= eg_phase <= 24,
                -40_000_000 <= score.eg <= 40_000_000,
        ;
    }
    let total = mg_phase * score.mg + eg_phase * score.eg;
    let t = if total >= 0 {
        total / 24
    } else {
        -((-total) / 24)
    };
    if us == Colour::White {
        t
    } else {
        -t
    }
}

/// Square `sq` as seen by `c` in a piece-square table laid out from the eighth rank down:
/// white's squares are read upside down.
pub open spec fn relative_sq(c: Colour, sq: int) -> int {
    if c == Colour::White {
        (7 - rank_of(sq)) * 8 + file_of(sq)
    } else {
        sq
    }
}

/// The table entries of the squares of `bb`, summed (middlegame, endgame).
pub open spec fn pst_total(bb: u64, pst: Seq<Score>, c: Colour) -> (int, int)
    decreases bb,
{
    if bb == 0 {
        (0, 0)
    } else {
        proof {
            lemma_clear_lowest_lt(bb);
        }
        let sq = u64_trailing_zeros(bb) as int;
        let rest = pst_total(bb & ((bb - 1) as u64), pst, c);
        let e = pst[relative_sq(c, sq)];
        (rest.0 + e.mg, rest.1 + e.eg)
    }
}

/// The material and table terms of the pieces `bb` of side `c`, from white's point of view.
pub open spec fn piece_terms(bb: u64, value: Option<Score>, pst: Seq<Score>, c: Colour) -> (int, int) {
    let n = popcount(bb);
    let v = match value {
        Some(v) => (v.mg * n, v.eg * n),
        None => (0int, 0int),
    };
    let t = pst_total(bb, pst, c);
    if c == Colour::White {
        (v.0 + t.0, v.1 + t.1)
    } else {
        (-(v.0 + t.0), -(v.1 + t.1))
    }
}

/// Every weight of the lazy parameters lies between -10000 and 10000.
pub open spec fn lazy_bounded(p: LazyParams) -> bool {
    &&& score_bounded(p.pawn_value)
    &&& score_bounded(p.knight_value)
    &&& score_bounded(p.bishop_value)
    &&& score_bounded(p.rook_value)
    &&& score_bounded(p.queen_value)
    &&& table_bounded(p.pawn_pst@)
    &&& table_bounded(p.knight_pst@)
    &&& table_bounded(p.bishop_pst@)
    &&& table_bounded(p.rook_pst@)
    &&& table_bounded(p.queen_pst@)
    &&& table_bounded(p.king_pst@)
}

pub open spec fn score_bounded(s: Score) -> bool {
    -10_000 <= s.mg <= 10_000 && -10_000 <= s.eg <= 10_000
}

pub open spec fn table_bounded(t: Seq<Score>) -> bool {
    t.len() == 64 && forall|i: int| 0 <= i < 64 ==> #[trigger] score_bounded(t[i])
}

/// A table total over `n` squares is at most `10000 n` either way.
proof fn lemma_pst_total_bound(bb: u64, pst: Seq<Score>, c: Colour)
    requires
        table_bounded(pst),
    ensures
        -10_000 * popcount(bb) <= pst_total(bb, pst, c).0 <= 10_000 * popcount(bb),
        -10_000 * popcount(bb) <= pst_total(bb, pst, c).1 <= 10_000 * popcount(bb),
    decreases bb,
{
    if bb != 0 {
        lemma_clear_lowest_lt(bb);
        lemma_pst_total_bound(bb & ((bb - 1) as u64), pst, c);
        crate::bitboard::lemma_popcount_clear_lowest(bb);
        vstd::std_specs::bits::axiom_u64_trailing_zeros(bb);
        let sq = u64_trailing_zeros(bb) as int;
        assert(0 <= relative_sq(c, sq) < 64);
        assert(score_bounded(pst[relative_sq(c, sq)]));
    }
}

/// Adds the material and table terms of the pieces `bb` of side `c` to `score` (from
/// white's point of view); see `piece_terms`.
fn lazy_piece_terms(bb: Bitboard, c: Colour, value: Option<Score>, pst: &[Score; 64], score: &mut Score)
    requires
        table_bounded(pst@),
        value matches Some(v) ==> score_bounded(v),
        -20_000_000 <= old(score).mg <= 20_000_000,
        -20_000_000 <= old(score).eg <= 20_000_000,
    ensures
        final(score).mg == old(score).mg + piece_terms(bb.0, value, pst@, c).0,
        final(score).eg == old(score).eg + piece_terms(bb.0, value, pst@, c).1,
        -1_280_000 <= piece_terms(bb.0, value, pst@, c).0 <= 1_280_000,
        -1_280_000 <= piece_terms(bb.0, value, pst@, c).1 <= 1_280_000,
{
    let ghost start = *score;
    let count = bb.bit_count() as i32;
    proof {
        lemma_pst_total_bound(bb.0, pst@, c);
    }
    if let Some(v) = value {
        proof {
            assert(-640_000 <= v.mg * count <= 640_000) by (nonlinear_arith)
                requires
                    -10_000 <= v.mg <= 10_000,
                    0 <= count <= 64,
            ;
            assert(-640_000 <= v.eg * count <= 640_000) by (nonlinear_arith)
                requires
                    -10_000 <= v.eg <= 10_000,
                    0 <= count <= 64,
            ;
        }
        if c == Colour::White {
            score.mg = score.mg + v.mg * count;
            score.eg = score.eg + v.eg * count;
        } else {
            score.mg = score.mg - v.mg * count;
            score.eg = score.eg - v.eg * count;
        }
    }
    let ghost after_value = *score;
    let mut rest = bb;
    while !rest.is_empty()
        invariant
            table_bounded(pst@),
            c == Colour::White ==> score.mg == after_value.mg + (pst_total(bb.0, pst@, c).0
                - pst_total(rest.0, pst@, c).0),
            c == Colour::White ==> score.eg == after_value.eg + (pst_total(bb.0, pst@, c).1
                - pst_total(rest.0, pst@, c).1),
            c == Colour::Black ==> score.mg == after_value.mg - (pst_total(bb.0, pst@, c).0
                - pst_total(rest.0, pst@, c).0),
            c == Colour::Black ==> score.eg == after_value.eg - (pst_total(bb.0, pst@, c).1
                - pst_total(rest.0, pst@, c).1),
            -640_000 <= pst_total(rest.0, pst@, c).0 <= 640_000,
            -640_000 <= pst_total(rest.0, pst@, c).1 <= 640_000,
            -640_000 <= pst_total(bb.0, pst@, c).0 <= 640_000,
            -640_000 <= pst_total(bb.0, pst@, c).1 <= 640_000,
            -20_640_000 <= after_value.mg <= 20_640_000,
            -20_640_000 <= after_value.eg <= 20_640_000,
        decreases rest.0,
    {
        let ghost old_rest = rest.0;
        let sq = rest.pop_lsb();
        proof {
            lemma_pst_total_bound(rest.0, pst@, c);
            crate::bitboard::lemma_popcount_bound(rest.0);
        }
        let rel = if c == Colour::White {
            (7 - sq.rank()) as usize * 8 + sq.file() as usize
        } else {
            sq.idx()
        };
        let e = pst[rel];
        proof {
            assert(pst_total(old_rest, pst@, c).0 == pst_total(rest.0, pst@, c).0 + e.mg);
            assert(pst_total(old_rest, pst@, c).1 == pst_total(rest.0, pst@, c).1 + e.eg);
        }
        if c == Colour::White {
            score.mg = score.mg + e.mg;
            score.eg = score.eg + e.eg;
        } else {
            score.mg = score.mg - e.mg;
            score.eg = score.eg - e.eg;
        }
    }
    proof {
        let n = popcount(bb.0);
        let t = pst_total(bb.0, pst@, c);
        let vv = match value {
            Some(v) => (v.mg * n, v.eg * n),
            None => (0int, 0int),
        };
        assert(rest.0 == 0);
        assert(pst_total(rest.0, pst@, c) == (0int, 0int));
        if let Some(v) = value {
            assert(-640_000 <= v.mg * n <= 640_000) by (nonlinear_arith)
                requires
                    -10_000 <= v.mg <= 10_000,
                    0 <= n <= 64,
            ;
            assert(-640_000 <= v.eg * n <= 640_000) by (nonlinear_arith)
                requires
                    -10_000 <= v.eg <= 10_000,
                    0 <= n <= 64,
            ;
        }
        if c == Colour::White {
            assert(piece_terms(bb.0, value, pst@, c) == (vv.0 + t.0, vv.1 + t.1));
        } else {
            assert(piece_terms(bb.0, value, pst@, c) == (-(vv.0 + t.0), -(vv.1 + t.1)));
        }
    }
}


/// The lazy score of `pos` from white's point of view: material and table terms of every
/// piece, white's added and black's subtracted (middlegame, endgame).
pub open spec fn lazy_score(pos: Position, p: LazyParams) -> (int, int) {
    (
        piece_terms(pos.piece_bb(Colour::White, Piece::Pawn), Some(p.pawn_value), p.pawn_pst@, Colour::White).0 + piece_terms(pos.piece_bb(Colour::Black, Piece::Pawn), Some(p.pawn_value), p.pawn_pst@, Colour::Black).0 + piece_terms(pos.piece_bb(Colour::White, Piece::Knight), Some(p.knight_value), p.knight_pst@, Colour::White).0 + piece_terms(pos.piece_bb(Colour::Black, Piece::Knight), Some(p.knight_value), p.knight_pst@, Colour::Black).0 + piece_terms(pos.piece_bb(Colour::White, Piece::Bishop), Some(p.bishop_value), p.bishop_pst@, Colour::White).0 + piece_terms(pos.piece_bb(Colour::Black, Piece::Bishop), Some(p.bishop_value), p.bishop_pst@, Colour::Black).0 + piece_terms(pos.piece_bb(Colour::White, Piece::Rook), Some(p.rook_value), p.rook_pst@, Colour::White).0 + piece_terms(pos.piece_bb(Colour::Black, Piece::Rook), Some(p.rook_value), p.rook_pst@, Colour::Black).0 + piece_terms(pos.piece_bb(Colour::White, Piece::Queen), Some(p.queen_value), p.queen_pst@, Colour::White).0 + piece_terms(pos.piece_bb(Colour::Black, Piece::Queen), Some(p.queen_value), p.queen_pst@, Colour::Black).0 + piece_terms(pos.piece_bb(Colour::White, Piece::King), None, p.king_pst@, Colour::White).0 + piece_terms(pos.piece_bb(Colour::Black, Piece::King), None, p.king_pst@, Colour::Black).0,
        piece_terms(pos.piece_bb(Colour::White, Piece::Pawn), Some(p.pawn_value), p.pawn_pst@, Colour::White).1 + piece_terms(pos.piece_bb(Colour::Black, Piece::Pawn), Some(p.pawn_value), p.pawn_pst@, Colour::Black).1 + piece_terms(pos.piece_bb(Colour::White, Piece::Knight), Some(p.knight_value), p.knight_pst@, Colour::White).1 + piece_terms(pos.piece_bb(Colour::Black, Piece::Knight), Some(p.knight_value), p.knight_pst@, Colour::Black).1 + piece_terms(pos.piece_bb(Colour::White, Piece::Bishop), Some(p.bishop_value), p.bishop_pst@, Colour::White).1 + piece_terms(pos.piece_bb(Colour::Black, Piece::Bishop), Some(p.bishop_value), p.bishop_pst@, Colour::Black).1 + piece_terms(pos.piece_bb(Colour::White, Piece::Rook), Some(p.rook_value), p.rook_pst@, Colour::White).1 + piece_terms(pos.piece_bb(Colour::Black, Piece::Rook), Some(p.rook_value), p.rook_pst@, Colour::Black).1 + piece_terms(pos.piece_bb(Colour::White, Piece::Queen), Some(p.queen_value), p.queen_pst@, Colour::White).1 + piece_terms(pos.piece_bb(Colour::Black, Piece::Queen), Some(p.queen_value), p.queen_pst@, Colour::Black).1 + piece_terms(pos.piece_bb(Colour::White, Piece::King), None, p.king_pst@, Colour::White).1 + piece_terms(pos.piece_bb(Colour::Black, Piece::King), None, p.king_pst@, Colour::Black).1,
    )
}

/// The lazy evaluation: material and piece-square tables only, blended by phase, from the
/// side to move's point of view.
pub open spec fn lazy_eval_spec(pos: Position, p: LazyParams) -> int {
    taper_spec(lazy_score(pos, p).0, lazy_score(pos, p).1, phase_spec(pos), pos.side_to_move)
}

/// Evaluates `pos` by material and piece-square tables only; see `lazy_eval_spec`.
pub fn lazy_evaluate_with(pos: &Position, params: &LazyParams) -> (r: Eval)
    requires
        lazy_bounded(*params),
    ensures
        r == lazy_eval_spec(*pos, *params),
{
    let mut score = Score { mg: 0, eg: 0 };
    let phase = game_phase(pos);
    lazy_piece_terms(pos.pieces[Colour::White.idx()][Piece::Pawn.idx()], Colour::White, Some(params.pawn_value), &params.pawn_pst, &mut score);
    lazy_piece_terms(pos.pieces[Colour::Black.idx()][Piece::Pawn.idx()], Colour::Black, Some(params.pawn_value), &params.pawn_pst, &mut score);
    lazy_piece_terms(pos.pieces[Colour::White.idx()][Piece::Knight.idx()], Colour::White, Some(params.knight_value), &params.knight_pst, &mut score);
    lazy_piece_terms(pos.pieces[Colour::Black.idx()][Piece::Knight.idx()], Colour::Black, Some(params.knight_value), &params.knight_pst, &mut score);
    lazy_piece_terms(pos.pieces[Colour::White.idx()][Piece::Bishop.idx()], Colour::White, Some(params.bishop_value), &params.bishop_pst, &mut score);
    lazy_piece_terms(pos.pieces[Colour::Black.idx()][Piece::Bishop.idx()], Colour::Black, Some(params.bishop_value), &params.bishop_pst, &mut score);
    lazy_piece_terms(pos.pieces[Colour::White.idx()][Piece::Rook.idx()], Colour::White, Some(params.rook_value), &params.rook_pst, &mut score);
    lazy_piece_terms(pos.pieces[Colour::Black.idx()][Piece::Rook.idx()], Colour::Black, Some(params.rook_value), &params.rook_pst, &mut score);
    lazy_piece_terms(pos.pieces[Colour::White.idx()][Piece::Queen.idx()], Colour::White, Some(params.queen_value), &params.queen_pst, &mut score);
    lazy_piece_terms(pos.pieces[Colour::Black.idx()][Piece::Queen.idx()], Colour::Black, Some(params.queen_value), &params.queen_pst, &mut score);
    lazy_piece_terms(pos.pieces[Colour::White.idx()][Piece::King.idx()], Colour::White, None, &params.king_pst, &mut score);
    lazy_piece_terms(pos.pieces[Colour::Black.idx()][Piece::King.idx()], Colour::Black, None, &params.king_pst, &mut score);
    taper(score, phase, pos.side_to_move)
}

/// The tuned weights of the lazy evaluation.
pub open spec fn default_lazy_params_spec() -> LazyParams {
    LazyParams {
        pawn_value: Score { mg: 82i32, eg: 94i32 },
        knight_value: Score { mg: 337i32, eg: 281i32 },
        bishop_value: Score { mg: 365i32, eg: 297i32 },
        rook_value: Score { mg: 477i32, eg: 512i32 },
        queen_value: Score { mg: 1025i32, eg: 936i32 },
        pawn_pst: [
            Score { mg: 0i32, eg: 0i32 }, Score { mg: 0i32, eg: 0i32 }, Score { mg: 0i32, eg: 0i32 }, Score { mg: 0i32, eg: 0i32 },
            Score { mg: 0i32, eg: 0i32 }, Score { mg: 0i32, eg: 0i32 }, Score { mg: 0i32, eg: 0i32 }, Score { mg: 0i32, eg: 0i32 },
            Score { mg: 98i32, eg: 178i32 }, Score { mg: 134i32, eg: 173i32 }, Score { mg: 61i32, eg: 158i32 }, Score { mg: 95i32, eg: 134i32 },
            Score { mg: 68i32, eg: 147i32 }, Score { mg: 126i32, eg: 132i32 }, Score { mg: 34i32, eg: 165i32 }, Score { mg: -11i32, eg: 187i32 },
            Score { mg: -6i32, eg: 94i32 }, Score { mg: 7i32, eg: 100i32 }, Score { mg: 26i32, eg: 85i32 }, Score { mg: 31i32, eg: 67i32 },
            Score { mg: 65i32, eg: 56i32 }, Score { mg: 56i32, eg: 53i32 }, Score { mg: 25i32, eg: 82i32 }, Score { mg: -20i32, eg: 84i32 },
            Score { mg: -14i32, eg: 32i32 }, Score { mg: 13i32, eg: 24i32 }, Score { mg: 6i32, eg: 13i32 }, Score { mg: 21i32, eg: 5i32 },
            Score { mg: 23i32, eg: -2i32 }, Score { mg: 12i32, eg: 4i32 }, Score { mg: 17i32, eg: 17i32 }, Score { mg: -23i32, eg: 17i32 },
            Score { mg: -27i32, eg: 13i32 }, Score { mg: -2i32, eg: 9i32 }, Score { mg: -5i32, eg: -3i32 }, Score { mg: 12i32, eg: -7i32 },
            Score { mg: 17i32, eg: -7i32 }, Score { mg: 6i32, eg: -8i32 }, Score { mg: 10i32, eg: 3i32 }, Score { mg: -25i32, eg: -1i32 },
            Score { mg: -26i32, eg: 4i32 }, Score { mg: -4i32, eg: 7i32 }, Score { mg: -4i32, eg: -6i32 }, Score { mg: -10i32, eg: 1i32 },
            Score { mg: 3i32, eg: 0i32 }, Score { mg: 3i32, eg: -5i32 }, Score { mg: 33i32, eg: -1i32 }, Score { mg: -12i32, eg: -8i32 },
            Score { mg: -35i32, eg: 13i32 }, Score { mg: -1i32, eg: 8i32 }, Score { mg: -20i32, eg: 8i32 }, Score { mg: -23i32, eg: 10i32 },
            Score { mg: -15i32, eg: 13i32 }, Score { mg: 24i32, eg: 0i32 }, Score { mg: 38i32, eg: 2i32 }, Score { mg: -22i32, eg: -7i32 },
            Score { mg: 0i32, eg: 0i32 }, Score { mg: 0i32, eg: 0i32 }, Score { mg: 0i32, eg: 0i32 }, Score { mg: 0i32, eg: 0i32 },
            Score { mg: 0i32, eg: 0i32 }, Score { mg: 0i32, eg: 0i32 }, Score { mg: 0i32, eg: 0i32 }, Score { mg: 0i32, eg: 0i32 },
        ],
        knight_pst: [
            Score { mg: -167i32, eg: -58i32 }, Score { mg: -89i32, eg: -38i32 }, Score { mg: -34i32, eg: -13i32 }, Score { mg: -49i32, eg: -28i32 },
            Score { mg: 61i32, eg: -31i32 }, Score { mg: -97i32, eg: -27i32 }, Score { mg: -15i32, eg: -63i32 }, Score { mg: -107i32, eg: -99i32 },
            Score { mg: -73i32, eg: -25i32 }, Score { mg: -41i32, eg: -8i32 }, Score { mg: 72i32, eg: -25i32 }, Score { mg: 36i32, eg: -2i32 },
            Score { mg: 23i32, eg: -9i32 }, Score { mg: 62i32, eg: -25i32 }, Score { mg: 7i32, eg: -24i32 }, Score { mg: -17i32, eg: -52i32 },
            Score { mg: -47i32, eg: -24i32 }, Score { mg: 60i32, eg: -20i32 }, Score { mg: 37i32, eg: 10i32 }, Score { mg: 65i32, eg: 9i32 },
            Score { mg: 84i32, eg: -1i32 }, Score { mg: 129i32, eg: -9i32 }, Score { mg: 73i32, eg: -19i32 }, Score { mg: 44i32, eg: -41i32 },
            Score { mg: -9i32, eg: -17i32 }, Score { mg: 17i32, eg: 3i32 }, Score { mg: 19i32, eg: 22i32 }, Score { mg: 53i32, eg: 22i32 },
            Score { mg: 37i32, eg: 22i32 }, Score { mg: 69i32, eg: 11i32 }, Score { mg: 18i32, eg: 8i32 }, Score { mg: 22i32, eg: -18i32 },
            Score { mg: -13i32, eg: -18i32 }, Score { mg: 4i32, eg: -6i32 }, Score { mg: 16i32, eg: 16i32 }, Score { mg: 13i32, eg: 25i32 },
            Score { mg: 28i32, eg: 16i32 }, Score { mg: 19i32, eg: 17i32 }, Score { mg: 21i32, eg: 4i32 }, Score { mg: -8i32, eg: -18i32 },
            Score { mg: -23i32, eg: -23i32 }, Score { mg: -9i32, eg: -3i32 }, Score { mg: 12i32, eg: -1i32 }, Score { mg: 10i32, eg: 15i32 },
            Score { mg: 19i32, eg: 10i32 }, Score { mg: 17i32, eg: -3i32 }, Score { mg: 25i32, eg: -20i32 }, Score { mg: -16i32, eg: -22i32 },
            Score { mg: -29i32, eg: -42i32 }, Score { mg: -53i32, eg: -20i32 }, Score { mg: -12i32, eg: -10i32 }, Score { mg: -3i32, eg: -5i32 },
            Score { mg: -1i32, eg: -2i32 }, Score { mg: 18i32, eg: -20i32 }, Score { mg: -14i32, eg: -23i32 }, Score { mg: -19i32, eg: -44i32 },
            Score { mg: -105i32, eg: -29i32 }, Score { mg: -21i32, eg: -51i32 }, Score { mg: -58i32, eg: -23i32 }, Score { mg: -33i32, eg: -15i32 },
            Score { mg: -17i32, eg: -22i32 }, Score { mg: -28i32, eg: -18i32 }, Score { mg: -19i32, eg: -50i32 }, Score { mg: -23i32, eg: -64i32 },
        ],
        bishop_pst: [
            Score { mg: -29i32, eg: -14i32 }, Score { mg: 4i32, eg: -21i32 }, Score { mg: -82i32, eg: -11i32 }, Score { mg: -37i32, eg: -8i32 },
            Score { mg: -25i32, eg: -7i32 }, Score { mg: -42i32, eg: -9i32 }, Score { mg: 7i32, eg: -17i32 }, Score { mg: -8i32, eg: -24i32 },
            Score { mg: -26i32, eg: -8i32 }, Score { mg: 16i32, eg: -4i32 }, Score { mg: -18i32, eg: 7i32 }, Score { mg: -13i32, eg: -12i32 },
            Score { mg: 30i32, eg: -3i32 }, Score { mg: 59i32, eg: -13i32 }, Score { mg: 18i32, eg: -4i32 }, Score { mg: -47i32, eg: -14i32 },
            Score { mg: -16i32, eg: 2i32 }, Score { mg: 37i32, eg: -8i32 }, Score { mg: 43i32, eg: 0i32 }, Score { mg: 40i32, eg: -1i32 },
            Score { mg: 35i32, eg: -2i32 }, Score { mg: 50i32, eg: 6i32 }, Score { mg: 37i32, eg: 0i32 }, Score { mg: -2i32, eg: 4i32 },
            Score { mg: -4i32, eg: -3i32 }, Score { mg: 5i32, eg: 9i32 }, Score { mg: 19i32, eg: 12i32 }, Score { mg: 50i32, eg: 9i32 },
            Score { mg: 37i32, eg: 14i32 }, Score { mg: 37i32, eg: 10i32 }, Score { mg: 7i32, eg: 3i32 }, Score { mg: -2i32, eg: 2i32 },
            Score { mg: -6i32, eg: -6i32 }, Score { mg: 13i32, eg: 3i32 }, Score { mg: 13i32, eg: 13i32 }, Score { mg: 26i32, eg: 19i32 },
            Score { mg: 34i32, eg: 7i32 }, Score { mg: 12i32, eg: 10i32 }, Score { mg: 10i32, eg: -3i32 }, Score { mg: 4i32, eg: -9i32 },
            Score { mg: 0i32, eg: -12i32 }, Score { mg: 15i32, eg: -3i32 }, Score { mg: 15i32, eg: 8i32 }, Score { mg: 15i32, eg: 10i32 },
            Score { mg: 14i32, eg: 13i32 }, Score { mg: 27i32, eg: 3i32 }, Score { mg: 18i32, eg: -7i32 }, Score { mg: 10i32, eg: -15i32 },
            Score { mg: 4i32, eg: -14i32 }, Score { mg: 15i32, eg: -18i32 }, Score { mg: 16i32, eg: -7i32 }, Score { mg: 0i32, eg: -1i32 },
            Score { mg: 7i32, eg: 4i32 }, Score { mg: 21i32, eg: -9i32 }, Score { mg: 33i32, eg: -15i32 }, Score { mg: 1i32, eg: -27i32 },
            Score { mg: -33i32, eg: -23i32 }, Score { mg: -3i32, eg: -9i32 }, Score { mg: -14i32, eg: -23i32 }, Score { mg: -21i32, eg: -5i32 },
            Score { mg: -13i32, eg: -9i32 }, Score { mg: -12i32, eg: -16i32 }, Score { mg: -39i32, eg: -5i32 }, Score { mg: -21i32, eg: -17i32 },
        ],
        rook_pst: [
            Score { mg: 32i32, eg: 13i32 }, Score { mg: 42i32, eg: 10i32 }, Score { mg: 32i32, eg: 18i32 }, Score { mg: 51i32, eg: 15i32 },
            Score { mg: 63i32, eg: 12i32 }, Score { mg: 9i32, eg: 12i32 }, Score { mg: 31i32, eg: 8i32 }, Score { mg: 43i32, eg: 5i32 },
            Score { mg: 27i32, eg: 11i32 }, Score { mg: 32i32, eg: 13i32 }, Score { mg: 58i32, eg: 13i32 }, Score { mg: 62i32, eg: 11i32 },
            Score { mg: 80i32, eg: -3i32 }, Score { mg: 67i32, eg: 3i32 }, Score { mg: 26i32, eg: 8i32 }, Score { mg: 44i32, eg: 3i32 },
            Score { mg: -5i32, eg: 7i32 }, Score { mg: 19i32, eg: 7i32 }, Score { mg: 26i32, eg: 7i32 }, Score { mg: 36i32, eg: 5i32 },
            Score { mg: 17i32, eg: 4i32 }, Score { mg: 45i32, eg: -3i32 }, Score { mg: 61i32, eg: -5i32 }, Score { mg: 16i32, eg: -3i32 },
            Score { mg: -24i32, eg: 4i32 }, Score { mg: -11i32, eg: 3i32 }, Score { mg: 7i32, eg: 13i32 }, Score { mg: 26i32, eg: 1i32 },
            Score { mg: 24i32, eg: 2i32 }, Score { mg: 35i32, eg: 1i32 }, Score { mg: -8i32, eg: -1i32 }, Score { mg: -20i32, eg: 2i32 },
            Score { mg: -36i32, eg: 3i32 }, Score { mg: -26i32, eg: 5i32 }, Score { mg: -12i32, eg: 8i32 }, Score { mg: -1i32, eg: 4i32 },
            Score { mg: 9i32, eg: -5i32 }, Score { mg: -7i32, eg: -6i32 }, Score { mg: 6i32, eg: -8i32 }, Score { mg: -23i32, eg: -11i32 },
            Score { mg: -45i32, eg: -4i32 }, Score { mg: -25i32, eg: 0i32 }, Score { mg: -16i32, eg: -5i32 }, Score { mg: -17i32, eg: -1i32 },
            Score { mg: 3i32, eg: -7i32 }, Score { mg: 0i32, eg: -12i32 }, Score { mg: -5i32, eg: -8i32 }, Score { mg: -33i32, eg: -16i32 },
            Score { mg: -44i32, eg: -6i32 }, Score { mg: -16i32, eg: -6i32 }, Score { mg: -20i32, eg: 0i32 }, Score { mg: -9i32, eg: 2i32 },
            Score { mg: -1i32, eg: -9i32 }, Score { mg: 11i32, eg: -9i32 }, Score { mg: -6i32, eg: -11i32 }, Score { mg: -71i32, eg: -3i32 },
            Score { mg: -19i32, eg: -9i32 }, Score { mg: -13i32, eg: 2i32 }, Score { mg: 1i32, eg: 3i32 }, Score { mg: 17i32, eg: -1i32 },
            Score { mg: 16i32, eg: -5i32 }, Score { mg: 7i32, eg: -13i32 }, Score { mg: -37i32, eg: 4i32 }, Score { mg: -26i32, eg: -20i32 },
        ],
        queen_pst: [
            Score { mg: -28i32, eg: -9i32 }, Score { mg: 0i32, eg: 22i32 }, Score { mg: 29i32, eg: 22i32 }, Score { mg: 12i32, eg: 27i32 },
            Score { mg: 59i32, eg: 27i32 }, Score { mg: 44i32, eg: 19i32 }, Score { mg: 43i32, eg: 10i32 }, Score { mg: 45i32, eg: 20i32 },
            Score { mg: -24i32, eg: -17i32 }, Score { mg: -39i32, eg: 20i32 }, Score { mg: -5i32, eg: 32i32 }, Score { mg: 1i32, eg: 41i32 },
            Score { mg: -16i32, eg: 58i32 }, Score { mg: 57i32, eg: 25i32 }, Score { mg: 28i32, eg: 30i32 }, Score { mg: 54i32, eg: 0i32 },
            Score { mg: -13i32, eg: -20i32 }, Score { mg: -17i32, eg: 6i32 }, Score { mg: 7i32, eg: 9i32 }, Score { mg: 8i32, eg: 49i32 },
            Score { mg: 29i32, eg: 47i32 }, Score { mg: 56i32, eg: 35i32 }, Score { mg: 47i32, eg: 19i32 }, Score { mg: 57i32, eg: 9i32 },
            Score { mg: -27i32, eg: 3i32 }, Score { mg: -27i32, eg: 22i32 }, Score { mg: -16i32, eg: 24i32 }, Score { mg: -16i32, eg: 45i32 },
            Score { mg: -1i32, eg: 57i32 }, Score { mg: 17i32, eg: 40i32 }, Score { mg: -2i32, eg: 57i32 }, Score { mg: 1i32, eg: 36i32 },
            Score { mg: -9i32, eg: -18i32 }, Score { mg: -26i32, eg: 28i32 }, Score { mg: -9i32, eg: 19i32 }, Score { mg: -10i32, eg: 47i32 },
            Score { mg: -2i32, eg: 31i32 }, Score { mg: -4i32, eg: 34i32 }, Score { mg: 3i32, eg: 39i32 }, Score { mg: -3i32, eg: 23i32 },
            Score { mg: -14i32, eg: -16i32 }, Score { mg: 2i32, eg: -27i32 }, Score { mg: -11i32, eg: 15i32 }, Score { mg: -2i32, eg: 6i32 },
            Score { mg: -5i32, eg: 9i32 }, Score { mg: 2i32, eg: 17i32 }, Score { mg: 14i32, eg: 10i32 }, Score { mg: 5i32, eg: 5i32 },
            Score { mg: -35i32, eg: -22i32 }, Score { mg: -8i32, eg: -23i32 }, Score { mg: 11i32, eg: -30i32 }, Score { mg: 2i32, eg: -16i32 },
            Score { mg: 8i32, eg: -16i32 }, Score { mg: 15i32, eg: -23i32 }, Score { mg: -3i32, eg: -36i32 }, Score { mg: 1i32, eg: -32i32 },
            Score { mg: -1i32, eg: -33i32 }, Score { mg: -18i32, eg: -28i32 }, Score { mg: -9i32, eg: -22i32 }, Score { mg: 10i32, eg: -43i32 },
            Score { mg: -15i32, eg: -5i32 }, Score { mg: -25i32, eg: -32i32 }, Score { mg: -31i32, eg: -20i32 }, Score { mg: -50i32, eg: -41i32 },
        ],
        king_pst: [
            Score { mg: -65i32, eg: -74i32 }, Score { mg: 23i32, eg: -35i32 }, Score { mg: 16i32, eg: -18i32 }, Score { mg: -15i32, eg: -18i32 },
            Score { mg: -56i32, eg: -11i32 }, Score { mg: -34i32, eg: 15i32 }, Score { mg: 2i32, eg: 4i32 }, Score { mg: 13i32, eg: -17i32 },
            Score { mg: 29i32, eg: -12i32 }, Score { mg: -1i32, eg: 17i32 }, Score { mg: -20i32, eg: 14i32 }, Score { mg: -7i32, eg: 17i32 },
            Score { mg: -8i32, eg: 17i32 }, Score { mg: -4i32, eg: 38i32 }, Score { mg: -38i32, eg: 23i32 }, Score { mg: -29i32, eg: 11i32 },
            Score { mg: -9i32, eg: 10i32 }, Score { mg: 24i32, eg: 17i32 }, Score { mg: 2i32, eg: 23i32 }, Score { mg: -16i32, eg: 15i32 },
            Score { mg: -20i32, eg: 20i32 }, Score { mg: 6i32, eg: 45i32 }, Score { mg: 22i32, eg: 44i32 }, Score { mg: -22i32, eg: 13i32 },
            Score { mg: -17i32, eg: -8i32 }, Score { mg: -20i32, eg: 22i32 }, Score { mg: -12i32, eg: 24i32 }, Score { mg: -27i32, eg: 27i32 },
            Score { mg: -30i32, eg: 26i32 }, Score { mg: -25i32, eg: 33i32 }, Score { mg: -14i32, eg: 26i32 }, Score { mg: -36i32, eg: 3i32 },
            Score { mg: -49i32, eg: -18i32 }, Score { mg: -1i32, eg: -4i32 }, Score { mg: -27i32, eg: 21i32 }, Score { mg: -39i32, eg: 24i32 },
            Score { mg: -46i32, eg: 27i32 }, Score { mg: -44i32, eg: 23i32 }, Score { mg: -33i32, eg: 9i32 }, Score { mg: -51i32, eg: -11i32 },
            Score { mg: -14i32, eg: -19i32 }, Score { mg: -14i32, eg: -3i32 }, Score { mg: -22i32, eg: 11i32 }, Score { mg: -46i32, eg: 21i32 },
            Score { mg: -44i32, eg: 23i32 }, Score { mg: -30i32, eg: 16i32 }, Score { mg: -15i32, eg: 7i32 }, Score { mg: -27i32, eg: -9i32 },
            Score { mg: 1i32, eg: -27i32 }, Score { mg: 7i32, eg: -11i32 }, Score { mg: -8i32, eg: 4i32 }, Score { mg: -64i32, eg: 13i32 },
            Score { mg: -43i32, eg: 14i32 }, Score { mg: -16i32, eg: 4i32 }, Score { mg: 9i32, eg: -5i32 }, Score { mg: 8i32, eg: -17i32 },
            Score { mg: -15i32, eg: -53i32 }, Score { mg: 36i32, eg: -34i32 }, Score { mg: 12i32, eg: -21i32 }, Score { mg: -54i32, eg: -11i32 },
            Score { mg: 8i32, eg: -28i32 }, Score { mg: -28i32, eg: -14i32 }, Score { mg: 24i32, eg: -24i32 }, Score { mg: 14i32, eg: -43i32 },
        ],
    }
}

/// The tuned weights of the lazy evaluation; see `default_lazy_params_spec`.
pub fn default_lazy_params() -> (r: LazyParams)
    ensures
        r == default_lazy_params_spec(),
{
    let r = LazyParams {
    pawn_value: Score { mg: 82, eg: 94 },
    knight_value: Score { mg: 337, eg: 281 },
    bishop_value: Score { mg: 365, eg: 297 },
    rook_value: Score { mg: 477, eg: 512 },
    queen_value: Score { mg: 1025, eg: 936 },
    pawn_pst: [
        Score { mg: 0, eg: 0 }, Score { mg: 0, eg: 0 }, Score { mg: 0, eg: 0 }, Score { mg: 0, eg: 0 },
        Score { mg: 0, eg: 0 }, Score { mg: 0, eg: 0 }, Score { mg: 0, eg: 0 }, Score { mg: 0, eg: 0 },
        Score { mg: 98, eg: 178 }, Score { mg: 134, eg: 173 }, Score { mg: 61, eg: 158 }, Score { mg: 95, eg: 134 },
        Score { mg: 68, eg: 147 }, Score { mg: 126, eg: 132 }, Score { mg: 34, eg: 165 }, Score { mg: -11, eg: 187 },
        Score { mg: -6, eg: 94 }, Score { mg: 7, eg: 100 }, Score { mg: 26, eg: 85 }, Score { mg: 31, eg: 67 },
        Score { mg: 65, eg: 56 }, Score { mg: 56, eg: 53 }, Score { mg: 25, eg: 82 }, Score { mg: -20, eg: 84 },
        Score { mg: -14, eg: 32 }, Score { mg: 13, eg: 24 }, Score { mg: 6, eg: 13 }, Score { mg: 21, eg: 5 },
        Score { mg: 23, eg: -2 }, Score { mg: 12, eg: 4 }, Score { mg: 17, eg: 17 }, Score { mg: -23, eg: 17 },
        Score { mg: -27, eg: 13 }, Score { mg: -2, eg: 9 }, Score { mg: -5, eg: -3 }, Score { mg: 12, eg: -7 },
        Score { mg: 17, eg: -7 }, Score { mg: 6, eg: -8 }, Score { mg: 10, eg: 3 }, Score { mg: -25, eg: -1 },
        Score { mg: -26, eg: 4 }, Score { mg: -4, eg: 7 }, Score { mg: -4, eg: -6 }, Score { mg: -10, eg: 1 },
        Score { mg: 3, eg: 0 }, Score { mg: 3, eg: -5 }, Score { mg: 33, eg: -1 }, Score { mg: -12, eg: -8 },
        Score { mg: -35, eg: 13 }, Score { mg: -1, eg: 8 }, Score { mg: -20, eg: 8 }, Score { mg: -23, eg: 10 },
        Score { mg: -15, eg: 13 }, Score { mg: 24, eg: 0 }, Score { mg: 38, eg: 2 }, Score { mg: -22, eg: -7 },
        Score { mg: 0, eg: 0 }, Score { mg: 0, eg: 0 }, Score { mg: 0, eg: 0 }, Score { mg: 0, eg: 0 },
        Score { mg: 0, eg: 0 }, Score { mg: 0, eg: 0 }, Score { mg: 0, eg: 0 }, Score { mg: 0, eg: 0 },
    ],
    knight_pst: [
        Score { mg: -167, eg: -58 }, Score { mg: -89, eg: -38 }, Score { mg: -34, eg: -13 }, Score { mg: -49, eg: -28 },
        Score { mg: 61, eg: -31 }, Score { mg: -97, eg: -27 }, Score { mg: -15, eg: -63 }, Score { mg: -107, eg: -99 },
        Score { mg: -73, eg: -25 }, Score { mg: -41, eg: -8 }, Score { mg: 72, eg: -25 }, Score { mg: 36, eg: -2 },
        Score { mg: 23, eg: -9 }, Score { mg: 62, eg: -25 }, Score { mg: 7, eg: -24 }, Score { mg: -17, eg: -52 },
        Score { mg: -47, eg: -24 }, Score { mg: 60, eg: -20 }, Score { mg: 37, eg: 10 }, Score { mg: 65, eg: 9 },
        Score { mg: 84, eg: -1 }, Score { mg: 129, eg: -9 }, Score { mg: 73, eg: -19 }, Score { mg: 44, eg: -41 },
        Score { mg: -9, eg: -17 }, Score { mg: 17, eg: 3 }, Score { mg: 19, eg: 22 }, Score { mg: 53, eg: 22 },
        Score { mg: 37, eg: 22 }, Score { mg: 69, eg: 11 }, Score { mg: 18, eg: 8 }, Score { mg: 22, eg: -18 },
        Score { mg: -13, eg: -18 }, Score { mg: 4, eg: -6 }, Score { mg: 16, eg: 16 }, Score { mg: 13, eg: 25 },
        Score { mg: 28, eg: 16 }, Score { mg: 19, eg: 17 }, Score { mg: 21, eg: 4 }, Score { mg: -8, eg: -18 },
        Score { mg: -23, eg: -23 }, Score { mg: -9, eg: -3 }, Score { mg: 12, eg: -1 }, Score { mg: 10, eg: 15 },
        Score { mg: 19, eg: 10 }, Score { mg: 17, eg: -3 }, Score { mg: 25, eg: -20 }, Score { mg: -16, eg: -22 },
        Score { mg: -29, eg: -42 }, Score { mg: -53, eg: -20 }, Score { mg: -12, eg: -10 }, Score { mg: -3, eg: -5 },
        Score { mg: -1, eg: -2 }, Score { mg: 18, eg: -20 }, Score { mg: -14, eg: -23 }, Score { mg: -19, eg: -44 },
        Score { mg: -105, eg: -29 }, Score { mg: -21, eg: -51 }, Score { mg: -58, eg: -23 }, Score { mg: -33, eg: -15 },
        Score { mg: -17, eg: -22 }, Score { mg: -28, eg: -18 }, Score { mg: -19, eg: -50 }, Score { mg: -23, eg: -64 },
    ],
    bishop_pst: [
        Score { mg: -29, eg: -14 }, Score { mg: 4, eg: -21 }, Score { mg: -82, eg: -11 }, Score { mg: -37, eg: -8 },
        Score { mg: -25, eg: -7 }, Score { mg: -42, eg: -9 }, Score { mg: 7, eg: -17 }, Score { mg: -8, eg: -24 },
        Score { mg: -26, eg: -8 }, Score { mg: 16, eg: -4 }, Score { mg: -18, eg: 7 }, Score { mg: -13, eg: -12 },
        Score { mg: 30, eg: -3 }, Score { mg: 59, eg: -13 }, Score { mg: 18, eg: -4 }, Score { mg: -47, eg: -14 },
        Score { mg: -16, eg: 2 }, Score { mg: 37, eg: -8 }, Score { mg: 43, eg: 0 }, Score { mg: 40, eg: -1 },
        Score { mg: 35, eg: -2 }, Score { mg: 50, eg: 6 }, Score { mg: 37, eg: 0 }, Score { mg: -2, eg: 4 },
        Score { mg: -4, eg: -3 }, Score { mg: 5, eg: 9 }, Score { mg: 19, eg: 12 }, Score { mg: 50, eg: 9 },
        Score { mg: 37, eg: 14 }, Score { mg: 37, eg: 10 }, Score { mg: 7, eg: 3 }, Score { mg: -2, eg: 2 },
        Score { mg: -6, eg: -6 }, Score { mg: 13, eg: 3 }, Score { mg: 13, eg: 13 }, Score { mg: 26, eg: 19 },
        Score { mg: 34, eg: 7 }, Score { mg: 12, eg: 10 }, Score { mg: 10, eg: -3 }, Score { mg: 4, eg: -9 },
        Score { mg: 0, eg: -12 }, Score { mg: 15, eg: -3 }, Score { mg: 15, eg: 8 }, Score { mg: 15, eg: 10 },
        Score { mg: 14, eg: 13 }, Score { mg: 27, eg: 3 }, Score { mg: 18, eg: -7 }, Score { mg: 10, eg: -15 },
        Score { mg: 4, eg: -14 }, Score { mg: 15, eg: -18 }, Score { mg: 16, eg: -7 }, Score { mg: 0, eg: -1 },
        Score { mg: 7, eg: 4 }, Score { mg: 21, eg: -9 }, Score { mg: 33, eg: -15 }, Score { mg: 1, eg: -27 },
        Score { mg: -33, eg: -23 }, Score { mg: -3, eg: -9 }, Score { mg: -14, eg: -23 }, Score { mg: -21, eg: -5 },
        Score { mg: -13, eg: -9 }, Score { mg: -12, eg: -16 }, Score { mg: -39, eg: -5 }, Score { mg: -21, eg: -17 },
    ],
    rook_pst: [
        Score { mg: 32, eg: 13 }, Score { mg: 42, eg: 10 }, Score { mg: 32, eg: 18 }, Score { mg: 51, eg: 15 },
        Score { mg: 63, eg: 12 }, Score { mg: 9, eg: 12 }, Score { mg: 31, eg: 8 }, Score { mg: 43, eg: 5 },
        Score { mg: 27, eg: 11 }, Score { mg: 32, eg: 13 }, Score { mg: 58, eg: 13 }, Score { mg: 62, eg: 11 },
        Score { mg: 80, eg: -3 }, Score { mg: 67, eg: 3 }, Score { mg: 26, eg: 8 }, Score { mg: 44, eg: 3 },
        Score { mg: -5, eg: 7 }, Score { mg: 19, eg: 7 }, Score { mg: 26, eg: 7 }, Score { mg: 36, eg: 5 },
        Score { mg: 17, eg: 4 }, Score { mg: 45, eg: -3 }, Score { mg: 61, eg: -5 }, Score { mg: 16, eg: -3 },
        Score { mg: -24, eg: 4 }, Score { mg: -11, eg: 3 }, Score { mg: 7, eg: 13 }, Score { mg: 26, eg: 1 },
        Score { mg: 24, eg: 2 }, Score { mg: 35, eg: 1 }, Score { mg: -8, eg: -1 }, Score { mg: -20, eg: 2 },
        Score { mg: -36, eg: 3 }, Score { mg: -26, eg: 5 }, Score { mg: -12, eg: 8 }, Score { mg: -1, eg: 4 },
        Score { mg: 9, eg: -5 }, Score { mg: -7, eg: -6 }, Score { mg: 6, eg: -8 }, Score { mg: -23, eg: -11 },
        Score { mg: -45, eg: -4 }, Score { mg: -25, eg: 0 }, Score { mg: -16, eg: -5 }, Score { mg: -17, eg: -1 },
        Score { mg: 3, eg: -7 }, Score { mg: 0, eg: -12 }, Score { mg: -5, eg: -8 }, Score { mg: -33, eg: -16 },
        Score { mg: -44, eg: -6 }, Score { mg: -16, eg: -6 }, Score { mg: -20, eg: 0 }, Score { mg: -9, eg: 2 },
        Score { mg: -1, eg: -9 }, Score { mg: 11, eg: -9 }, Score { mg: -6, eg: -11 }, Score { mg: -71, eg: -3 },
        Score { mg: -19, eg: -9 }, Score { mg: -13, eg: 2 }, Score { mg: 1, eg: 3 }, Score { mg: 17, eg: -1 },
        Score { mg: 16, eg: -5 }, Score { mg: 7, eg: -13 }, Score { mg: -37, eg: 4 }, Score { mg: -26, eg: -20 },
    ],
    queen_pst: [
        Score { mg: -28, eg: -9 }, Score { mg: 0, eg: 22 }, Score { mg: 29, eg: 22 }, Score { mg: 12, eg: 27 },
        Score { mg: 59, eg: 27 }, Score { mg: 44, eg: 19 }, Score { mg: 43, eg: 10 }, Score { mg: 45, eg: 20 },
        Score { mg: -24, eg: -17 }, Score { mg: -39, eg: 20 }, Score { mg: -5, eg: 32 }, Score { mg: 1, eg: 41 },
        Score { mg: -16, eg: 58 }, Score { mg: 57, eg: 25 }, Score { mg: 28, eg: 30 }, Score { mg: 54, eg: 0 },
        Score { mg: -13, eg: -20 }, Score { mg: -17, eg: 6 }, Score { mg: 7, eg: 9 }, Score { mg: 8, eg: 49 },
        Score { mg: 29, eg: 47 }, Score { mg: 56, eg: 35 }, Score { mg: 47, eg: 19 }, Score { mg: 57, eg: 9 },
        Score { mg: -27, eg: 3 }, Score { mg: -27, eg: 22 }, Score { mg: -16, eg: 24 }, Score { mg: -16, eg: 45 },
        Score { mg: -1, eg: 57 }, Score { mg: 17, eg: 40 }, Score { mg: -2, eg: 57 }, Score { mg: 1, eg: 36 },
        Score { mg: -9, eg: -18 }, Score { mg: -26, eg: 28 }, Score { mg: -9, eg: 19 }, Score { mg: -10, eg: 47 },
        Score { mg: -2, eg: 31 }, Score { mg: -4, eg: 34 }, Score { mg: 3, eg: 39 }, Score { mg: -3, eg: 23 },
        Score { mg: -14, eg: -16 }, Score { mg: 2, eg: -27 }, Score { mg: -11, eg: 15 }, Score { mg: -2, eg: 6 },
        Score { mg: -5, eg: 9 }, Score { mg: 2, eg: 17 }, Score { mg: 14, eg: 10 }, Score { mg: 5, eg: 5 },
        Score { mg: -35, eg: -22 }, Score { mg: -8, eg: -23 }, Score { mg: 11, eg: -30 }, Score { mg: 2, eg: -16 },
        Score { mg: 8, eg: -16 }, Score { mg: 15, eg: -23 }, Score { mg: -3, eg: -36 }, Score { mg: 1, eg: -32 },
        Score { mg: -1, eg: -33 }, Score { mg: -18, eg: -28 }, Score { mg: -9, eg: -22 }, Score { mg: 10, eg: -43 },
        Score { mg: -15, eg: -5 }, Score { mg: -25, eg: -32 }, Score { mg: -31, eg: -20 }, Score { mg: -50, eg: -41 },
    ],
    king_pst: [
        Score { mg: -65, eg: -74 }, Score { mg: 23, eg: -35 }, Score { mg: 16, eg: -18 }, Score { mg: -15, eg: -18 },
        Score { mg: -56, eg: -11 }, Score { mg: -34, eg: 15 }, Score { mg: 2, eg: 4 }, Score { mg: 13, eg: -17 },
        Score { mg: 29, eg: -12 }, Score { mg: -1, eg: 17 }, Score { mg: -20, eg: 14 }, Score { mg: -7, eg: 17 },
        Score { mg: -8, eg: 17 }, Score { mg: -4, eg: 38 }, Score { mg: -38, eg: 23 }, Score { mg: -29, eg: 11 },
        Score { mg: -9, eg: 10 }, Score { mg: 24, eg: 17 }, Score { mg: 2, eg: 23 }, Score { mg: -16, eg: 15 },
        Score { mg: -20, eg: 20 }, Score { mg: 6, eg: 45 }, Score { mg: 22, eg: 44 }, Score { mg: -22, eg: 13 },
        Score { mg: -17, eg: -8 }, Score { mg: -20, eg: 22 }, Score { mg: -12, eg: 24 }, Score { mg: -27, eg: 27 },
        Score { mg: -30, eg: 26 }, Score { mg: -25, eg: 33 }, Score { mg: -14, eg: 26 }, Score { mg: -36, eg: 3 },
        Score { mg: -49, eg: -18 }, Score { mg: -1, eg: -4 }, Score { mg: -27, eg: 21 }, Score { mg: -39, eg: 24 },
        Score { mg: -46, eg: 27 }, Score { mg: -44, eg: 23 }, Score { mg: -33, eg: 9 }, Score { mg: -51, eg: -11 },
        Score { mg: -14, eg: -19 }, Score { mg: -14, eg: -3 }, Score { mg: -22, eg: 11 }, Score { mg: -46, eg: 21 },
        Score { mg: -44, eg: 23 }, Score { mg: -30, eg: 16 }, Score { mg: -15, eg: 7 }, Score { mg: -27, eg: -9 },
        Score { mg: 1, eg: -27 }, Score { mg: 7, eg: -11 }, Score { mg: -8, eg: 4 }, Score { mg: -64, eg: 13 },
        Score { mg: -43, eg: 14 }, Score { mg: -16, eg: 4 }, Score { mg: 9, eg: -5 }, Score { mg: 8, eg: -17 },
        Score { mg: -15, eg: -53 }, Score { mg: 36, eg: -34 }, Score { mg: 12, eg: -21 }, Score { mg: -54, eg: -11 },
        Score { mg: 8, eg: -28 }, Score { mg: -28, eg: -14 }, Score { mg: 24, eg: -24 }, Score { mg: 14, eg: -43 },
    ],
};
    proof {
        assert(r.pawn_pst =~= default_lazy_params_spec().pawn_pst);
        assert(r.knight_pst =~= default_lazy_params_spec().knight_pst);
        assert(r.bishop_pst =~= default_lazy_params_spec().bishop_pst);
        assert(r.rook_pst =~= default_lazy_params_spec().rook_pst);
        assert(r.queen_pst =~= default_lazy_params_spec().queen_pst);
        assert(r.king_pst =~= default_lazy_params_spec().king_pst);
    }
    r
}


/// Evaluates `pos` lazily with the tuned weights.
pub fn lazy_evaluate(pos: &Position) -> (r: Eval)
    ensures
        r == lazy_eval_spec(*pos, default_lazy_params_spec()),
{
    proof {
        lemma_default_lazy_bounded();
    }
    let params = default_lazy_params();
    lazy_evaluate_with(pos, &params)
}

/// The tuned weights lie within the bounds the lazy evaluation needs.
pub proof fn lemma_default_lazy_bounded()
    ensures
        lazy_bounded(default_lazy_params_spec()),
{
    let r = default_lazy_params_spec();
    assert(table_bounded(r.pawn_pst@));
    assert(table_bounded(r.knight_pst@));
    assert(table_bounded(r.bishop_pst@));
    assert(table_bounded(r.rook_pst@));
    assert(table_bounded(r.queen_pst@));
    assert(table_bounded(r.king_pst@));
}
} // verus!
