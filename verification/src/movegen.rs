//! Pseudo-legal move generation: all moves, captures and promotions, quiet moves, and check
//! evasions.
use vstd::prelude::*;

use vstd::std_specs::bits::u64_trailing_zeros;

use crate::bitboard::{
    bit_set, bishop_attacks_spec, evasion_mask_spec, lemma_diagonal_not_straight, king_attacks_spec, knight_attacks_spec,
    pawn_attacks_spec, popcount, rook_attacks_spec, shift_spec, Bitboard, Bitboards,
};
use crate::position::{castling_path, Position};
use crate::types::{
    self, Castling, CastlingType, Colour, Direction, Move, MoveFlag, Piece, PieceCode, Square,
};

verus! {

/// The most moves a list is expected to hold.
pub const MAX_MOVES: usize = 256;

/// A list of moves, in the order they were added.
#[derive(Debug)]
pub struct MoveList {
    moves: Vec<Move>,
}

/// Which moves a generator produces.
#[derive(Copy, Clone, Eq, PartialEq, Debug, Structural)]
pub enum GenType {
    All,
    Noisy,
    Quiets,
    Evasions,
}

impl View for MoveList {
    type V = Seq<Move>;

    closed spec fn view(&self) -> Seq<Move> {
        self.moves@
    }
}

impl MoveList {
    #[inline(always)]
    pub fn new() -> (r: MoveList)
        ensures
            r@ == Seq::<Move>::empty(),
    {
        MoveList { moves: Vec::with_capacity(MAX_MOVES) }
    }

    #[inline(always)]
    pub fn clear(&mut self)
        ensures
            final(self)@ == Seq::<Move>::empty(),
    {
        self.moves.clear();
    }

    #[inline(always)]
    pub fn push(&mut self, mv: Move)
        ensures
            final(self)@ == old(self)@.push(mv),
    {
        self.moves.push(mv);
    }

    #[inline(always)]
    pub fn len(&self) -> (r: usize)
        ensures
            r == self@.len(),
    {
        self.moves.len()
    }

    #[inline(always)]
    pub fn is_empty(&self) -> (r: bool)
        ensures
            r == (self@.len() == 0),
    {
        self.moves.len() == 0
    }

    /// The move at position `i`.
    #[inline(always)]
    pub fn get(&self, i: usize) -> (r: Move)
        requires
            i < self@.len(),
        ensures
            r == self@[i as int],
    {
        self.moves[i]
    }

    /// A copy of the moves, in order.
    pub fn to_vec(&self) -> (r: Vec<Move>)
        ensures
            r@ == self@,
    {
        let mut r: Vec<Move> = Vec::new();
        let mut i: usize = 0;
        while i < self.moves.len()
            invariant
                i <= self.moves@.len(),
                r@ == self.moves@.subrange(0, i as int),
            decreases self.moves@.len() - i,
        {
            r.push(self.moves[i]);
            i = i + 1;
            assert(r@ =~= self.moves@.subrange(0, i as int));
        }
        assert(self.moves@.subrange(0, self.moves@.len() as int) =~= self.moves@);
        r
    }

    /// Puts the moves of `v` in the list, in their order.
    pub fn replace(&mut self, v: Vec<Move>)
        ensures
            final(self)@ == v@,
    {
        self.moves = v;
    }

    #[inline(always)]
    pub fn as_slice(&self) -> (r: &[Move])
        ensures
            r@ == self@,
    {
        self.moves.as_slice()
    }
}

/// The moves `new` has past the first `old.len()`.
pub open spec fn appended(old: Seq<Move>, new: Seq<Move>) -> Seq<Move> {
    new.subrange(old.len() as int, new.len() as int)
}

/// `new` is `old` with moves added at the end: each move with property `p` once, and no other.
pub open spec fn adds(old: Seq<Move>, new: Seq<Move>, p: spec_fn(Move) -> bool) -> bool {
    &&& new.len() >= old.len()
    &&& new.subrange(0, old.len() as int) == old
    &&& forall|m: Move| #[trigger] appended(old, new).contains(m) <==> p(m)
    &&& appended(old, new).no_duplicates()
}

/// Adding nothing adds the moves of an empty property.
pub proof fn lemma_adds_none(s: Seq<Move>, p: spec_fn(Move) -> bool)
    requires
        forall|m: Move| !#[trigger] p(m),
    ensures
        adds(s, s, p),
{
    assert(appended(s, s) =~= Seq::<Move>::empty());
    assert(s.subrange(0, s.len() as int) =~= s);
}

/// Adding one more move with a new property keeps the adding exact.
pub proof fn lemma_adds_push(
    a: Seq<Move>,
    b: Seq<Move>,
    mv: Move,
    p: spec_fn(Move) -> bool,
    q: spec_fn(Move) -> bool,
)
    requires
        adds(a, b, p),
        !p(mv),
        forall|m: Move| #[trigger] q(m) <==> (p(m) || m == mv),
    ensures
        adds(a, b.push(mv), q),
{
    let c = b.push(mv);
    assert(appended(a, c) =~= appended(a, b).push(mv));
    assert(c.subrange(0, a.len() as int) =~= b.subrange(0, a.len() as int));
    assert forall|m: Move| #[trigger] appended(a, c).contains(m) <==> q(m) by {
        if appended(a, c).contains(m) {
            let k = choose|k: int| 0 <= k < appended(a, c).len() && appended(a, c)[k] == m;
            if k < appended(a, b).len() {
                assert(appended(a, b)[k] == m);
                assert(appended(a, b).contains(m));
                assert(p(m));
            } else {
                assert(m == mv);
            }
        }
        if p(m) {
            assert(appended(a, b).contains(m));
            let k = choose|k: int| 0 <= k < appended(a, b).len() && appended(a, b)[k] == m;
            assert(appended(a, c)[k] == m);
        }
        if m == mv {
            assert(appended(a, c)[appended(a, c).len() - 1] == m);
        }
    }
    assert(!appended(a, b).contains(mv));
    assert forall|i: int, j: int|
        0 <= i < appended(a, c).len() && 0 <= j < appended(a, c).len() && i != j implies
            appended(a, c)[i] != appended(a, c)[j] by {
        if i < appended(a, b).len() && j < appended(a, b).len() {
        } else if i < appended(a, b).len() {
            assert(appended(a, b)[i] == appended(a, c)[i]);
        } else if j < appended(a, b).len() {
            assert(appended(a, b)[j] == appended(a, c)[j]);
        }
    }
}

/// Adding in two steps adds the moves of either step, when no move has both properties.
pub proof fn lemma_adds_trans(
    a: Seq<Move>,
    b: Seq<Move>,
    c: Seq<Move>,
    p: spec_fn(Move) -> bool,
    q: spec_fn(Move) -> bool,
    r: spec_fn(Move) -> bool,
)
    requires
        adds(a, b, p),
        adds(b, c, q),
        forall|m: Move| !(#[trigger] p(m) && q(m)),
        forall|m: Move| #[trigger] r(m) <==> (p(m) || q(m)),
    ensures
        adds(a, c, r),
{
    let ab = appended(a, b);
    let bc = appended(b, c);
    let ac = appended(a, c);
    assert(ac =~= ab + bc);
    assert(c.subrange(0, a.len() as int) =~= b.subrange(0, a.len() as int));
    assert forall|m: Move| #[trigger] ac.contains(m) <==> r(m) by {
        if ac.contains(m) {
            let k = choose|k: int| 0 <= k < ac.len() && ac[k] == m;
            if k < ab.len() {
                assert(ab[k] == m);
                assert(ab.contains(m));
                assert(p(m));
            } else {
                assert(bc[k - ab.len()] == m);
                assert(bc.contains(m));
                assert(q(m));
            }
        }
        if p(m) {
            assert(ab.contains(m));
            let k = choose|k: int| 0 <= k < ab.len() && ab[k] == m;
            assert(ac[k] == m);
        }
        if q(m) {
            assert(bc.contains(m));
            let k = choose|k: int| 0 <= k < bc.len() && bc[k] == m;
            assert(ac[k + ab.len()] == m);
        }
    }
    assert forall|i: int, j: int| 0 <= i < ac.len() && 0 <= j < ac.len() && i != j implies ac[i]
        != ac[j] by {
        if i < ab.len() && j >= ab.len() {
            assert(ab.contains(ac[i]));
            assert(bc.contains(ac[j]));
        } else if j < ab.len() && i >= ab.len() {
            assert(ab.contains(ac[j]));
            assert(bc.contains(ac[i]));
        } else if i >= ab.len() && j >= ab.len() {
            assert(bc[i - ab.len()] == ac[i]);
            assert(bc[j - ab.len()] == ac[j]);
        }
    }
}

/// Whether generating in `mode` includes captures.
pub open spec fn with_captures(mode: GenType) -> bool {
    mode != GenType::Quiets
}

/// Whether generating in `mode` includes quiet moves.
pub open spec fn with_quiets(mode: GenType) -> bool {
    mode != GenType::Noisy
}

/// A move of the piece on `from` to a square of `targets`: a capture when an enemy piece of
/// `opp` stands there, a quiet move otherwise, as far as `mode` includes them.
pub open spec fn step_move(from: int, targets: u64, opp: u64, mode: GenType, m: Move) -> bool {
    &&& m.canonical()
    &&& m.from_index() == from
    &&& bit_set(targets, m.to_index() as int)
    &&& if bit_set(opp, m.to_index() as int) {
        with_captures(mode) && m.flag_of() == MoveFlag::Capture
    } else {
        with_quiets(mode) && m.flag_of() == MoveFlag::Quiet
    }
}

/// Removing the lowest square of a set removes that square only.
pub proof fn lemma_pop_bit(x: u64, r: u64, s: u64)
    by (bit_vector)
    requires
        r < 64,
        s < 64,
        (x >> r) & 1u64 == 1u64,
    ensures
        ((x ^ (1u64 << r)) >> s) & 1u64 == 1u64 <==> ((x >> s) & 1u64 == 1u64 && s != r),
{
}

/// The squares of an intersection are those in both sets; of a complement, those not in it.
pub proof fn lemma_and_not_bits(x: u64, y: u64, s: u64)
    by (bit_vector)
    requires
        s < 64,
    ensures
        ((x & y) >> s) & 1u64 == 1u64 <==> ((x >> s) & 1u64 == 1u64 && (y >> s) & 1u64 == 1u64),
        ((!y) >> s) & 1u64 == 1u64 <==> !((y >> s) & 1u64 == 1u64),
        (0u64 >> s) & 1u64 != 1u64,
{
}

/// Adds one move with flag `flag` from `from` to each square of `set`, lowest square first.
fn push_set(from: Square, set: Bitboard, flag: MoveFlag, moves: &mut MoveList)
    requires
        from@ < 64,
    ensures
        adds(
            old(moves)@,
            final(moves)@,
            |m: Move|
                m.canonical() && m.from_index() == from@ && bit_set(set.0, m.to_index() as int)
                    && m.flag_of() == flag,
        ),
{
    let ghost start = moves@;
    let mut rem = set;
    proof {
        lemma_adds_none(start, |m: Move| false);
    }
    while !rem.is_empty()
        invariant
            from@ < 64,
            adds(
                start,
                moves@,
                |m: Move|
                    m.canonical() && m.from_index() == from@ && bit_set(set.0, m.to_index() as int)
                        && !bit_set(rem.0, m.to_index() as int) && m.flag_of() == flag,
            ),
            forall|s: int| #[trigger] bit_set(rem.0, s) ==> bit_set(set.0, s),
        decreases rem.0,
    {
        let ghost before = moves@;
        let ghost old_rem = rem.0;
        let to = rem.pop_lsb();
        let mv = Move::new(from, to, flag);
        proof {
            let p = |m: Move|
                m.canonical() && m.from_index() == from@ && bit_set(set.0, m.to_index() as int)
                    && !bit_set(old_rem, m.to_index() as int) && m.flag_of() == flag;
            let q = |m: Move|
                m.canonical() && m.from_index() == from@ && bit_set(set.0, m.to_index() as int)
                    && !bit_set(rem.0, m.to_index() as int) && m.flag_of() == flag;
            assert forall|s: int| 0 <= s < 64 implies (#[trigger] bit_set(rem.0, s) <==> (bit_set(
                old_rem,
                s,
            ) && s != to@)) by {
                lemma_pop_bit(old_rem, to@ as u64, s as u64);
            }
            assert forall|m: Move| #[trigger] q(m) <==> (p(m) || m == mv) by {
                Move::lemma_indices(m);
                if m.canonical() && m.from_index() == from@ && m.to_index() == to@
                    && m.flag_of() == flag {
                    Move::lemma_canonical_eq(m, mv);
                }
            }
            lemma_adds_push(start, before, mv, p, q);
        }
        moves.push(mv);
    }
    proof {
        assert forall|s: int| 0 <= s < 64 implies !#[trigger] bit_set(rem.0, s) by {
            lemma_and_not_bits(0, 0, s as u64);
        }
        assert forall|m: Move|
            (m.canonical() && m.from_index() == from@ && bit_set(set.0, m.to_index() as int)
                && !bit_set(rem.0, m.to_index() as int) && m.flag_of() == flag) <==> (m.canonical()
                && m.from_index() == from@ && bit_set(set.0, m.to_index() as int) && m.flag_of()
                == flag) by {
            Move::lemma_indices(m);
        }
    }
}


/// A square of a shifted set came from the square one step back, inside the board.
pub proof fn lemma_shift_bits(x: u64, s: u64)
    by (bit_vector)
    requires
        s < 64,
    ensures
        ((x << 8u64) >> s) & 1u64 == 1u64 ==> s >= 8 && (x >> ((s - 8) as u64)) & 1u64 == 1u64,
        ((x >> 8u64) >> s) & 1u64 == 1u64 ==> s < 56 && (x >> ((s + 8) as u64)) & 1u64 == 1u64,
        (((x & !types::FILE_H) << 9u64) >> s) & 1u64 == 1u64 ==> s >= 9 && (x >> ((s - 9) as u64))
            & 1u64 == 1u64,
        (((x & !types::FILE_A) << 7u64) >> s) & 1u64 == 1u64 ==> s >= 7 && (x >> ((s - 7) as u64))
            & 1u64 == 1u64,
        (((x & !types::FILE_H) >> 7u64) >> s) & 1u64 == 1u64 ==> s < 57 && (x >> ((s + 7) as u64))
            & 1u64 == 1u64,
        (((x & !types::FILE_A) >> 9u64) >> s) & 1u64 == 1u64 ==> s < 55 && (x >> ((s + 9) as u64))
            & 1u64 == 1u64,
{
}

/// The step that takes a pawn of `c` forward, and the steps that take it diagonally forward
/// to the left and to the right as white sees the board.
pub open spec fn up_dir(c: Colour) -> Direction {
    if c == Colour::White {
        Direction::North
    } else {
        Direction::South
    }
}

pub open spec fn up_left_dir(c: Colour) -> Direction {
    if c == Colour::White {
        Direction::NorthWest
    } else {
        Direction::SouthEast
    }
}

pub open spec fn up_right_dir(c: Colour) -> Direction {
    if c == Colour::White {
        Direction::NorthEast
    } else {
        Direction::SouthWest
    }
}

/// Every square of a set shifted in a pawn direction of `c` has its source square on the board.
proof fn lemma_pawn_shift(x: u64, c: Colour, s: int)
    requires
        0 <= s < 64,
    ensures
        bit_set(shift_spec(x, up_dir(c)), s) ==> 0 <= s - up_dir(c).offset() < 64,
        bit_set(shift_spec(x, up_left_dir(c)), s) ==> 0 <= s - up_left_dir(c).offset() < 64,
        bit_set(shift_spec(x, up_right_dir(c)), s) ==> 0 <= s - up_right_dir(c).offset() < 64,
{
    lemma_shift_bits(x, s as u64);
}

/// The ranks seventh, fifth and third from `c`'s side.
pub open spec fn rank7_of(c: Colour) -> u64 {
    if c == Colour::White {
        types::RANK_7
    } else {
        types::RANK_2
    }
}

pub open spec fn rank5_of(c: Colour) -> u64 {
    if c == Colour::White {
        types::RANK_5
    } else {
        types::RANK_4
    }
}

pub open spec fn rank3_of(c: Colour) -> u64 {
    if c == Colour::White {
        types::RANK_3
    } else {
        types::RANK_6
    }
}

/// Adds, for each square `to` of `targets` (lowest first), the move with flag `flag` from the
/// square `offset` behind it; the set is emptied.
fn push_pawn_moves(offset: i8, targets: &mut Bitboard, flag: MoveFlag, moves: &mut MoveList)
    requires
        forall|s: int| #[trigger] bit_set(old(targets).0, s) ==> 0 <= s - offset < 64,
    ensures
        adds(
            old(moves)@,
            final(moves)@,
            |m: Move|
                m.canonical() && bit_set(old(targets).0, m.to_index() as int) && m.from_index()
                    == m.to_index() - offset && m.flag_of() == flag,
        ),
        final(targets).0 == 0,
{
    let ghost start = moves@;
    let ghost set = targets.0;
    proof {
        lemma_adds_none(start, |m: Move| false);
    }
    while !targets.is_empty()
        invariant
            forall|s: int| #[trigger] bit_set(set, s) ==> 0 <= s - offset < 64,
            adds(
                start,
                moves@,
                |m: Move|
                    m.canonical() && bit_set(set, m.to_index() as int) && !bit_set(
                        targets.0,
                        m.to_index() as int,
                    ) && m.from_index() == m.to_index() - offset && m.flag_of() == flag,
            ),
            forall|s: int| #[trigger] bit_set(targets.0, s) ==> bit_set(set, s),
        decreases targets.0,
    {
        let ghost before = moves@;
        let ghost old_rem = targets.0;
        let to = targets.pop_lsb();
        assert(bit_set(set, to@ as int));
        let from = Square::new((to.u8() as i8 - offset) as u8);
        let mv = Move::new(from, to, flag);
        proof {
            let p = |m: Move|
                m.canonical() && bit_set(set, m.to_index() as int) && !bit_set(
                    old_rem,
                    m.to_index() as int,
                ) && m.from_index() == m.to_index() - offset && m.flag_of() == flag;
            let q = |m: Move|
                m.canonical() && bit_set(set, m.to_index() as int) && !bit_set(
                    targets.0,
                    m.to_index() as int,
                ) && m.from_index() == m.to_index() - offset && m.flag_of() == flag;
            assert forall|s: int| 0 <= s < 64 implies (#[trigger] bit_set(targets.0, s) <==> (
            bit_set(old_rem, s) && s != to@)) by {
                lemma_pop_bit(old_rem, to@ as u64, s as u64);
            }
            assert forall|m: Move| #[trigger] q(m) <==> (p(m) || m == mv) by {
                Move::lemma_indices(m);
                if m.canonical() && m.to_index() == to@ && m.from_index() == m.to_index() - offset
                    && m.flag_of() == flag {
                    Move::lemma_canonical_eq(m, mv);
                }
            }
            lemma_adds_push(start, before, mv, p, q);
        }
        moves.push(mv);
    }
    proof {
        assert forall|s: int| 0 <= s < 64 implies !#[trigger] bit_set(targets.0, s) by {
            lemma_and_not_bits(0, 0, s as u64);
        }
        assert forall|m: Move|
            (m.canonical() && bit_set(set, m.to_index() as int) && !bit_set(
                targets.0,
                m.to_index() as int,
            ) && m.from_index() == m.to_index() - offset && m.flag_of() == flag) <==> (
            m.canonical() && bit_set(set, m.to_index() as int) && m.from_index() == m.to_index()
                - offset && m.flag_of() == flag) by {
            Move::lemma_indices(m);
        }
    }
}

/// Adds the captures and the quiet moves (as far as `mode` includes them) of the piece on
/// `from` to the squares of `targets`; see `step_move`.
fn push_moves(from: Square, targets: Bitboard, opp_occ: Bitboard, moves: &mut MoveList, mode: GenType)
    requires
        from@ < 64,
    ensures
        adds(
            old(moves)@,
            final(moves)@,
            |m: Move| step_move(from@ as int, targets.0, opp_occ.0, mode, m),
        ),
{
    let ghost a = moves@;
    let ghost pc = |m: Move|
        m.canonical() && m.from_index() == from@ && bit_set(targets.0 & opp_occ.0, m.to_index() as int)
            && m.flag_of() == MoveFlag::Capture;
    let ghost pq = |m: Move|
        m.canonical() && m.from_index() == from@ && bit_set(
            targets.0 & !opp_occ.0,
            m.to_index() as int,
        ) && m.flag_of() == MoveFlag::Quiet;
    let ghost cap = with_captures(mode);
    let ghost qui = with_quiets(mode);
    if mode == GenType::All || mode == GenType::Noisy || mode == GenType::Evasions {
        push_set(from, targets & opp_occ, MoveFlag::Capture, moves);
    } else {
        proof {
            lemma_adds_none(a, |m: Move| false);
        }
    }
    let ghost b = moves@;
    if mode == GenType::All || mode == GenType::Quiets || mode == GenType::Evasions {
        push_set(from, targets & Bitboard::new(!opp_occ.0), MoveFlag::Quiet, moves);
    } else {
        proof {
            lemma_adds_none(b, |m: Move| false);
        }
    }
    proof {
        let p1 = |m: Move| cap && pc(m);
        let p2 = |m: Move| qui && pq(m);
        assert forall|m: Move| #[trigger] p1(m) <==> (cap && pc(m)) by {}
        let target = |m: Move| step_move(from@ as int, targets.0, opp_occ.0, mode, m);
        assert forall|m: Move| #[trigger] target(m) <==> (p1(m) || p2(m)) by {
            Move::lemma_indices(m);
            lemma_and_not_bits(targets.0, opp_occ.0, m.to_index() as u64);
            lemma_and_not_bits(targets.0, !opp_occ.0, m.to_index() as u64);
        }
        lemma_adds_trans(a, b, moves@, p1, p2, target);
    }
}


/// The squares a checking piece can be taken on or blocked on when the side to move is in
/// check from the lowest square of `checkers`.
pub open spec fn evasion_spec(pos: Position) -> u64 {
    evasion_mask_spec(
        pos.king_sq(pos.side_to_move)@ as int,
        u64_trailing_zeros(pos.checkers.0) as int,
    )
}

/// The target set `t`, cut down to the evasion squares when generating evasions.
pub open spec fn masked(pos: Position, mode: GenType, t: u64) -> u64 {
    if mode == GenType::Evasions {
        t & evasion_spec(pos)
    } else {
        t
    }
}

/// What generating evasions needs: the king on the board and a piece giving check.
pub open spec fn evasions_ok(pos: Position, mode: GenType) -> bool {
    mode == GenType::Evasions ==> pos.king_sq(pos.side_to_move)@ < 64 && pos.checkers.0 != 0
}

/// The evasion squares for the lowest checker.
fn get_evasion_mask(pos: &Position, bbs: &Bitboards) -> (r: Bitboard)
    requires
        bbs.wf(),
        pos.king_sq(pos.side_to_move)@ < 64,
        pos.checkers.0 != 0,
    ensures
        r.0 == evasion_spec(*pos),
{
    let us = pos.side_to_move;
    let king_sq = pos.king_square(us);
    let checker_sq = pos.checkers.lsb();
    bbs.evasion_mask(king_sq, checker_sq)
}

/// How a piece moves: like a knight, along diagonals, or along ranks and files.
#[derive(Copy, Clone, PartialEq, Eq, Structural)]
pub enum Reach {
    Knight,
    Diagonal,
    Straight,
}

/// The squares a piece moving like `kind` on `from` attacks, given the occupied squares `occ`.
pub open spec fn reach_spec(kind: Reach, from: int, occ: u64) -> u64 {
    match kind {
        Reach::Knight => knight_attacks_spec(from),
        Reach::Diagonal => bishop_attacks_spec(from, occ),
        Reach::Straight => rook_attacks_spec(from, occ),
    }
}

fn reach(bbs: &Bitboards, kind: Reach, from: Square, occ: Bitboard) -> (r: Bitboard)
    requires
        bbs.wf(),
        from@ < 64,
    ensures
        r.0 == reach_spec(kind, from@ as int, occ.0),
{
    match kind {
        Reach::Knight => bbs.knight_attacks(from),
        Reach::Diagonal => bbs.bishop_attacks(from, occ),
        Reach::Straight => bbs.rook_attacks(from, occ),
    }
}

/// A move of a piece of `pieces` moving like `kind`: to a square it attacks that our pieces do
/// not hold (and that parries the check, when evading); see `step_move`.
pub open spec fn reach_move(pos: Position, mode: GenType, pieces: u64, kind: Reach, m: Move) -> bool {
    let us = pos.side_to_move;
    let from = m.from_index() as int;
    &&& bit_set(pieces, from)
    &&& step_move(
        from,
        masked(pos, mode, reach_spec(kind, from, pos.all_bb()) & !pos.occ_bb(us)),
        pos.occ_bb(us.other()),
        mode,
        m,
    )
}

/// Adds the moves of the pieces of `pieces` moving like `kind`, lowest square first.
fn generate_from_set(
    pos: &Position,
    bbs: &Bitboards,
    moves: &mut MoveList,
    mode: GenType,
    pieces: Bitboard,
    kind: Reach,
)
    requires
        bbs.wf(),
        evasions_ok(*pos, mode),
    ensures
        adds(old(moves)@, final(moves)@, |m: Move| reach_move(*pos, mode, pieces.0, kind, m)),
{
    let ghost start = moves@;
    let us = pos.side_to_move;
    let them = us.opposite();
    let own_occ = pos.occupancy[us.idx()];
    let opp_occ = pos.occupancy[them.idx()];
    let all_occ = pos.occupancy[2];
    let mut rem = pieces;
    proof {
        lemma_adds_none(start, |m: Move| false);
    }
    while !rem.is_empty()
        invariant
            bbs.wf(),
            evasions_ok(*pos, mode),
            us == pos.side_to_move,
            own_occ.0 == pos.occ_bb(us),
            opp_occ.0 == pos.occ_bb(us.other()),
            all_occ.0 == pos.all_bb(),
            adds(
                start,
                moves@,
                |m: Move|
                    reach_move(*pos, mode, pieces.0, kind, m) && !bit_set(
                        rem.0,
                        m.from_index() as int,
                    ),
            ),
            forall|s: int| #[trigger] bit_set(rem.0, s) ==> bit_set(pieces.0, s),
        decreases rem.0,
    {
        let ghost before = moves@;
        let ghost old_rem = rem.0;
        let from = rem.pop_lsb();
        let mut targets = reach(bbs, kind, from, all_occ) & Bitboard::new(!own_occ.0);
        if mode == GenType::Evasions {
            let evasion_mask = get_evasion_mask(pos, bbs);
            targets = targets & evasion_mask;
        }
        push_moves(from, targets, opp_occ, moves, mode);
        proof {
            let p = |m: Move|
                reach_move(*pos, mode, pieces.0, kind, m) && !bit_set(
                    old_rem,
                    m.from_index() as int,
                );
            let q = |m: Move| step_move(from@ as int, targets.0, opp_occ.0, mode, m);
            let r = |m: Move|
                reach_move(*pos, mode, pieces.0, kind, m) && !bit_set(
                    rem.0,
                    m.from_index() as int,
                );
            assert forall|s: int| 0 <= s < 64 implies (#[trigger] bit_set(rem.0, s) <==> (bit_set(
                old_rem,
                s,
            ) && s != from@)) by {
                lemma_pop_bit(old_rem, from@ as u64, s as u64);
            }
            assert forall|m: Move| #[trigger] r(m) <==> (p(m) || q(m)) by {
                Move::lemma_indices(m);
            }
            assert forall|m: Move| !(#[trigger] p(m) && q(m)) by {}
            lemma_adds_trans(start, before, moves@, p, q, r);
        }
    }
    proof {
        assert forall|s: int| 0 <= s < 64 implies !#[trigger] bit_set(rem.0, s) by {
            lemma_and_not_bits(0, 0, s as u64);
        }
        assert forall|m: Move|
            (reach_move(*pos, mode, pieces.0, kind, m) && !bit_set(rem.0, m.from_index() as int))
                <==> reach_move(*pos, mode, pieces.0, kind, m) by {
            Move::lemma_indices(m);
        }
    }
}

/// Adds the knight moves of the side to move.
pub fn generate_knight_moves(pos: &Position, bbs: &Bitboards, moves: &mut MoveList, mode: GenType)
    requires
        bbs.wf(),
        evasions_ok(*pos, mode),
    ensures
        adds(
            old(moves)@,
            final(moves)@,
            |m: Move|
                reach_move(
                    *pos,
                    mode,
                    pos.piece_bb(pos.side_to_move, Piece::Knight),
                    Reach::Knight,
                    m,
                ),
        ),
{
    let us = pos.side_to_move;
    let knights = pos.pieces[us.idx()][Piece::Knight.idx()];
    generate_from_set(pos, bbs, moves, mode, knights, Reach::Knight);
}

/// Adds the diagonal moves of the bishops and queens of the side to move.
pub fn generate_bishop_slider_moves(
    pos: &Position,
    bbs: &Bitboards,
    moves: &mut MoveList,
    mode: GenType,
)
    requires
        bbs.wf(),
        evasions_ok(*pos, mode),
    ensures
        adds(
            old(moves)@,
            final(moves)@,
            |m: Move|
                reach_move(
                    *pos,
                    mode,
                    pos.piece_bb(pos.side_to_move, Piece::Bishop) | pos.piece_bb(
                        pos.side_to_move,
                        Piece::Queen,
                    ),
                    Reach::Diagonal,
                    m,
                ),
        ),
{
    let sliders = pos.bishop_sliders(pos.side_to_move);
    generate_from_set(pos, bbs, moves, mode, sliders, Reach::Diagonal);
}

/// Adds the rank and file moves of the rooks and queens of the side to move.
pub fn generate_rook_slider_moves(
    pos: &Position,
    bbs: &Bitboards,
    moves: &mut MoveList,
    mode: GenType,
)
    requires
        bbs.wf(),
        evasions_ok(*pos, mode),
    ensures
        adds(
            old(moves)@,
            final(moves)@,
            |m: Move|
                reach_move(
                    *pos,
                    mode,
                    pos.piece_bb(pos.side_to_move, Piece::Rook) | pos.piece_bb(
                        pos.side_to_move,
                        Piece::Queen,
                    ),
                    Reach::Straight,
                    m,
                ),
        ),
{
    let sliders = pos.rook_sliders(pos.side_to_move);
    generate_from_set(pos, bbs, moves, mode, sliders, Reach::Straight);
}

/// A king step of the side to move: to a neighbouring square our pieces do not hold.
pub open spec fn king_step_move(pos: Position, mode: GenType, m: Move) -> bool {
    let us = pos.side_to_move;
    let k = pos.king_sq(us)@ as int;
    step_move(k, king_attacks_spec(k) & !pos.occ_bb(us), pos.occ_bb(us.other()), mode, m)
}

/// The kingside and queenside castling rights of `c`.
pub open spec fn ks_right(c: Colour) -> Castling {
    if c == Colour::White {
        Castling::WHITE_OO
    } else {
        Castling::BLACK_OO
    }
}

pub open spec fn qs_right(c: Colour) -> Castling {
    if c == Colour::White {
        Castling::WHITE_OOO
    } else {
        Castling::BLACK_OOO
    }
}

/// Whether the right `right` is held and nothing stands on the squares between king and rook.
pub open spec fn castle_open(pos: Position, right: Castling) -> bool {
    &&& (pos.castling_rights@ as u8) & (right@ as u8) == (right@ as u8)
    &&& pos.all_bb() & castling_path(right@) == 0
}

/// A castle of the side to move: two squares towards the rook on a side whose right is held
/// and whose path is clear.
pub open spec fn castle_move(pos: Position, m: Move) -> bool {
    let us = pos.side_to_move;
    let k = pos.king_sq(us)@ as int;
    &&& m.canonical()
    &&& m.from_index() == k
    &&& ((castle_open(pos, ks_right(us)) && m.to_index() == k + 2 && m.flag_of()
        == MoveFlag::KingCastle) || (castle_open(pos, qs_right(us)) && m.to_index() == k - 2
        && m.flag_of() == MoveFlag::QueenCastle))
}

/// What castling needs to name its destination: a king on the board with room for the step.
pub open spec fn castling_ok(pos: Position) -> bool {
    let us = pos.side_to_move;
    let k = pos.king_sq(us)@;
    &&& k < 64
    &&& castle_open(pos, ks_right(us)) ==> k + 2 < 64
    &&& castle_open(pos, qs_right(us)) ==> k >= 2
}

/// Adds the castle of the king on `king_square` towards `ct`.
fn push_castling(king_square: Square, ct: CastlingType, moves: &mut MoveList)
    requires
        ct == CastlingType::Kingside ==> king_square@ + 2 < 64,
        ct == CastlingType::Queenside ==> 2 <= king_square@ < 64,
    ensures
        final(moves)@ == old(moves)@.push(
            final(moves)@.last(),
        ),
        final(moves)@.len() == old(moves)@.len() + 1,
        final(moves)@.last().canonical(),
        final(moves)@.last().from_index() == king_square@,
        ct == CastlingType::Kingside ==> final(moves)@.last().to_index() == king_square@ + 2
            && final(moves)@.last().flag_of() == MoveFlag::KingCastle,
        ct == CastlingType::Queenside ==> final(moves)@.last().to_index() == king_square@ - 2
            && final(moves)@.last().flag_of() == MoveFlag::QueenCastle,
{
    let mv = match ct {
        CastlingType::Kingside => Move::new(
            king_square,
            Square::new(king_square.u8() + 2),
            MoveFlag::KingCastle,
        ),
        CastlingType::Queenside => Move::new(
            king_square,
            Square::new(king_square.u8() - 2),
            MoveFlag::QueenCastle,
        ),
    };
    moves.push(mv);
}

/// Adds the king steps of the side to move.
fn generate_king_step_moves(pos: &Position, bbs: &Bitboards, moves: &mut MoveList, mode: GenType)
    requires
        bbs.wf(),
        pos.king_sq(pos.side_to_move)@ < 64,
    ensures
        adds(old(moves)@, final(moves)@, |m: Move| king_step_move(*pos, mode, m)),
{
    let us = pos.side_to_move;
    let them = us.opposite();
    let own_occ = pos.occupancy[us.idx()];
    let opp_occ = pos.occupancy[them.idx()];
    let king_square = pos.king_square(us);

    // Every square the king attacks that our pieces do not hold
    let targets = bbs.king_attacks(king_square) & Bitboard::new(!own_occ.0);
    push_moves(king_square, targets, opp_occ, moves, mode);
}

/// Adds the castles of the side to move whose right is held and whose path is clear.
fn generate_castling_moves(pos: &Position, moves: &mut MoveList)
    requires
        castling_ok(*pos),
    ensures
        adds(old(moves)@, final(moves)@, |m: Move| castle_move(*pos, m)),
{
    let ghost start = moves@;
    let us = pos.side_to_move;
    let king_square = pos.king_square(us);
    let ghost k = king_square@ as int;

    let (ks, qs) = match us {
        Colour::White => (Castling::WHITE_OO, Castling::WHITE_OOO),
        Colour::Black => (Castling::BLACK_OO, Castling::BLACK_OOO),
    };
    let ghost pk = |m: Move|
        castle_open(*pos, ks) && m.canonical() && m.from_index() == k && m.to_index() == k + 2
            && m.flag_of() == MoveFlag::KingCastle;
    let ghost pq = |m: Move|
        castle_open(*pos, qs) && m.canonical() && m.from_index() == k && m.to_index() == k - 2
            && m.flag_of() == MoveFlag::QueenCastle;

    if pos.can_castle(ks) && !pos.castling_impeded(ks) {
        let ghost before = moves@;
        push_castling(king_square, CastlingType::Kingside, moves);
        proof {
            let mv = moves@.last();
            assert(moves@ == before.push(mv));
            lemma_adds_none(start, |m: Move| false);
            assert forall|m: Move| #[trigger] pk(m) <==> (false || m == mv) by {
                if pk(m) {
                    Move::lemma_canonical_eq(m, mv);
                }
            }
            lemma_adds_push(start, before, mv, |m: Move| false, pk);
        }
    } else {
        proof {
            lemma_adds_none(start, pk);
        }
    }
    let ghost mid = moves@;
    if pos.can_castle(qs) && !pos.castling_impeded(qs) {
        let ghost before = moves@;
        push_castling(king_square, CastlingType::Queenside, moves);
        proof {
            let mv = moves@.last();
            assert(moves@ == before.push(mv));
            lemma_adds_none(mid, |m: Move| false);
            assert forall|m: Move| #[trigger] pq(m) <==> (false || m == mv) by {
                if pq(m) {
                    Move::lemma_canonical_eq(m, mv);
                }
            }
            lemma_adds_push(mid, before, mv, |m: Move| false, pq);
        }
    } else {
        proof {
            lemma_adds_none(mid, pq);
        }
    }
    proof {
        assert forall|m: Move| !(#[trigger] pk(m) && pq(m)) by {}
        assert forall|m: Move| #[trigger] castle_move(*pos, m) <==> (pk(m) || pq(m)) by {}
        lemma_adds_trans(start, mid, moves@, pk, pq, |m: Move| castle_move(*pos, m));
    }
}

/// The board without the king of the side to move: what an enemy slider sees through it.
pub open spec fn occ_without_king(pos: Position) -> u64 {
    pos.all_bb() & !(1u64 << (pos.king_sq(pos.side_to_move)@ as u64))
}

/// A king step of `mode` to a square that no enemy piece attacks once the king has left its
/// square.
pub open spec fn safe_king_step(pos: Position, mode: GenType, m: Move) -> bool {
    &&& king_step_move(pos, mode, m)
    &&& pos.attackers_spec(m.to_index() as int, occ_without_king(pos)) == 0
}

/// The king moves of `mode`: for all moves, every step and the castles; for captures, every
/// capturing step; for quiet moves and evasions, only the steps to unattacked squares, with the
/// castles among the quiet moves and both captures and quiet steps when evading.
pub open spec fn king_move(pos: Position, mode: GenType, m: Move) -> bool {
    match mode {
        GenType::All => king_step_move(pos, GenType::All, m) || castle_move(pos, m),
        GenType::Noisy => king_step_move(pos, GenType::Noisy, m),
        GenType::Quiets => safe_king_step(pos, GenType::Quiets, m) || castle_move(pos, m),
        GenType::Evasions => safe_king_step(pos, GenType::All, m),
    }
}

/// The squares of `targets` that no enemy piece attacks with occupancy `occ`.
fn unattacked(pos: &Position, bbs: &Bitboards, targets: Bitboard, occ: Bitboard) -> (r: Bitboard)
    requires
        bbs.wf(),
    ensures
        forall|s: int|
            0 <= s < 64 ==> (#[trigger] bit_set(r.0, s) <==> (bit_set(targets.0, s)
                && pos.attackers_spec(s, occ.0) == 0)),
{
    let mut safe = targets;
    let mut rem = targets;
    while !rem.is_empty()
        invariant
            bbs.wf(),
            forall|s: int| 0 <= s < 64 ==> (#[trigger] bit_set(rem.0, s) ==> bit_set(targets.0, s)),
            forall|s: int|
                0 <= s < 64 ==> (#[trigger] bit_set(safe.0, s) <==> (bit_set(targets.0, s) && (
                bit_set(rem.0, s) || pos.attackers_spec(s, occ.0) == 0))),
        decreases rem.0,
    {
        let ghost old_rem = rem.0;
        let ghost old_safe = safe.0;
        let to = rem.pop_lsb();
        let attacked = pos.attackers_to_exist(to, occ, bbs);
        if attacked {
            safe = Bitboard::new(safe.0 ^ (1u64 << to.u8()));
        }
        proof {
            assert forall|s: int| 0 <= s < 64 implies (#[trigger] bit_set(rem.0, s) <==> (bit_set(
                old_rem,
                s,
            ) && s != to@)) by {
                lemma_pop_bit(old_rem, to@ as u64, s as u64);
            }
            if attacked {
                assert(bit_set(old_safe, to@ as int));
                assert forall|s: int| 0 <= s < 64 implies (#[trigger] bit_set(safe.0, s) <==> (
                bit_set(old_safe, s) && s != to@)) by {
                    lemma_pop_bit(old_safe, to@ as u64, s as u64);
                }
            }
        }
    }
    proof {
        assert forall|s: int| 0 <= s < 64 implies !#[trigger] bit_set(rem.0, s) by {
            lemma_and_not_bits(0, 0, s as u64);
        }
    }
    safe
}

/// Adds the king steps of `mode` to unattacked squares; see `safe_king_step`.
fn generate_safe_king_steps(pos: &Position, bbs: &Bitboards, moves: &mut MoveList, mode: GenType)
    requires
        bbs.wf(),
        pos.king_sq(pos.side_to_move)@ < 64,
    ensures
        adds(old(moves)@, final(moves)@, |m: Move| safe_king_step(*pos, mode, m)),
{
    let us = pos.side_to_move;
    let them = us.opposite();
    let own_occ = pos.occupancy[us.idx()];
    let opp_occ = pos.occupancy[them.idx()];
    let king_square = pos.king_square(us);
    let occ = pos.occupancy[2] & Bitboard::new(!(1u64 << king_square.u8()));
    let targets = bbs.king_attacks(king_square) & Bitboard::new(!own_occ.0);
    let safe = unattacked(pos, bbs, targets, occ);
    let ghost a = moves@;
    push_moves(king_square, safe, opp_occ, moves, mode);
    proof {
        let k = king_square@ as int;
        assert forall|m: Move|
            #[trigger] step_move(k, safe.0, opp_occ.0, mode, m) <==> safe_king_step(*pos, mode, m) by {
            Move::lemma_indices(m);
            if m.canonical() {
                assert(bit_set(safe.0, m.to_index() as int) <==> (bit_set(
                    targets.0,
                    m.to_index() as int,
                ) && pos.attackers_spec(m.to_index() as int, occ.0) == 0));
            }
        }
        lemma_adds_none(a, |m: Move| false);
        lemma_adds_trans(
            a,
            a,
            moves@,
            |m: Move| false,
            |m: Move| step_move(k, safe.0, opp_occ.0, mode, m),
            |m: Move| safe_king_step(*pos, mode, m),
        );
    }
}

/// Adds the king moves of the side to move; see `king_move`.
pub fn generate_king_moves(pos: &Position, bbs: &Bitboards, moves: &mut MoveList, mode: GenType)
    requires
        bbs.wf(),
        pos.king_sq(pos.side_to_move)@ < 64,
        mode == GenType::All || mode == GenType::Quiets ==> castling_ok(*pos),
    ensures
        adds(old(moves)@, final(moves)@, |m: Move| king_move(*pos, mode, m)),
{
    let ghost a = moves@;
    match mode {
        GenType::All => {
            generate_king_step_moves(pos, bbs, moves, GenType::All);
            let ghost b = moves@;
            generate_castling_moves(pos, moves);
            proof {
                lemma_adds_trans(
                    a,
                    b,
                    moves@,
                    |m: Move| king_step_move(*pos, GenType::All, m),
                    |m: Move| castle_move(*pos, m),
                    |m: Move| king_move(*pos, mode, m),
                );
            }
        },
        GenType::Noisy => {
            generate_king_step_moves(pos, bbs, moves, GenType::Noisy);
        },
        GenType::Quiets => {
            generate_safe_king_steps(pos, bbs, moves, GenType::Quiets);
            let ghost b = moves@;
            generate_castling_moves(pos, moves);
            proof {
                lemma_adds_trans(
                    a,
                    b,
                    moves@,
                    |m: Move| safe_king_step(*pos, GenType::Quiets, m),
                    |m: Move| castle_move(*pos, m),
                    |m: Move| king_move(*pos, mode, m),
                );
            }
        },
        GenType::Evasions => {
            generate_safe_king_steps(pos, bbs, moves, GenType::All);
        },
    }
}

/// The pawns of the side to move.
pub open spec fn our_pawns(pos: Position) -> u64 {
    pos.piece_bb(pos.side_to_move, Piece::Pawn)
}

/// Whether `m` goes from the square one step `d` behind its destination.
pub open spec fn from_behind(m: Move, d: Direction) -> bool {
    m.from_index() == m.to_index() - d.offset()
}

/// The destinations of single and double pawn pushes (not onto the last rank).
pub open spec fn push1_set(pos: Position, mode: GenType) -> u64 {
    let us = pos.side_to_move;
    masked(
        pos,
        mode,
        shift_spec(our_pawns(pos) & !rank7_of(us), up_dir(us)) & !pos.all_bb(),
    )
}

pub open spec fn push2_set(pos: Position, mode: GenType) -> u64 {
    let us = pos.side_to_move;
    let one = shift_spec(our_pawns(pos) & !rank7_of(us), up_dir(us)) & !pos.all_bb();
    masked(pos, mode, shift_spec(one & rank3_of(us), up_dir(us)) & !pos.all_bb())
}

/// The destinations of pawn captures in direction `d` (not onto the last rank).
pub open spec fn capture_set(pos: Position, mode: GenType, d: Direction) -> u64 {
    let us = pos.side_to_move;
    masked(pos, mode, shift_spec(our_pawns(pos) & !rank7_of(us), d) & pos.occ_bb(us.other()))
}

/// The destinations of promotions in direction `d` onto the squares of `onto`.
pub open spec fn promo_set(pos: Position, mode: GenType, d: Direction, onto: u64) -> u64 {
    let us = pos.side_to_move;
    masked(pos, mode, shift_spec(our_pawns(pos) & rank7_of(us), d) & onto)
}

/// A single or double pawn push.
pub open spec fn push_move(pos: Position, mode: GenType, m: Move) -> bool {
    let up = up_dir(pos.side_to_move);
    &&& m.canonical()
    &&& ((bit_set(push1_set(pos, mode), m.to_index() as int) && from_behind(m, up) && m.flag_of()
        == MoveFlag::Quiet) || (bit_set(push2_set(pos, mode), m.to_index() as int)
        && m.from_index() == m.to_index() - 2 * up.offset() && m.flag_of()
        == MoveFlag::DoublePush))
}

/// A pawn capture that does not promote.
pub open spec fn pawn_capture_move(pos: Position, mode: GenType, m: Move) -> bool {
    let us = pos.side_to_move;
    &&& m.canonical()
    &&& m.flag_of() == MoveFlag::Capture
    &&& ((bit_set(capture_set(pos, mode, up_left_dir(us)), m.to_index() as int) && from_behind(
        m,
        up_left_dir(us),
    )) || (bit_set(capture_set(pos, mode, up_right_dir(us)), m.to_index() as int)
        && from_behind(m, up_right_dir(us))))
}

/// The flags of promotions that do not capture, and of those that do.
pub open spec fn quiet_promo_flag(f: MoveFlag) -> bool {
    f == MoveFlag::PromoQ || f == MoveFlag::PromoN || f == MoveFlag::PromoR || f == MoveFlag::PromoB
}

pub open spec fn capture_promo_flag(f: MoveFlag) -> bool {
    f == MoveFlag::PromoCaptureQ || f == MoveFlag::PromoCaptureN || f == MoveFlag::PromoCaptureR
        || f == MoveFlag::PromoCaptureB
}

/// A promotion, by a push or a capture, to any of the four pieces.
pub open spec fn promotion_move(pos: Position, mode: GenType, m: Move) -> bool {
    let us = pos.side_to_move;
    &&& m.canonical()
    &&& our_pawns(pos) & rank7_of(us) != 0
    &&& ((bit_set(promo_set(pos, mode, up_dir(us), !pos.all_bb()), m.to_index() as int)
        && from_behind(m, up_dir(us)) && quiet_promo_flag(m.flag_of())) || (bit_set(
        promo_set(pos, mode, up_left_dir(us), pos.occ_bb(us.other())),
        m.to_index() as int,
    ) && from_behind(m, up_left_dir(us)) && capture_promo_flag(m.flag_of())) || (bit_set(
        promo_set(pos, mode, up_right_dir(us), pos.occ_bb(us.other())),
        m.to_index() as int,
    ) && from_behind(m, up_right_dir(us)) && capture_promo_flag(m.flag_of())))
}

/// An en passant capture onto the en passant square by a pawn on the fifth rank beside it.
pub open spec fn ep_move(pos: Position, m: Move) -> bool {
    let us = pos.side_to_move;
    let ep = pos.ep_square@;
    &&& ep < 64
    &&& m.canonical()
    &&& m.to_index() == ep
    &&& m.flag_of() == MoveFlag::EpCapture
    &&& bit_set(
        our_pawns(pos) & rank5_of(us) & pawn_attacks_spec(1u64 << (ep as u64), us.other()),
        m.from_index() as int,
    )
}

/// Adds, for each square of `set` (lowest first), the four promotions (queen, knight, rook,
/// bishop) from the square `offset` behind it; captures when `is_capture`.
fn push_promotion_set(offset: i8, set: Bitboard, is_capture: bool, moves: &mut MoveList)
    requires
        forall|s: int| #[trigger] bit_set(set.0, s) ==> 0 <= s - offset < 64,
    ensures
        adds(
            old(moves)@,
            final(moves)@,
            |m: Move|
                m.canonical() && bit_set(set.0, m.to_index() as int) && m.from_index()
                    == m.to_index() - offset && (if is_capture {
                    capture_promo_flag(m.flag_of())
                } else {
                    quiet_promo_flag(m.flag_of())
                }),
        ),
{
    let ghost start = moves@;
    let ghost fp = |f: MoveFlag|
        if is_capture {
            capture_promo_flag(f)
        } else {
            quiet_promo_flag(f)
        };
    let mut rem = set;
    proof {
        lemma_adds_none(start, |m: Move| false);
    }
    while !rem.is_empty()
        invariant
            forall|s: int| #[trigger] bit_set(set.0, s) ==> 0 <= s - offset < 64,
            forall|f: MoveFlag| #[trigger]
                fp(f) == (if is_capture {
                    capture_promo_flag(f)
                } else {
                    quiet_promo_flag(f)
                }),
            adds(
                start,
                moves@,
                |m: Move|
                    m.canonical() && bit_set(set.0, m.to_index() as int) && !bit_set(
                        rem.0,
                        m.to_index() as int,
                    ) && m.from_index() == m.to_index() - offset && fp(m.flag_of()),
            ),
            forall|s: int| #[trigger] bit_set(rem.0, s) ==> bit_set(set.0, s),
        decreases rem.0,
    {
        let ghost before = moves@;
        let ghost old_rem = rem.0;
        let to = rem.pop_lsb();
        assert(bit_set(set.0, to@ as int));
        push_promotions(offset, to, is_capture, moves);
        proof {
            let p = |m: Move|
                m.canonical() && bit_set(set.0, m.to_index() as int) && !bit_set(
                    old_rem,
                    m.to_index() as int,
                ) && m.from_index() == m.to_index() - offset && fp(m.flag_of());
            let q = |m: Move|
                m.canonical() && m.to_index() == to@ && m.from_index() == to@ - offset && fp(
                    m.flag_of(),
                );
            let r = |m: Move|
                m.canonical() && bit_set(set.0, m.to_index() as int) && !bit_set(
                    rem.0,
                    m.to_index() as int,
                ) && m.from_index() == m.to_index() - offset && fp(m.flag_of());
            assert forall|s: int| 0 <= s < 64 implies (#[trigger] bit_set(rem.0, s) <==> (bit_set(
                old_rem,
                s,
            ) && s != to@)) by {
                lemma_pop_bit(old_rem, to@ as u64, s as u64);
            }
            assert forall|m: Move| #[trigger] r(m) <==> (p(m) || q(m)) by {
                Move::lemma_indices(m);
            }
            assert forall|m: Move| !(#[trigger] p(m) && q(m)) by {}
            lemma_adds_trans(start, before, moves@, p, q, r);
        }
    }
    proof {
        assert forall|s: int| 0 <= s < 64 implies !#[trigger] bit_set(rem.0, s) by {
            lemma_and_not_bits(0, 0, s as u64);
        }
        assert forall|m: Move|
            (m.canonical() && bit_set(set.0, m.to_index() as int) && !bit_set(
                rem.0,
                m.to_index() as int,
            ) && m.from_index() == m.to_index() - offset && fp(m.flag_of())) <==> (m.canonical()
                && bit_set(set.0, m.to_index() as int) && m.from_index() == m.to_index() - offset
                && fp(m.flag_of())) by {
            Move::lemma_indices(m);
        }
    }
}

/// Adds the four promotions (queen, knight, rook, bishop) onto `to` from the square `offset`
/// behind it; captures when `is_capture`.
fn push_promotions(offset: i8, to: Square, is_capture: bool, moves: &mut MoveList)
    requires
        to@ < 64,
        0 <= to@ - offset < 64,
    ensures
        adds(
            old(moves)@,
            final(moves)@,
            |m: Move|
                m.canonical() && m.to_index() == to@ && m.from_index() == to@ - offset && (
                if is_capture {
                    capture_promo_flag(m.flag_of())
                } else {
                    quiet_promo_flag(m.flag_of())
                }),
        ),
{
    let ghost start = moves@;
    let from = Square::new((to.u8() as i8 - offset) as u8);
    let (fq, fn_, fr, fb) = if is_capture {
        (
            MoveFlag::PromoCaptureQ,
            MoveFlag::PromoCaptureN,
            MoveFlag::PromoCaptureR,
            MoveFlag::PromoCaptureB,
        )
    } else {
        (MoveFlag::PromoQ, MoveFlag::PromoN, MoveFlag::PromoR, MoveFlag::PromoB)
    };
    let m1 = Move::new(from, to, fq);
    let m2 = Move::new(from, to, fn_);
    let m3 = Move::new(from, to, fr);
    let m4 = Move::new(from, to, fb);
    moves.push(m1);
    moves.push(m2);
    moves.push(m3);
    moves.push(m4);
    proof {
        let added = seq![m1, m2, m3, m4];
        assert(appended(start, moves@) =~= added);
        assert(moves@.subrange(0, start.len() as int) =~= start);
        assert forall|m: Move|
            #[trigger] added.contains(m) <==> (m.canonical() && m.to_index() == to@ && m.from_index()
                == to@ - offset && (if is_capture {
                capture_promo_flag(m.flag_of())
            } else {
                quiet_promo_flag(m.flag_of())
            })) by {
            if m.canonical() && m.to_index() == to@ && m.from_index() == to@ - offset {
                if m.flag_of() == fq {
                    Move::lemma_canonical_eq(m, m1);
                    assert(added[0] == m);
                } else if m.flag_of() == fn_ {
                    Move::lemma_canonical_eq(m, m2);
                    assert(added[1] == m);
                } else if m.flag_of() == fr {
                    Move::lemma_canonical_eq(m, m3);
                    assert(added[2] == m);
                } else if m.flag_of() == fb {
                    Move::lemma_canonical_eq(m, m4);
                    assert(added[3] == m);
                }
            }
        }
    }
}

/// The seventh, fifth and third ranks and the pawn directions of `c`, as values.
fn pawn_geometry(c: Colour) -> (r: (u64, u64, u64, Direction, Direction, Direction))
    ensures
        r.0 == rank7_of(c),
        r.1 == rank5_of(c),
        r.2 == rank3_of(c),
        r.3 == up_dir(c),
        r.4 == up_left_dir(c),
        r.5 == up_right_dir(c),
{
    if c == Colour::White {
        (
            types::RANK_7,
            types::RANK_5,
            types::RANK_3,
            Direction::North,
            Direction::NorthWest,
            Direction::NorthEast,
        )
    } else {
        (
            types::RANK_2,
            types::RANK_4,
            types::RANK_6,
            Direction::South,
            Direction::SouthEast,
            Direction::SouthWest,
        )
    }
}

/// Every square of `x & y` is a square of `x`.
proof fn lemma_and_sub(x: u64, y: u64)
    ensures
        forall|s: int| #[trigger] bit_set(x & y, s) ==> bit_set(x, s),
        forall|s: int| #[trigger] bit_set(x & y, s) ==> bit_set(y, s),
{
    assert forall|s: int| #[trigger] bit_set(x & y, s) implies bit_set(x, s) && bit_set(y, s) by {
        lemma_and_not_bits(x, y, s as u64);
    }
}

/// The target set `t` cut down to the evasion squares when evading.
fn mask_targets(pos: &Position, bbs: &Bitboards, mode: GenType, t: Bitboard) -> (r: Bitboard)
    requires
        bbs.wf(),
        evasions_ok(*pos, mode),
    ensures
        r.0 == masked(*pos, mode, t.0),
        forall|s: int| #[trigger] bit_set(r.0, s) ==> bit_set(t.0, s),
{
    if mode == GenType::Evasions {
        let evasion_mask = get_evasion_mask(pos, bbs);
        proof {
            lemma_and_sub(t.0, evasion_mask.0);
        }
        t & evasion_mask
    } else {
        t
    }
}

/// Adds the single and double pawn pushes that do not promote; see `push_move`.
pub fn generate_pawn_pushes(pos: &Position, bbs: &Bitboards, moves: &mut MoveList, mode: GenType)
    requires
        bbs.wf(),
        evasions_ok(*pos, mode),
    ensures
        adds(old(moves)@, final(moves)@, |m: Move| push_move(*pos, mode, m)),
{
    let ghost a = moves@;
    let us = pos.side_to_move;
    let all_occ = pos.occupancy[2];
    let empty_squares = Bitboard::new(!all_occ.0);
    let (rank7, _rank5, rank3, up, _ul, _ur) = pawn_geometry(us);

    let pawns = pos.pieces[us.idx()][Piece::Pawn.idx()];
    let pawns_not_on_7 = pawns & Bitboard::new(!rank7);

    let one = pawns_not_on_7.shift(up) & empty_squares;
    let two = (one & Bitboard::new(rank3)).shift(up) & empty_squares;
    let mut bb1 = mask_targets(pos, bbs, mode, one);
    let mut bb2 = mask_targets(pos, bbs, mode, two);
    proof {
        lemma_and_sub(shift_spec(pawns_not_on_7.0, up), empty_squares.0);
        lemma_and_sub(shift_spec(one.0 & rank3, up), empty_squares.0);
        lemma_and_sub(one.0, rank3);
        assert forall|s: int| #[trigger] bit_set(bb1.0, s) implies 0 <= s - up.offset() < 64 by {
            lemma_pawn_shift(pawns_not_on_7.0, us, s);
        }
        assert forall|s: int| #[trigger] bit_set(bb2.0, s) implies 0 <= s - (up.offset() + up.offset())
            < 64 by {
            lemma_pawn_shift(one.0 & rank3, us, s);
            lemma_shift_bits(one.0 & rank3, s as u64);
            let t = s - up.offset();
            assert(bit_set(two.0, s));
            assert(bit_set(shift_spec(one.0 & rank3, up), s));
            if us == Colour::White {
                assert(bit_set(one.0 & rank3, t));
            } else {
                assert(bit_set(one.0 & rank3, t));
            }
            assert(bit_set(one.0, t));
            lemma_pawn_shift(pawns_not_on_7.0, us, t);
        }
    }
    let ghost set1 = bb1.0;
    let ghost set2 = bb2.0;
    push_pawn_moves(up.value(), &mut bb1, MoveFlag::Quiet, moves);
    let ghost b = moves@;
    push_pawn_moves(up.value() + up.value(), &mut bb2, MoveFlag::DoublePush, moves);
    proof {
        let p = |m: Move|
            m.canonical() && bit_set(set1, m.to_index() as int) && m.from_index() == m.to_index()
                - up.offset() && m.flag_of() == MoveFlag::Quiet;
        let q = |m: Move|
            m.canonical() && bit_set(set2, m.to_index() as int) && m.from_index() == m.to_index()
                - (up.offset() + up.offset()) && m.flag_of() == MoveFlag::DoublePush;
        assert forall|m: Move| !(#[trigger] p(m) && q(m)) by {}
        assert forall|m: Move| #[trigger] push_move(*pos, mode, m) <==> (p(m) || q(m)) by {}
        lemma_adds_trans(a, b, moves@, p, q, |m: Move| push_move(*pos, mode, m));
    }
}

/// Adds the pawn captures that do not promote; see `pawn_capture_move`.
pub fn generate_pawn_captures(pos: &Position, bbs: &Bitboards, moves: &mut MoveList, mode: GenType)
    requires
        bbs.wf(),
        evasions_ok(*pos, mode),
    ensures
        adds(old(moves)@, final(moves)@, |m: Move| pawn_capture_move(*pos, mode, m)),
{
    let ghost a = moves@;
    let us = pos.side_to_move;
    let them = us.opposite();
    let opp_occ = pos.occupancy[them.idx()];
    let (rank7, _rank5, _rank3, _up, up_left, up_right) = pawn_geometry(us);

    let pawns = pos.pieces[us.idx()][Piece::Pawn.idx()];
    let pawns_not_on_7 = pawns & Bitboard::new(!rank7);

    let mut bb1 = mask_targets(pos, bbs, mode, pawns_not_on_7.shift(up_left) & opp_occ);
    let mut bb2 = mask_targets(pos, bbs, mode, pawns_not_on_7.shift(up_right) & opp_occ);
    proof {
        lemma_and_sub(shift_spec(pawns_not_on_7.0, up_left), opp_occ.0);
        lemma_and_sub(shift_spec(pawns_not_on_7.0, up_right), opp_occ.0);
        assert forall|s: int| #[trigger] bit_set(bb1.0, s) implies 0 <= s - up_left.offset() < 64 by {
            lemma_pawn_shift(pawns_not_on_7.0, us, s);
        }
        assert forall|s: int| #[trigger] bit_set(bb2.0, s) implies 0 <= s - up_right.offset() < 64 by {
            lemma_pawn_shift(pawns_not_on_7.0, us, s);
        }
    }
    let ghost set1 = bb1.0;
    let ghost set2 = bb2.0;
    push_pawn_moves(up_left.value(), &mut bb1, MoveFlag::Capture, moves);
    let ghost b = moves@;
    push_pawn_moves(up_right.value(), &mut bb2, MoveFlag::Capture, moves);
    proof {
        let p = |m: Move|
            m.canonical() && bit_set(set1, m.to_index() as int) && m.from_index() == m.to_index()
                - up_left.offset() && m.flag_of() == MoveFlag::Capture;
        let q = |m: Move|
            m.canonical() && bit_set(set2, m.to_index() as int) && m.from_index() == m.to_index()
                - up_right.offset() && m.flag_of() == MoveFlag::Capture;
        assert forall|m: Move| !(#[trigger] p(m) && q(m)) by {}
        assert forall|m: Move| #[trigger] pawn_capture_move(*pos, mode, m) <==> (p(m) || q(m)) by {}
        lemma_adds_trans(a, b, moves@, p, q, |m: Move| pawn_capture_move(*pos, mode, m));
    }
}

/// Adds the promotions, by push or capture, of the pawns of the side to move; see
/// `promotion_move`.
pub fn generate_pawn_promotions(
    pos: &Position,
    bbs: &Bitboards,
    moves: &mut MoveList,
    mode: GenType,
)
    requires
        bbs.wf(),
        evasions_ok(*pos, mode),
    ensures
        adds(old(moves)@, final(moves)@, |m: Move| promotion_move(*pos, mode, m)),
{
    let ghost a = moves@;
    let us = pos.side_to_move;
    let them = us.opposite();
    let opp_occ = pos.occupancy[them.idx()];
    let all_occ = pos.occupancy[2];
    let empty_squares = Bitboard::new(!all_occ.0);
    let (rank7, _rank5, _rank3, up, up_left, up_right) = pawn_geometry(us);

    let pawns = pos.pieces[us.idx()][Piece::Pawn.idx()];
    let pawns_on_7 = pawns & Bitboard::new(rank7);

    if !pawns_on_7.is_empty() {
        let bb1 = mask_targets(pos, bbs, mode, pawns_on_7.shift(up) & empty_squares);
        let bb2 = mask_targets(pos, bbs, mode, pawns_on_7.shift(up_left) & opp_occ);
        let bb3 = mask_targets(pos, bbs, mode, pawns_on_7.shift(up_right) & opp_occ);
        proof {
            lemma_and_sub(shift_spec(pawns_on_7.0, up), empty_squares.0);
            lemma_and_sub(shift_spec(pawns_on_7.0, up_left), opp_occ.0);
            lemma_and_sub(shift_spec(pawns_on_7.0, up_right), opp_occ.0);
            assert forall|s: int| #[trigger] bit_set(bb1.0, s) implies 0 <= s - up.offset() < 64 by {
                lemma_pawn_shift(pawns_on_7.0, us, s);
            }
            assert forall|s: int| #[trigger] bit_set(bb2.0, s) implies 0 <= s - up_left.offset()
                < 64 by {
                lemma_pawn_shift(pawns_on_7.0, us, s);
            }
            assert forall|s: int| #[trigger] bit_set(bb3.0, s) implies 0 <= s - up_right.offset()
                < 64 by {
                lemma_pawn_shift(pawns_on_7.0, us, s);
            }
        }
        push_promotion_set(up.value(), bb1, false, moves);
        let ghost b = moves@;
        push_promotion_set(up_left.value(), bb2, true, moves);
        let ghost c = moves@;
        push_promotion_set(up_right.value(), bb3, true, moves);
        proof {
            let p1 = |m: Move|
                m.canonical() && bit_set(bb1.0, m.to_index() as int) && m.from_index()
                    == m.to_index() - up.offset() && quiet_promo_flag(m.flag_of());
            let p2 = |m: Move|
                m.canonical() && bit_set(bb2.0, m.to_index() as int) && m.from_index()
                    == m.to_index() - up_left.offset() && capture_promo_flag(m.flag_of());
            let p3 = |m: Move|
                m.canonical() && bit_set(bb3.0, m.to_index() as int) && m.from_index()
                    == m.to_index() - up_right.offset() && capture_promo_flag(m.flag_of());
            let p12 = |m: Move| p1(m) || p2(m);
            assert forall|m: Move| !(#[trigger] p1(m) && p2(m)) by {}
            assert forall|m: Move| #[trigger] p12(m) <==> (p1(m) || p2(m)) by {}
            lemma_adds_trans(a, b, c, p1, p2, p12);
            assert forall|m: Move| !(#[trigger] p12(m) && p3(m)) by {}
            assert forall|m: Move| #[trigger] promotion_move(*pos, mode, m) <==> (p12(m) || p3(m)) by {}
            lemma_adds_trans(a, c, moves@, p12, p3, |m: Move| promotion_move(*pos, mode, m));
        }
    } else {
        proof {
            assert forall|m: Move| !#[trigger] promotion_move(*pos, mode, m) by {}
            lemma_adds_none(a, |m: Move| promotion_move(*pos, mode, m));
        }
    }
}

/// Adds the en passant captures; see `ep_move`.
pub fn generate_en_passant(pos: &Position, bbs: &Bitboards, moves: &mut MoveList)
    requires
        bbs.wf(),
    ensures
        adds(old(moves)@, final(moves)@, |m: Move| ep_move(*pos, m)),
{
    let ghost a = moves@;
    let us = pos.side_to_move;
    let them = us.opposite();
    let (_rank7, rank5, _rank3, _up, _ul, _ur) = pawn_geometry(us);

    let pawns = pos.pieces[us.idx()][Piece::Pawn.idx()];
    let pawns_on_5 = pawns & Bitboard::new(rank5);

    if !pos.ep_square.is_none() {
        let ep = pos.ep_square;
        let ghost before = moves@;
        // The pawns that attack the en passant square are those it attacks as an enemy pawn
        let bb1 = pawns_on_5 & bbs.pawn_attacks(ep, them);
        let mut rem = bb1;
        proof {
            lemma_adds_none(a, |m: Move| false);
        }
        while !rem.is_empty()
            invariant
                ep@ < 64,
                ep == pos.ep_square,
                adds(
                    a,
                    moves@,
                    |m: Move|
                        m.canonical() && m.to_index() == ep@ && m.flag_of() == MoveFlag::EpCapture
                            && bit_set(bb1.0, m.from_index() as int) && !bit_set(
                            rem.0,
                            m.from_index() as int,
                        ),
                ),
                forall|s: int| #[trigger] bit_set(rem.0, s) ==> bit_set(bb1.0, s),
            decreases rem.0,
        {
            let ghost b = moves@;
            let ghost old_rem = rem.0;
            let from = rem.pop_lsb();
            let mv = Move::new(from, ep, MoveFlag::EpCapture);
            proof {
                let p = |m: Move|
                    m.canonical() && m.to_index() == ep@ && m.flag_of() == MoveFlag::EpCapture
                        && bit_set(bb1.0, m.from_index() as int) && !bit_set(
                        old_rem,
                        m.from_index() as int,
                    );
                let q = |m: Move|
                    m.canonical() && m.to_index() == ep@ && m.flag_of() == MoveFlag::EpCapture
                        && bit_set(bb1.0, m.from_index() as int) && !bit_set(
                        rem.0,
                        m.from_index() as int,
                    );
                assert forall|s: int| 0 <= s < 64 implies (#[trigger] bit_set(rem.0, s) <==> (
                bit_set(old_rem, s) && s != from@)) by {
                    lemma_pop_bit(old_rem, from@ as u64, s as u64);
                }
                assert forall|m: Move| #[trigger] q(m) <==> (p(m) || m == mv) by {
                    Move::lemma_indices(m);
                    if m.canonical() && m.to_index() == ep@ && m.flag_of() == MoveFlag::EpCapture
                        && m.from_index() == from@ {
                        Move::lemma_canonical_eq(m, mv);
                    }
                }
                lemma_adds_push(a, b, mv, p, q);
            }
            moves.push(mv);
        }
        proof {
            assert forall|s: int| 0 <= s < 64 implies !#[trigger] bit_set(rem.0, s) by {
                lemma_and_not_bits(0, 0, s as u64);
            }
            assert forall|m: Move|
                #[trigger] ep_move(*pos, m) <==> (m.canonical() && m.to_index() == ep@ && m.flag_of()
                    == MoveFlag::EpCapture && bit_set(bb1.0, m.from_index() as int) && !bit_set(
                    rem.0,
                    m.from_index() as int,
                )) by {
                Move::lemma_indices(m);
            }
        }
    } else {
        proof {
            assert forall|m: Move| !#[trigger] ep_move(*pos, m) by {}
            lemma_adds_none(a, |m: Move| ep_move(*pos, m));
        }
    }
}

/// The pawn moves of `mode`: pushes, captures, promotions and en passant for all moves; captures,
/// en passant and promotions for noisy moves; pushes for quiet moves; all four for evasions.
pub open spec fn pawn_move(pos: Position, mode: GenType, m: Move) -> bool {
    match mode {
        GenType::Quiets => push_move(pos, mode, m),
        _ => push_move(pos, mode, m) && mode != GenType::Noisy || pawn_capture_move(pos, mode, m)
            || promotion_move(pos, mode, m) || ep_move(pos, m),
    }
}

/// Adds the pawn moves of the side to move; see `pawn_move`.
pub fn generate_pawn_moves(pos: &Position, bbs: &Bitboards, moves: &mut MoveList, mode: GenType)
    requires
        bbs.wf(),
        evasions_ok(*pos, mode),
    ensures
        adds(old(moves)@, final(moves)@, |m: Move| pawn_move(*pos, mode, m)),
{
    let ghost a = moves@;
    let ghost pp = |m: Move| push_move(*pos, mode, m);
    let ghost pc = |m: Move| pawn_capture_move(*pos, mode, m);
    let ghost pr = |m: Move| promotion_move(*pos, mode, m);
    let ghost pe = |m: Move| ep_move(*pos, m);
    match mode {
        GenType::Quiets => {
            generate_pawn_pushes(pos, bbs, moves, mode);
        },
        GenType::Noisy => {
            generate_pawn_captures(pos, bbs, moves, mode);
            let ghost b = moves@;
            generate_en_passant(pos, bbs, moves);
            let ghost c = moves@;
            generate_pawn_promotions(pos, bbs, moves, mode);
            proof {
                let p1 = |m: Move| pc(m) || pe(m);
                assert forall|m: Move| !(#[trigger] pc(m) && pe(m)) by {}
                lemma_adds_trans(a, b, c, pc, pe, p1);
                assert forall|m: Move| !(#[trigger] p1(m) && pr(m)) by {}
                lemma_adds_trans(a, c, moves@, p1, pr, |m: Move| pawn_move(*pos, mode, m));
            }
        },
        _ => {
            // For all moves and for evasions: pushes, captures, promotions, then en passant
            // (left to the legality test when evading, as it is so rare)
            generate_pawn_pushes(pos, bbs, moves, mode);
            let ghost b = moves@;
            generate_pawn_captures(pos, bbs, moves, mode);
            let ghost c = moves@;
            generate_pawn_promotions(pos, bbs, moves, mode);
            let ghost d = moves@;
            generate_en_passant(pos, bbs, moves);
            proof {
                let p1 = |m: Move| pp(m) || pc(m);
                let p2 = |m: Move| pp(m) || pc(m) || pr(m);
                assert forall|m: Move| !(#[trigger] pp(m) && pc(m)) by {}
                lemma_adds_trans(a, b, c, pp, pc, p1);
                assert forall|m: Move| !(#[trigger] p1(m) && pr(m)) by {}
                lemma_adds_trans(a, c, d, p1, pr, p2);
                assert forall|m: Move| !(#[trigger] p2(m) && pe(m)) by {}
                lemma_adds_trans(a, d, moves@, p2, pe, |m: Move| pawn_move(*pos, mode, m));
            }
        },
    }
}

/// `new` is `old` with moves added at the end: those with property `p`, and no other.
pub open spec fn grows(old: Seq<Move>, new: Seq<Move>, p: spec_fn(Move) -> bool) -> bool {
    &&& new.len() >= old.len()
    &&& new.subrange(0, old.len() as int) == old
    &&& forall|m: Move| #[trigger] appended(old, new).contains(m) <==> p(m)
}

/// Adding in two steps adds the moves of either step.
pub proof fn lemma_grows_trans(
    a: Seq<Move>,
    b: Seq<Move>,
    c: Seq<Move>,
    p: spec_fn(Move) -> bool,
    q: spec_fn(Move) -> bool,
    r: spec_fn(Move) -> bool,
)
    requires
        grows(a, b, p),
        grows(b, c, q),
        forall|m: Move| #[trigger] r(m) <==> (p(m) || q(m)),
    ensures
        grows(a, c, r),
{
    let ab = appended(a, b);
    let bc = appended(b, c);
    let ac = appended(a, c);
    assert(ac =~= ab + bc);
    assert(c.subrange(0, a.len() as int) =~= b.subrange(0, a.len() as int));
    assert forall|m: Move| #[trigger] ac.contains(m) <==> r(m) by {
        if ac.contains(m) {
            let k = choose|k: int| 0 <= k < ac.len() && ac[k] == m;
            if k < ab.len() {
                assert(ab[k] == m);
                assert(ab.contains(m));
            } else {
                assert(bc[k - ab.len()] == m);
                assert(bc.contains(m));
            }
        }
        if p(m) {
            assert(ab.contains(m));
            let k = choose|k: int| 0 <= k < ab.len() && ab[k] == m;
            assert(ac[k] == m);
        }
        if q(m) {
            assert(bc.contains(m));
            let k = choose|k: int| 0 <= k < bc.len() && bc[k] == m;
            assert(ac[k + ab.len()] == m);
        }
    }
}

/// The moves a generator of `mode` produces: those of every piece of the side to move; when
/// evading, only king moves under double check.
pub open spec fn gen_move(pos: Position, mode: GenType, m: Move) -> bool {
    let us = pos.side_to_move;
    let others = pawn_move(pos, mode, m) || reach_move(
        pos,
        mode,
        pos.piece_bb(us, Piece::Knight),
        Reach::Knight,
        m,
    ) || reach_move(
        pos,
        mode,
        pos.piece_bb(us, Piece::Bishop) | pos.piece_bb(us, Piece::Queen),
        Reach::Diagonal,
        m,
    ) || reach_move(
        pos,
        mode,
        pos.piece_bb(us, Piece::Rook) | pos.piece_bb(us, Piece::Queen),
        Reach::Straight,
        m,
    );
    if mode == GenType::Evasions {
        (popcount(pos.checkers.0) == 1 && others) || king_move(pos, mode, m)
    } else {
        others || king_move(pos, mode, m)
    }
}

/// What generation needs: the king on the board, room for the castles it may add, and (when
/// evading) a piece giving check.
pub open spec fn gen_ok(pos: Position, mode: GenType) -> bool {
    &&& pos.king_sq(pos.side_to_move)@ < 64
    &&& (mode == GenType::All || mode == GenType::Quiets) ==> castling_ok(pos)
    &&& mode == GenType::Evasions ==> pos.checkers.0 != 0
}

/// A square's bit tested with a one-square mask is the square's membership; a square of a set
/// is a square of its union with any other; the capture bit of the quiet and capture flags.
proof fn lemma_mask_bit(x: u64, y: u64, t: u64)
    by (bit_vector)
    requires
        t < 64,
    ensures
        (x & (1u64 << t)) != 0 <==> (x >> t) & 1u64 == 1u64,
        ((1u64 << t) & x) != 0 <==> (x >> t) & 1u64 == 1u64,
        (x >> t) & 1u64 == 1u64 ==> ((x | y) >> t) & 1u64 == 1u64,
        (y >> t) & 1u64 == 1u64 ==> ((x | y) >> t) & 1u64 == 1u64,
        4u8 & 4u8 == 4u8,
        0u8 & 4u8 != 4u8,
{
}

/// A step move of a piece on `from` to a square of `masked(reach & !own)` lands on a square of
/// `reach` that our pieces do not hold.
proof fn lemma_step_target(pos: Position, mode: GenType, reach: u64, from: int, m: Move)
    requires
        step_move(
            from,
            masked(pos, mode, reach & !pos.occ_bb(pos.side_to_move)),
            pos.occ_bb(pos.side_to_move.other()),
            mode,
            m,
        ),
    ensures
        bit_set(reach, m.to_index() as int),
        !bit_set(pos.occ_bb(pos.side_to_move), m.to_index() as int),
{
    let to = m.to_index() as int;
    let own = pos.occ_bb(pos.side_to_move);
    Move::lemma_indices(m);
    lemma_set_ops(reach & !own, evasion_spec(pos), to);
    lemma_set_ops(reach, !own, to);
    lemma_and_not_bits(0, own, to as u64);
}

/// Bit facts of pawn moves: a diagonal step of a set is also the step of the one square it came
/// from; a square of two sets meets a one-square mask of it in both; two empty squares leave
/// a two-square mask clear; and the capture and promotion bits of the pawn flags.
proof fn lemma_pawn_bits(x: u64, y: u64, t: u64, a: u64)
    by (bit_vector)
    requires
        t < 64,
        a < 64,
    ensures
        t >= 9 && (((x & !types::FILE_H) << 9u64) >> t) & 1u64 == 1u64 ==> ((((1u64 << ((t - 9) as u64))
            & !types::FILE_H) << 9u64) >> t) & 1u64 == 1u64,
        t >= 7 && (((x & !types::FILE_A) << 7u64) >> t) & 1u64 == 1u64 ==> ((((1u64 << ((t - 7) as u64))
            & !types::FILE_A) << 7u64) >> t) & 1u64 == 1u64,
        t < 57 && (((x & !types::FILE_H) >> 7u64) >> t) & 1u64 == 1u64 ==> ((((1u64 << ((t + 7) as u64))
            & !types::FILE_H) >> 7u64) >> t) & 1u64 == 1u64,
        t < 55 && (((x & !types::FILE_A) >> 9u64) >> t) & 1u64 == 1u64 ==> ((((1u64 << ((t + 9) as u64))
            & !types::FILE_A) >> 9u64) >> t) & 1u64 == 1u64,
        (x >> t) & 1u64 == 1u64 && (y >> t) & 1u64 == 1u64 ==> (x & (1u64 << t)) & y != 0,
        (x >> t) & 1u64 != 1u64 && (x >> a) & 1u64 != 1u64 ==> ((1u64 << a) | (1u64 << t)) & x == 0,
        0u8 & 4u8 != 4u8,
        1u8 & 4u8 != 4u8,
        0u8 & 8u8 == 0u8,
        1u8 & 8u8 == 0u8,
        8u8 & 4u8 != 4u8,
        9u8 & 4u8 != 4u8,
        10u8 & 4u8 != 4u8,
        11u8 & 4u8 != 4u8,
        8u8 & 8u8 != 0u8,
        9u8 & 8u8 != 0u8,
        10u8 & 8u8 != 0u8,
        11u8 & 8u8 != 0u8,
        12u8 & 4u8 == 4u8,
        13u8 & 4u8 == 4u8,
        14u8 & 4u8 == 4u8,
        15u8 & 4u8 == 4u8,
{
}

/// A pawn capture step of a set of pawns to `to` is an attack of the pawn it came from.
proof fn lemma_capture_step(x: u64, us: Colour, d: Direction, to: int)
    requires
        0 <= to < 64,
        d == up_left_dir(us) || d == up_right_dir(us),
        bit_set(shift_spec(x, d), to),
    ensures
        0 <= to - d.offset() < 64,
        bit_set(x, to - d.offset()),
        bit_set(pawn_attacks_spec(1u64 << ((to - d.offset()) as u64), us), to),
{
    lemma_shift_bits(x, to as u64);
    lemma_pawn_bits(x, 0, to as u64, 0);
    let from = to - d.offset();
    let one = 1u64 << (from as u64);
    let ne = shift_spec(one, Direction::NorthEast);
    let nw = shift_spec(one, Direction::NorthWest);
    let se = shift_spec(one, Direction::SouthEast);
    let sw = shift_spec(one, Direction::SouthWest);
    lemma_mask_bit(ne, nw, to as u64);
    lemma_mask_bit(se, sw, to as u64);
}

/// Every pawn move that generation gives, en passant aside, is pseudo-legal.
proof fn lemma_pawn_moves_pseudo_legal(pos: Position, mode: GenType, m: Move)
    requires
        pos.board_ok(),
        pawn_move(pos, mode, m),
        m.flag_of() != MoveFlag::EpCapture,
    ensures
        pos.pseudo_legal_spec(m),
{
    reveal(Position::board_ok);
    let us = pos.side_to_move;
    let from = m.from_index() as int;
    let to = m.to_index() as int;
    let own = pos.occ_bb(us);
    let opp = pos.occ_bb(us.other());
    let all = pos.all_bb();
    let f = m.flag_of();
    Move::lemma_indices(m);
    lemma_mask_bit(own, 0, from as u64);
    lemma_mask_bit(own, 0, to as u64);
    lemma_mask_bit(opp, 0, to as u64);
    lemma_pawn_bits(all, opp, to as u64, 0);
    lemma_pawn_move_from(pos, mode, m);
    PieceCode::lemma_of(us, Piece::Pawn);
    assert(pos.mailbox@[from] == PieceCode::of(us, Piece::Pawn));
    assert(bit_set(own, from));
    let up = up_dir(us);
    let ev = evasion_spec(pos);
    let pawns = our_pawns(pos);
    let r7 = rank7_of(us);
    lemma_and_not_bits(0, all, to as u64);
    if bit_set(own, to) {
        assert(pos.mailbox@[to].colour_of() == Some(us));
        assert(pos.mailbox@[to] != PieceCode::EMPTY);
        assert(bit_set(all, to));
        if bit_set(opp, to) {
            assert(pos.mailbox@[to].colour_of() == Some(us.other()));
        }
    }
    if bit_set(opp, to) {
        assert(pos.mailbox@[to].colour_of() == Some(us.other()));
        assert(pos.mailbox@[to] != PieceCode::EMPTY);
        assert(bit_set(all, to));
    }
    if push_move(pos, mode, m) {
        let one = shift_spec(pawns & !r7, up) & !all;
        if f == MoveFlag::Quiet {
            lemma_set_ops(one, ev, to);
            lemma_set_ops(shift_spec(pawns & !r7, up), !all, to);
            assert(!bit_set(all, to));
            assert(pos.pawn_move_spec(m));
        } else {
            let two = shift_spec(one & rank3_of(us), up) & !all;
            lemma_set_ops(two, ev, to);
            lemma_set_ops(shift_spec(one & rank3_of(us), up), !all, to);
            lemma_shift_bits(one & rank3_of(us), to as u64);
            let mid = to - up.offset();
            lemma_set_ops(one, rank3_of(us), mid);
            lemma_set_ops(shift_spec(pawns & !r7, up), !all, mid);
            lemma_and_not_bits(0, all, mid as u64);
            lemma_pawn_bits(all, opp, to as u64, mid as u64);
            assert((from + to) / 2 == mid);
            assert(pos.pawn_move_spec(m));
        }
    } else if pawn_capture_move(pos, mode, m) {
        let d = if bit_set(capture_set(pos, mode, up_left_dir(us)), to) && from_behind(m, up_left_dir(us)) {
            up_left_dir(us)
        } else {
            up_right_dir(us)
        };
        let cs = shift_spec(pawns & !r7, d) & opp;
        lemma_set_ops(cs, ev, to);
        lemma_set_ops(shift_spec(pawns & !r7, d), opp, to);
        lemma_capture_step(pawns & !r7, us, d, to);
        lemma_pawn_bits(pawn_attacks_spec(1u64 << (from as u64), us), opp, to as u64, 0);
        assert(pos.pawn_move_spec(m));
    } else {
        assert(promotion_move(pos, mode, m));
        if quiet_promo_flag(f) {
            let ps = shift_spec(pawns & r7, up) & !all;
            lemma_set_ops(ps, ev, to);
            lemma_set_ops(shift_spec(pawns & r7, up), !all, to);
            assert(pos.pawn_move_spec(m));
        } else {
            let d = if bit_set(promo_set(pos, mode, up_left_dir(us), opp), to) && from_behind(m, up_left_dir(us)) {
                up_left_dir(us)
            } else {
                up_right_dir(us)
            };
            let ps = shift_spec(pawns & r7, d) & opp;
            lemma_set_ops(ps, ev, to);
            lemma_set_ops(shift_spec(pawns & r7, d), opp, to);
            lemma_capture_step(pawns & r7, us, d, to);
            lemma_pawn_bits(pawn_attacks_spec(1u64 << (from as u64), us), opp, to as u64, 0);
            assert(pos.pawn_move_spec(m));
        }
    }
    assert(pos.mailbox@[from].piece_of() == Some(Piece::Pawn));
    assert(own & (1u64 << (from as u64)) != 0);
    assert(!bit_set(own, to));
    assert(own & (1u64 << (to as u64)) == 0);
    assert(pos.pawn_move_spec(m));
}

/// Every move that generation gives for a knight, a bishop, a rook, a queen, or a king stepping
/// (castles and pawn moves aside) is pseudo-legal.
proof fn lemma_piece_moves_pseudo_legal(pos: Position, mode: GenType, m: Move)
    requires
        pos.board_ok(),
        pos.kings_ok(),
        gen_move(pos, mode, m),
        !pawn_move(pos, mode, m),
        !castle_move(pos, m),
    ensures
        pos.pseudo_legal_spec(m),
{
    reveal(Position::board_ok);
    reveal(Position::kings_ok);
    let us = pos.side_to_move;
    let from = m.from_index() as int;
    let to = m.to_index() as int;
    let own = pos.occ_bb(us);
    let opp = pos.occ_bb(us.other());
    let all = pos.all_bb();
    Move::lemma_indices(m);
    lemma_mask_bit(own, 0, from as u64);
    lemma_mask_bit(own, 0, to as u64);
    lemma_mask_bit(opp, 0, to as u64);
    let kn = pos.piece_bb(us, Piece::Knight);
    let bq = pos.piece_bb(us, Piece::Bishop) | pos.piece_bb(us, Piece::Queen);
    let rq = pos.piece_bb(us, Piece::Rook) | pos.piece_bb(us, Piece::Queen);
    let piece: Piece;
    if reach_move(pos, mode, kn, Reach::Knight, m) {
        lemma_step_target(pos, mode, knight_attacks_spec(from), from, m);
        lemma_mask_bit(knight_attacks_spec(from), 0, to as u64);
        PieceCode::lemma_of(us, Piece::Knight);
        assert(pos.mailbox@[from] == PieceCode::of(us, Piece::Knight));
        piece = Piece::Knight;
    } else if reach_move(pos, mode, bq, Reach::Diagonal, m) {
        lemma_step_target(pos, mode, bishop_attacks_spec(from, all), from, m);
        lemma_mask_bit(bishop_attacks_spec(from, all), rook_attacks_spec(from, all), to as u64);
        lemma_mask_bit(bishop_attacks_spec(from, all) | rook_attacks_spec(from, all), 0, to as u64);
        lemma_set_ops(pos.piece_bb(us, Piece::Bishop), pos.piece_bb(us, Piece::Queen), from);
        if bit_set(pos.piece_bb(us, Piece::Bishop), from) {
            PieceCode::lemma_of(us, Piece::Bishop);
            assert(pos.mailbox@[from] == PieceCode::of(us, Piece::Bishop));
            piece = Piece::Bishop;
        } else {
            PieceCode::lemma_of(us, Piece::Queen);
            assert(pos.mailbox@[from] == PieceCode::of(us, Piece::Queen));
            piece = Piece::Queen;
        }
    } else if reach_move(pos, mode, rq, Reach::Straight, m) {
        lemma_step_target(pos, mode, rook_attacks_spec(from, all), from, m);
        lemma_mask_bit(rook_attacks_spec(from, all), 0, to as u64);
        lemma_mask_bit(bishop_attacks_spec(from, all), rook_attacks_spec(from, all), to as u64);
        lemma_mask_bit(bishop_attacks_spec(from, all) | rook_attacks_spec(from, all), 0, to as u64);
        lemma_set_ops(pos.piece_bb(us, Piece::Rook), pos.piece_bb(us, Piece::Queen), from);
        if bit_set(pos.piece_bb(us, Piece::Rook), from) {
            PieceCode::lemma_of(us, Piece::Rook);
            assert(pos.mailbox@[from] == PieceCode::of(us, Piece::Rook));
            piece = Piece::Rook;
        } else {
            PieceCode::lemma_of(us, Piece::Queen);
            assert(pos.mailbox@[from] == PieceCode::of(us, Piece::Queen));
            piece = Piece::Queen;
        }
    } else {
        let k = pos.king_sq(us)@ as int;
        assert(king_step_move(pos, mode, m));
        assert(from == k);
        lemma_set_ops(king_attacks_spec(k), !own, to);
        lemma_and_not_bits(0, own, to as u64);
        lemma_mask_bit(king_attacks_spec(k), 0, to as u64);
        PieceCode::lemma_of(us, Piece::King);
        assert(pos.mailbox@[from] == PieceCode::of(us, Piece::King));
        piece = Piece::King;
    }
    assert(pos.mailbox@[from].piece_of() == Some(piece));
    assert(bit_set(own, from));
    assert(pos.piece_move_spec(piece, m));
}

/// Every move that generation gives, castles and en passant captures aside, is pseudo-legal:
/// `is_pseudo_legal` accepts it.
pub proof fn lemma_generated_pseudo_legal(pos: Position, mode: GenType, m: Move)
    requires
        pos.board_ok(),
        pos.kings_ok(),
        gen_move(pos, mode, m),
        !castle_move(pos, m),
        m.flag_of() != MoveFlag::EpCapture,
    ensures
        pos.pseudo_legal_spec(m),
{
    if pawn_move(pos, mode, m) {
        lemma_pawn_moves_pseudo_legal(pos, mode, m);
    } else {
        lemma_piece_moves_pseudo_legal(pos, mode, m);
    }
}

/// The parts of generation share no move: each starts on its own kind of piece, and a queen's
/// diagonal and straight targets differ.
proof fn lemma_parts_apart(pos: Position, mode: GenType, m: Move)
    requires
        pos.board_ok(),
        pos.kings_ok(),
    ensures
        ({
            let us = pos.side_to_move;
            let p1 = pawn_move(pos, mode, m);
            let p2 = reach_move(pos, mode, pos.piece_bb(us, Piece::Knight), Reach::Knight, m);
            let p3 = reach_move(
                pos,
                mode,
                pos.piece_bb(us, Piece::Bishop) | pos.piece_bb(us, Piece::Queen),
                Reach::Diagonal,
                m,
            );
            let p4 = reach_move(
                pos,
                mode,
                pos.piece_bb(us, Piece::Rook) | pos.piece_bb(us, Piece::Queen),
                Reach::Straight,
                m,
            );
            let p5 = king_move(pos, mode, m);
            &&& !(p1 && p2)
            &&& !(p1 && p3)
            &&& !(p1 && p4)
            &&& !(p1 && p5)
            &&& !(p2 && p3)
            &&& !(p2 && p4)
            &&& !(p2 && p5)
            &&& !(p3 && p4)
            &&& !(p3 && p5)
            &&& !(p4 && p5)
        }),
{
    reveal(Position::board_ok);
    reveal(Position::kings_ok);
    let us = pos.side_to_move;
    let from = m.from_index() as int;
    let to = m.to_index() as int;
    Move::lemma_indices(m);
    let code = pos.mailbox@[from];
    let bq = pos.piece_bb(us, Piece::Bishop) | pos.piece_bb(us, Piece::Queen);
    let rq = pos.piece_bb(us, Piece::Rook) | pos.piece_bb(us, Piece::Queen);
    let p1 = pawn_move(pos, mode, m);
    let p2 = reach_move(pos, mode, pos.piece_bb(us, Piece::Knight), Reach::Knight, m);
    let p3 = reach_move(pos, mode, bq, Reach::Diagonal, m);
    let p4 = reach_move(pos, mode, rq, Reach::Straight, m);
    let p5 = king_move(pos, mode, m);
    if p1 {
        lemma_pawn_move_from(pos, mode, m);
        assert(bit_set(pos.piece_bb(us, Piece::Pawn), from));
        assert(code == PieceCode::of(us, Piece::Pawn));
    }
    if p2 {
        assert(bit_set(pos.piece_bb(us, Piece::Knight), from));
        assert(code == PieceCode::of(us, Piece::Knight));
    }
    if p3 {
        lemma_set_ops(pos.piece_bb(us, Piece::Bishop), pos.piece_bb(us, Piece::Queen), from);
        if bit_set(pos.piece_bb(us, Piece::Bishop), from) {
            assert(code == PieceCode::of(us, Piece::Bishop));
        } else {
            assert(bit_set(pos.piece_bb(us, Piece::Queen), from));
            assert(code == PieceCode::of(us, Piece::Queen));
        }
    }
    if p4 {
        lemma_set_ops(pos.piece_bb(us, Piece::Rook), pos.piece_bb(us, Piece::Queen), from);
        if bit_set(pos.piece_bb(us, Piece::Rook), from) {
            assert(code == PieceCode::of(us, Piece::Rook));
        } else {
            assert(bit_set(pos.piece_bb(us, Piece::Queen), from));
            assert(code == PieceCode::of(us, Piece::Queen));
        }
    }
    if p5 {
        assert(from == pos.king_sq(us)@);
        assert(code == PieceCode::of(us, Piece::King));
    }
    if p3 && p4 {
        let occ = pos.all_bb();
        let own = !pos.occ_bb(us);
        let dt = reach_spec(Reach::Diagonal, from, occ) & own;
        let st = reach_spec(Reach::Straight, from, occ) & own;
        lemma_set_ops(dt, evasion_spec(pos), to);
        lemma_set_ops(st, evasion_spec(pos), to);
        lemma_set_ops(reach_spec(Reach::Diagonal, from, occ), own, to);
        lemma_set_ops(reach_spec(Reach::Straight, from, occ), own, to);
        assert(bit_set(bishop_attacks_spec(from, occ), to));
        lemma_diagonal_not_straight(from, occ, to);
    }
}

/// Clears `moves` and fills it with the moves of every piece for `mode` (not evasions).
fn generate_pieces(pos: &Position, bbs: &Bitboards, moves: &mut MoveList, mode: GenType)
    requires
        bbs.wf(),
        mode != GenType::Evasions,
        gen_ok(*pos, mode),
    ensures
        forall|m: Move| #[trigger] final(moves)@.contains(m) <==> gen_move(*pos, mode, m),
        pos.board_ok() && pos.kings_ok() ==> final(moves)@.no_duplicates(),
{
    moves.clear();
    let ghost a = moves@;
    let ghost us = pos.side_to_move;
    let ghost p1 = |m: Move| pawn_move(*pos, mode, m);
    let ghost p2 = |m: Move| reach_move(*pos, mode, pos.piece_bb(us, Piece::Knight), Reach::Knight, m);
    let ghost p3 = |m: Move|
        reach_move(
            *pos,
            mode,
            pos.piece_bb(us, Piece::Bishop) | pos.piece_bb(us, Piece::Queen),
            Reach::Diagonal,
            m,
        );
    let ghost p4 = |m: Move|
        reach_move(
            *pos,
            mode,
            pos.piece_bb(us, Piece::Rook) | pos.piece_bb(us, Piece::Queen),
            Reach::Straight,
            m,
        );
    let ghost p5 = |m: Move| king_move(*pos, mode, m);
    generate_pawn_moves(pos, bbs, moves, mode);
    let ghost b = moves@;
    generate_knight_moves(pos, bbs, moves, mode);
    let ghost c = moves@;
    generate_bishop_slider_moves(pos, bbs, moves, mode);
    let ghost d = moves@;
    generate_rook_slider_moves(pos, bbs, moves, mode);
    let ghost e = moves@;
    generate_king_moves(pos, bbs, moves, mode);
    proof {
        let q2 = |m: Move| p1(m) || p2(m);
        let q3 = |m: Move| p1(m) || p2(m) || p3(m);
        let q4 = |m: Move| p1(m) || p2(m) || p3(m) || p4(m);
        lemma_grows_trans(a, b, c, p1, p2, q2);
        lemma_grows_trans(a, c, d, q2, p3, q3);
        lemma_grows_trans(a, d, e, q3, p4, q4);
        lemma_grows_trans(a, e, moves@, q4, p5, |m: Move| gen_move(*pos, mode, m));
        assert(appended(a, moves@) =~= moves@);
        if pos.board_ok() && pos.kings_ok() {
            let q5 = |m: Move| p1(m) || p2(m) || p3(m) || p4(m) || p5(m);
            assert forall|m: Move| !(#[trigger] p1(m) && p2(m)) by {
                lemma_parts_apart(*pos, mode, m);
            }
            lemma_adds_trans(a, b, c, p1, p2, q2);
            assert forall|m: Move| !(#[trigger] q2(m) && p3(m)) by {
                lemma_parts_apart(*pos, mode, m);
            }
            lemma_adds_trans(a, c, d, q2, p3, q3);
            assert forall|m: Move| !(#[trigger] q3(m) && p4(m)) by {
                lemma_parts_apart(*pos, mode, m);
            }
            lemma_adds_trans(a, d, e, q3, p4, q4);
            assert forall|m: Move| !(#[trigger] q4(m) && p5(m)) by {
                lemma_parts_apart(*pos, mode, m);
            }
            lemma_adds_trans(a, e, moves@, q4, p5, q5);
        }
    }
}

/// Fills `moves` with every pseudo-legal move of the side to move (not in check).
pub fn generate_all(pos: &Position, bbs: &Bitboards, moves: &mut MoveList)
    requires
        bbs.wf(),
        gen_ok(*pos, GenType::All),
    ensures
        forall|m: Move| #[trigger] final(moves)@.contains(m) <==> gen_move(*pos, GenType::All, m),
        pos.board_ok() && pos.kings_ok() ==> final(moves)@.no_duplicates(),
{
    generate_pieces(pos, bbs, moves, GenType::All);
}

/// Fills `moves` with the captures, en passant captures and promotions of the side to move.
pub fn generate_noisy(pos: &Position, bbs: &Bitboards, moves: &mut MoveList)
    requires
        bbs.wf(),
        gen_ok(*pos, GenType::Noisy),
    ensures
        forall|m: Move| #[trigger] final(moves)@.contains(m) <==> gen_move(*pos, GenType::Noisy, m),
        pos.board_ok() && pos.kings_ok() ==> final(moves)@.no_duplicates(),
{
    generate_pieces(pos, bbs, moves, GenType::Noisy);
}

/// Fills `moves` with the quiet moves of the side to move: pushes, quiet piece moves, castles.
pub fn generate_quiets(pos: &Position, bbs: &Bitboards, moves: &mut MoveList)
    requires
        bbs.wf(),
        gen_ok(*pos, GenType::Quiets),
    ensures
        forall|m: Move| #[trigger] final(moves)@.contains(m) <==> gen_move(*pos, GenType::Quiets, m),
        pos.board_ok() && pos.kings_ok() ==> final(moves)@.no_duplicates(),
{
    generate_pieces(pos, bbs, moves, GenType::Quiets);
}

/// Fills `moves` with the moves that may get the side to move out of check: moves that take or
/// block a single checker, and king steps.
pub fn generate_evasions(pos: &Position, bbs: &Bitboards, moves: &mut MoveList)
    requires
        bbs.wf(),
        gen_ok(*pos, GenType::Evasions),
    ensures
        forall|m: Move| #[trigger] final(moves)@.contains(m) <==> gen_move(
            *pos,
            GenType::Evasions,
            m,
        ),
        pos.board_ok() && pos.kings_ok() ==> final(moves)@.no_duplicates(),
{
    moves.clear();
    let ghost a = moves@;
    let ghost us = pos.side_to_move;
    let mode = GenType::Evasions;
    let ghost others = |m: Move|
        pawn_move(*pos, mode, m) || reach_move(
            *pos,
            mode,
            pos.piece_bb(us, Piece::Knight),
            Reach::Knight,
            m,
        ) || reach_move(
            *pos,
            mode,
            pos.piece_bb(us, Piece::Bishop) | pos.piece_bb(us, Piece::Queen),
            Reach::Diagonal,
            m,
        ) || reach_move(
            *pos,
            mode,
            pos.piece_bb(us, Piece::Rook) | pos.piece_bb(us, Piece::Queen),
            Reach::Straight,
            m,
        );
    let checkers = pos.checkers;

    // Under double check only the king can move
    if checkers.bit_count() == 1 {
        let ghost p1 = |m: Move| pawn_move(*pos, mode, m);
        let ghost p2 = |m: Move|
            reach_move(*pos, mode, pos.piece_bb(us, Piece::Knight), Reach::Knight, m);
        let ghost p3 = |m: Move|
            reach_move(
                *pos,
                mode,
                pos.piece_bb(us, Piece::Bishop) | pos.piece_bb(us, Piece::Queen),
                Reach::Diagonal,
                m,
            );
        let ghost p4 = |m: Move|
            reach_move(
                *pos,
                mode,
                pos.piece_bb(us, Piece::Rook) | pos.piece_bb(us, Piece::Queen),
                Reach::Straight,
                m,
            );
        generate_pawn_moves(pos, bbs, moves, mode);
        let ghost b = moves@;
        generate_knight_moves(pos, bbs, moves, mode);
        let ghost c = moves@;
        generate_bishop_slider_moves(pos, bbs, moves, mode);
        let ghost d = moves@;
        generate_rook_slider_moves(pos, bbs, moves, mode);
        proof {
            let q2 = |m: Move| p1(m) || p2(m);
            let q3 = |m: Move| p1(m) || p2(m) || p3(m);
            lemma_grows_trans(a, b, c, p1, p2, q2);
            lemma_grows_trans(a, c, d, q2, p3, q3);
            lemma_grows_trans(a, d, moves@, q3, p4, others);
            if pos.board_ok() && pos.kings_ok() {
                assert forall|m: Move| !(#[trigger] p1(m) && p2(m)) by {
                    lemma_parts_apart(*pos, mode, m);
                }
                lemma_adds_trans(a, b, c, p1, p2, q2);
                assert forall|m: Move| !(#[trigger] q2(m) && p3(m)) by {
                    lemma_parts_apart(*pos, mode, m);
                }
                lemma_adds_trans(a, c, d, q2, p3, q3);
                assert forall|m: Move| !(#[trigger] q3(m) && p4(m)) by {
                    lemma_parts_apart(*pos, mode, m);
                }
                lemma_adds_trans(a, d, moves@, q3, p4, others);
                let first = |m: Move| popcount(pos.checkers.0) == 1 && others(m);
                assert forall|m: Move| #[trigger] appended(a, moves@).contains(m) <==> first(m) by {}
            }
        }
    } else {
        proof {
            lemma_adds_none(a, |m: Move| false);
        }
    }
    let ghost e = moves@;
    generate_king_moves(pos, bbs, moves, mode);
    proof {
        let first = |m: Move| popcount(pos.checkers.0) == 1 && others(m);
        assert(grows(a, e, first));
        lemma_grows_trans(
            a,
            e,
            moves@,
            first,
            |m: Move| king_move(*pos, mode, m),
            |m: Move| gen_move(*pos, mode, m),
        );
        assert(appended(a, moves@) =~= moves@);
        if pos.board_ok() && pos.kings_ok() {
            assert(adds(a, e, first));
            assert forall|m: Move| !(#[trigger] first(m) && king_move(*pos, mode, m)) by {
                lemma_parts_apart(*pos, mode, m);
            }
            lemma_adds_trans(
                a,
                e,
                moves@,
                first,
                |m: Move| king_move(*pos, mode, m),
                |m: Move| first(m) || king_move(*pos, mode, m),
            );
        }
    }
}

/// Fills `moves` with the moves of `mode`.
pub fn generate(mode: GenType, pos: &Position, bbs: &Bitboards, moves: &mut MoveList)
    requires
        bbs.wf(),
        gen_ok(*pos, mode),
    ensures
        forall|m: Move| #[trigger] final(moves)@.contains(m) <==> gen_move(*pos, mode, m),
{
    match mode {
        GenType::All => generate_all(pos, bbs, moves),
        GenType::Noisy => generate_noisy(pos, bbs, moves),
        GenType::Quiets => generate_quiets(pos, bbs, moves),
        GenType::Evasions => generate_evasions(pos, bbs, moves),
    }
}

/// A square of a set shifted in a pawn direction of `c` comes from the square one step back.
proof fn lemma_pawn_source(x: u64, c: Colour, s: int)
    requires
        0 <= s < 64,
    ensures
        bit_set(shift_spec(x, up_dir(c)), s) ==> bit_set(x, s - up_dir(c).offset()),
        bit_set(shift_spec(x, up_left_dir(c)), s) ==> bit_set(x, s - up_left_dir(c).offset()),
        bit_set(shift_spec(x, up_right_dir(c)), s) ==> bit_set(x, s - up_right_dir(c).offset()),
{
    lemma_shift_bits(x, s as u64);
}

proof fn lemma_set_bits(x: u64, y: u64, s: u64)
    by (bit_vector)
    requires
        s < 64,
    ensures
        ((x & y) >> s) & 1u64 == 1u64 ==> (x >> s) & 1u64 == 1u64 && (y >> s) & 1u64 == 1u64,
        ((x | y) >> s) & 1u64 == 1u64 ==> (x >> s) & 1u64 == 1u64 || (y >> s) & 1u64 == 1u64,
{
}

/// A square of an intersection is in both sets; a square of a union is in one of them.
proof fn lemma_set_ops(x: u64, y: u64, s: int)
    requires
        0 <= s < 64,
    ensures
        bit_set(x & y, s) ==> bit_set(x, s) && bit_set(y, s),
        bit_set(x | y, s) ==> bit_set(x, s) || bit_set(y, s),
{
    lemma_set_bits(x, y, s as u64);
}

/// The pawns of the side to move stand where a pawn move of `mode` starts.
proof fn lemma_pawn_move_from(pos: Position, mode: GenType, m: Move)
    requires
        pawn_move(pos, mode, m),
    ensures
        bit_set(our_pawns(pos), m.from_index() as int),
{
    let us = pos.side_to_move;
    let to = m.to_index() as int;
    let from = m.from_index() as int;
    let pawns = our_pawns(pos);
    Move::lemma_indices(m);
    let up = up_dir(us);
    let low = pawns & !rank7_of(us);
    let high = pawns & rank7_of(us);
    let one = shift_spec(low, up) & !pos.all_bb();
    let ev = evasion_spec(pos);
    if push_move(pos, mode, m) {
        if bit_set(push1_set(pos, mode), to) && from_behind(m, up) {
            lemma_set_ops(one, ev, to);
            lemma_set_ops(shift_spec(low, up), !pos.all_bb(), to);
            lemma_pawn_source(low, us, to);
            lemma_set_ops(pawns, !rank7_of(us), from);
        } else {
            let two = shift_spec(one & rank3_of(us), up) & !pos.all_bb();
            let mid = to - up.offset();
            lemma_set_ops(two, ev, to);
            lemma_set_ops(shift_spec(one & rank3_of(us), up), !pos.all_bb(), to);
            lemma_pawn_source(one & rank3_of(us), us, to);
            assert(0 <= mid < 64);
            lemma_set_ops(one, rank3_of(us), mid);
            lemma_set_ops(shift_spec(low, up), !pos.all_bb(), mid);
            lemma_pawn_source(low, us, mid);
            lemma_set_ops(pawns, !rank7_of(us), from);
        }
    } else if pawn_capture_move(pos, mode, m) {
        let l = up_left_dir(us);
        let r = up_right_dir(us);
        let opp = pos.occ_bb(us.other());
        lemma_set_ops(shift_spec(low, l) & opp, ev, to);
        lemma_set_ops(shift_spec(low, r) & opp, ev, to);
        lemma_set_ops(shift_spec(low, l), opp, to);
        lemma_set_ops(shift_spec(low, r), opp, to);
        lemma_pawn_source(low, us, to);
        lemma_set_ops(pawns, !rank7_of(us), from);
    } else if promotion_move(pos, mode, m) {
        let l = up_left_dir(us);
        let r = up_right_dir(us);
        let opp = pos.occ_bb(us.other());
        let empty = !pos.all_bb();
        lemma_set_ops(shift_spec(high, up) & empty, ev, to);
        lemma_set_ops(shift_spec(high, l) & opp, ev, to);
        lemma_set_ops(shift_spec(high, r) & opp, ev, to);
        lemma_set_ops(shift_spec(high, up), empty, to);
        lemma_set_ops(shift_spec(high, l), opp, to);
        lemma_set_ops(shift_spec(high, r), opp, to);
        lemma_pawn_source(high, us, to);
        lemma_set_ops(pawns, rank7_of(us), from);
    } else {
        let ep = pos.ep_square@;
        let a = pawns & rank5_of(us);
        lemma_set_ops(a, pawn_attacks_spec(1u64 << (ep as u64), us.other()), from);
        lemma_set_ops(pawns, rank5_of(us), from);
    }
}

/// Every generated move starts from a square holding a piece of the side to move.
pub proof fn lemma_gen_from_own(pos: Position, mode: GenType, m: Move)
    requires
        pos.board_ok(),
        pos.kings_ok(),
        gen_ok(pos, mode),
        gen_move(pos, mode, m),
    ensures
        pos.mailbox@[m.from_index() as int].colour_of() == Some(pos.side_to_move),
{
    reveal(Position::board_ok);
    reveal(Position::kings_ok);
    let us = pos.side_to_move;
    let from = m.from_index() as int;
    Move::lemma_indices(m);
    let kn = pos.piece_bb(us, Piece::Knight);
    let diag = pos.piece_bb(us, Piece::Bishop) | pos.piece_bb(us, Piece::Queen);
    let straight = pos.piece_bb(us, Piece::Rook) | pos.piece_bb(us, Piece::Queen);
    if pawn_move(pos, mode, m) {
        lemma_pawn_move_from(pos, mode, m);
        assert(bit_set(pos.piece_bb(us, Piece::Pawn), from));
    } else if reach_move(pos, mode, kn, Reach::Knight, m) {
        assert(bit_set(pos.piece_bb(us, Piece::Knight), from));
    } else if reach_move(pos, mode, diag, Reach::Diagonal, m) {
        lemma_set_ops(pos.piece_bb(us, Piece::Bishop), pos.piece_bb(us, Piece::Queen), from);
        if bit_set(pos.piece_bb(us, Piece::Bishop), from) {
        } else {
            assert(bit_set(pos.piece_bb(us, Piece::Queen), from));
        }
    } else if reach_move(pos, mode, straight, Reach::Straight, m) {
        lemma_set_ops(pos.piece_bb(us, Piece::Rook), pos.piece_bb(us, Piece::Queen), from);
        if bit_set(pos.piece_bb(us, Piece::Rook), from) {
        } else {
            assert(bit_set(pos.piece_bb(us, Piece::Queen), from));
        }
    } else {
        assert(king_move(pos, mode, m));
        assert(from == pos.king_sq(us)@);
        assert(pos.mailbox@[from] == PieceCode::of(us, Piece::King));
    }
}


/// The kind of moves the legal moves are drawn from: evasions when in check, all otherwise.
pub open spec fn legal_mode(pos: Position) -> GenType {
    if pos.checkers.0 != 0 {
        GenType::Evasions
    } else {
        GenType::All
    }
}

/// An en passant capture lands between the second and seventh ranks.
pub open spec fn ep_in_range(m: Move) -> bool {
    m.flag_of() == MoveFlag::EpCapture ==> 8 <= m.to_index() < 56
}

/// A legal move: generated for `mode` and leaving the king safe (see `Position::legal_spec`).
pub open spec fn legal_of(pos: Position, mode: GenType, m: Move) -> bool {
    &&& gen_move(pos, mode, m)
    &&& ep_in_range(m)
    &&& pos.legal_spec(m)
}

/// Keeps the moves of `all` that are legal, in order.
fn keep_legal(pos: &Position, bbs: &Bitboards, all: &MoveList, moves: &mut MoveList)
    requires
        bbs.wf(),
        pos.king_sq(pos.side_to_move)@ < 64,
    ensures
        forall|m: Move| #[trigger] final(moves)@.contains(m) <==> (all@.contains(m) && ep_in_range(m)
            && pos.legal_spec(m)),
        all@.no_duplicates() ==> final(moves)@.no_duplicates(),
{
    moves.clear();
    let n = all.len();
    let mut i: usize = 0;
    while i < n
        invariant
            i <= n,
            n == all@.len(),
            bbs.wf(),
            pos.king_sq(pos.side_to_move)@ < 64,
            forall|m: Move| #[trigger] moves@.contains(m) <==> (exists|k: int| 0 <= k < i && all@[k] == m
                && ep_in_range(m) && pos.legal_spec(m)),
            all@.no_duplicates() ==> moves@.no_duplicates(),
        decreases n - i,
    {
        let mv = all.get(i);
        let in_range = !mv.is_ep_capture() || (8 <= mv.to().u8() && mv.to().u8() < 56);
        proof {
            Move::lemma_indices(mv);
        }
        if in_range && pos.is_legal(mv, bbs) {
            let ghost before = moves@;
            moves.push(mv);
            proof {
                if all@.no_duplicates() {
                    if before.contains(mv) {
                        let k = choose|k: int| 0 <= k < i && all@[k] == mv && ep_in_range(mv)
                            && pos.legal_spec(mv);
                        assert(all@[k] == all@[i as int]);
                    }
                    assert forall|x: int, y: int|
                        0 <= x < moves@.len() && 0 <= y < moves@.len() && x != y implies moves@[x]
                        != moves@[y] by {
                        if x == moves@.len() - 1 {
                            assert(before.contains(moves@[y]));
                        } else if y == moves@.len() - 1 {
                            assert(before.contains(moves@[x]));
                        } else {
                            assert(before[x] == moves@[x] && before[y] == moves@[y]);
                        }
                    }
                }
                assert forall|m: Move| #[trigger] moves@.contains(m) <==> (exists|k: int| 0 <= k < i + 1
                    && all@[k] == m && ep_in_range(m) && pos.legal_spec(m)) by {
                    if m == mv {
                        assert(moves@[moves@.len() - 1] == m);
                        assert(all@[i as int] == m);
                    } else if moves@.contains(m) {
                        let j = choose|j: int| 0 <= j < moves@.len() && moves@[j] == m;
                        assert(before[j] == m);
                        assert(before.contains(m));
                    } else if exists|k: int| 0 <= k < i + 1 && all@[k] == m && ep_in_range(m)
                        && pos.legal_spec(m) {
                        let k = choose|k: int| 0 <= k < i + 1 && all@[k] == m && ep_in_range(m)
                            && pos.legal_spec(m);
                        if k == i {
                            assert(all@[i as int] == mv);
                        }
                        assert(before.contains(m));
                        let j = choose|j: int| 0 <= j < before.len() && before[j] == m;
                        assert(moves@[j] == m);
                    }
                }
            }
        } else {
            proof {
                assert forall|m: Move| #[trigger] moves@.contains(m) <==> (exists|k: int| 0 <= k < i + 1
                    && all@[k] == m && ep_in_range(m) && pos.legal_spec(m)) by {
                    if exists|k: int| 0 <= k < i + 1 && all@[k] == m && ep_in_range(m)
                        && pos.legal_spec(m) {
                        let k = choose|k: int| 0 <= k < i + 1 && all@[k] == m && ep_in_range(m)
                            && pos.legal_spec(m);
                        if k == i {
                            assert(all@[i as int] == mv);
                            assert(false);
                        }
                    }
                }
            }
        }
        i = i + 1;
    }
    proof {
        assert forall|m: Move| #[trigger] moves@.contains(m) <==> (all@.contains(m) && ep_in_range(m)
            && pos.legal_spec(m)) by {
            if all@.contains(m) && ep_in_range(m) && pos.legal_spec(m) {
                let k = choose|k: int| 0 <= k < all@.len() && all@[k] == m;
                assert(0 <= k < n && all@[k] == m);
            }
        }
    }
}

/// Fills `moves` with the legal moves of the side to move: the evasions when in check, all
/// pseudo-legal moves otherwise, less those that leave the king attacked.
pub fn generate_legal(pos: &Position, bbs: &Bitboards, moves: &mut MoveList)
    requires
        bbs.wf(),
        gen_ok(*pos, legal_mode(*pos)),
    ensures
        forall|m: Move| #[trigger] final(moves)@.contains(m) <==> legal_of(*pos, legal_mode(*pos), m),
        pos.board_ok() && pos.kings_ok() ==> final(moves)@.no_duplicates(),
{
    let mut all = MoveList::new();
    if !pos.checkers.is_empty() {
        generate_evasions(pos, bbs, &mut all);
    } else {
        generate_all(pos, bbs, &mut all);
    }
    keep_legal(pos, bbs, &all, moves);
}

/// Fills `moves` with the legal captures and promotions of the side to move.
pub fn generate_legal_noisy(pos: &Position, bbs: &Bitboards, moves: &mut MoveList)
    requires
        bbs.wf(),
        gen_ok(*pos, GenType::Noisy),
    ensures
        forall|m: Move| #[trigger] final(moves)@.contains(m) <==> legal_of(*pos, GenType::Noisy, m),
        pos.board_ok() && pos.kings_ok() ==> final(moves)@.no_duplicates(),
{
    let mut all = MoveList::new();
    generate_noisy(pos, bbs, &mut all);
    keep_legal(pos, bbs, &all, moves);
}
} // verus!
