//! Endgame knowledge: how far an evaluation is scaled toward a draw in endings that are hard
//! to win (rook and pawn against rook, wrong-coloured bishops, opposite bishops, few pawns).
use vstd::prelude::*;

use vstd::std_specs::bits::u64_trailing_zeros;

use crate::bitboard::{popcount, Bitboard};
use crate::evaluate::{Eval, EvalInfo, BOTH};
use crate::params::helpers::trunc_div;
use crate::position::Position;
use crate::types::{file_of, rank_of, square_colour, Colour, Piece, Square, FILE_A, FILE_H};

verus! {

/// The scale of an evaluation left as it is.
pub const SCALE_NORMAL: i32 = 128;

/// The scales (out of `SCALE_NORMAL`) of drawish endings.
#[derive(Copy, Clone, Debug)]
pub struct DrawScales {
    pub knn_vs_k: i32,
    pub no_pawn_queen: i32,
    pub no_pawn_rook: i32,
    pub no_pawn_rook_vs_queen: i32,
    pub no_pawn_minor: i32,
    pub opposite_bishops: [i32; 5],
    pub minor_low_pawn: [i32; 8],
    pub rook_vs_rook: [i32; 7],
}

/// A square as (rank, file), seen as if `strong` were white and (when `mirror`) with the
/// files reflected.
pub open spec fn norm_coords(sq: int, strong: Colour, mirror: bool) -> (int, int) {
    (
        if strong == Colour::White {
            rank_of(sq)
        } else {
            7 - rank_of(sq)
        },
        if mirror {
            7 - file_of(sq)
        } else {
            file_of(sq)
        },
    )
}

/// The distance between two values.
pub open spec fn abs_diff(a: int, b: int) -> int {
    if a >= b {
        a - b
    } else {
        b - a
    }
}

/// King distance between two (rank, file) places: the larger of the file and rank distances.
pub open spec fn dist_spec(a: (int, int), b: (int, int)) -> int {
    let f = abs_diff(a.1, b.1);
    let r = abs_diff(a.0, b.0);
    if f >= r {
        f
    } else {
        r
    }
}

/// The place one rank up.
pub open spec fn north_spec(a: (int, int)) -> (int, int) {
    (a.0 + 1, a.1)
}

/// The square of side `c`'s piece `p` (its lowest, when there are several).
pub open spec fn lowest(pos: Position, c: Colour, p: Piece) -> int {
    u64_trailing_zeros(pos.piece_bb(c, p)) as int
}

/// Side `c` of a tally (0 white, 1 black).
pub open spec fn side(c: Colour) -> int {
    c@ as int
}

/// The side with a single pawn in a rook and pawn against rook ending (white when white has
/// one pawn).
pub open spec fn krpkr_strong(info: EvalInfo) -> Colour {
    if info.pawns_spec(0) == 1 {
        Colour::White
    } else {
        Colour::Black
    }
}

/// Whether the material is king, rook and pawn against king and rook.
pub open spec fn is_krpkr(info: EvalInfo) -> bool {
    let strong = krpkr_strong(info);
    let weak = strong.other();
    &&& info.queens_spec(2) == 0
    &&& info.minors_spec(2) == 0
    &&& info.rooks_spec(side(strong)) == 1
    &&& info.rooks_spec(side(weak)) == 1
    &&& info.pawns_spec(side(strong)) == 1
    &&& info.pawns_spec(side(weak)) == 0
}

/// The scale of a rook and pawn against rook ending (see `krpkr_scale`), with the board seen
/// from the side with the pawn, its pawn on the queen side.
pub open spec fn krpkr_rules(
    wk: (int, int),
    bk: (int, int),
    wr: (int, int),
    br: (int, int),
    wp: (int, int),
    tempo: int,
) -> Option<int> {
    let file = wp.1;
    let rank = wp.0;
    let q = (7int, file);
    let pf = north_spec(wp);
    if rank <= 4 && dist_spec(bk, q) <= 1 && wk.0 <= 4 && (br.0 == 5 || (rank <= 2 && wr.0 != 5)) {
        Some(0)
    } else if rank == 5 && dist_spec(bk, q) <= 1 && wk.0 + tempo <= 5 && (br.0 == 0 || (tempo == 0
        && abs_diff(br.1, wp.1) >= 3)) {
        Some(0)
    } else if rank >= 5 && bk == q && br.0 == 0 && (tempo == 0 || dist_spec(wk, wp) >= 2) {
        Some(0)
    } else if wp == (6int, 0int) && wr == (7int, 0int) && (bk == (6int, 7int) || bk == (6int, 6int))
        && br.1 == 0 && (br.0 <= 2 || wk.1 >= 3 || wk.0 <= 4) {
        Some(0)
    } else if rank <= 4 && bk == pf && dist_spec(wk, wp) - tempo >= 2 && dist_spec(wk, br) - tempo
        >= 2 {
        Some(0)
    } else if rank == 6 && file != 0 && wr.1 == file && wr != q && dist_spec(wk, q) < dist_spec(
        bk,
        q,
    ) - 2 + tempo && dist_spec(wk, q) < dist_spec(bk, wr) + tempo {
        Some(SCALE_NORMAL as int)
    } else if file != 0 && wr.1 == file && wr.0 < wp.0 && dist_spec(wk, q) < dist_spec(bk, q) - 2
        + tempo && dist_spec(wk, pf) < dist_spec(bk, pf) - 2 + tempo && (dist_spec(bk, wr) + tempo
        >= 3 || (dist_spec(wk, q) < dist_spec(bk, wr) + tempo && dist_spec(wk, pf) < dist_spec(
        bk,
        wr,
    ) + tempo)) {
        Some(SCALE_NORMAL as int)
    } else if rank <= 3 && bk.0 > wp.0 && bk.1 == wp.1 {
        Some(10)
    } else if rank <= 3 && bk.0 > wp.0 && abs_diff(bk.1, wp.1) == 1 && dist_spec(wk, bk) > 2 {
        Some(24 - 2 * dist_spec(wk, bk))
    } else {
        None
    }
}

/// The scale of a rook and pawn against rook ending, or `None` when the material is other
/// or no rule applies.
pub open spec fn krpkr_spec(pos: Position, info: EvalInfo) -> Option<int> {
    let strong = krpkr_strong(info);
    let weak = strong.other();
    if !is_krpkr(info) {
        None
    } else {
        let raw = lowest(pos, strong, Piece::Pawn);
        let mirror = file_of(raw) > 3;
        krpkr_rules(
            norm_coords(pos.king_sq(strong)@ as int, strong, mirror),
            norm_coords(pos.king_sq(weak)@ as int, strong, mirror),
            norm_coords(lowest(pos, strong, Piece::Rook), strong, mirror),
            norm_coords(lowest(pos, weak, Piece::Rook), strong, mirror),
            norm_coords(raw, strong, mirror),
            if pos.side_to_move == strong {
                1
            } else {
                0
            },
        )
    }
}

/// What the scaling functions need: the tallies match the position, and both kings are on
/// the board.
pub open spec fn scaling_ok(pos: Position, info: EvalInfo) -> bool {
    &&& info.wf()
    &&& info.matches(pos)
    &&& pos.king_sq(Colour::White)@ < 64
    &&& pos.king_sq(Colour::Black)@ < 64
}

/// A piece counted once is on the board.
proof fn lemma_count_nonzero(x: u64)
    requires
        popcount(x) > 0,
    ensures
        x != 0,
{
}

/// A square as (rank, file) seen from `strong`, mirrored when asked.
fn normalise_krpkr(sq: Square, strong: Colour, mirror_file: bool) -> (r: (u8, u8))
    requires
        sq@ < 64,
    ensures
        r.0 as int == norm_coords(sq@ as int, strong, mirror_file).0,
        r.1 as int == norm_coords(sq@ as int, strong, mirror_file).1,
        r.0 < 8,
        r.1 < 8,
{
    let rank = if strong == Colour::White {
        sq.rank()
    } else {
        7 - sq.rank()
    };
    let file = if mirror_file {
        7 - sq.file()
    } else {
        sq.file()
    };
    (rank, file)
}

/// Whether two (rank, file) places are the same.
fn same(a: (u8, u8), b: (u8, u8)) -> (r: bool)
    ensures
        r == (a.0 == b.0 && a.1 == b.1),
{
    a.0 == b.0 && a.1 == b.1
}

/// King distance between two (rank, file) places.
fn dist(a: (u8, u8), b: (u8, u8)) -> (r: i32)
    requires
        a.0 <= 8 && a.1 <= 8 && b.0 <= 8 && b.1 <= 8,
    ensures
        r == dist_spec((a.0 as int, a.1 as int), (b.0 as int, b.1 as int)),
{
    let f = if a.1 >= b.1 {
        a.1 - b.1
    } else {
        b.1 - a.1
    };
    let r = if a.0 >= b.0 {
        a.0 - b.0
    } else {
        b.0 - a.0
    };
    if f >= r {
        f as i32
    } else {
        r as i32
    }
}

/// File distance between two (rank, file) places.
fn file_dist(a: (u8, u8), b: (u8, u8)) -> (r: i32)
    ensures
        r == abs_diff(a.1 as int, b.1 as int),
{
    if a.1 >= b.1 {
        (a.1 - b.1) as i32
    } else {
        (b.1 - a.1) as i32
    }
}

/// The scale of a rook and pawn against rook ending: drawn (0) with the defending king in
/// front of the pawn and the right rook defence, won (`SCALE_NORMAL`) with the attacking king
/// ahead, low with the defending king in the pawn's path; `None` for other material.
fn krpkr_scale(pos: &Position, info: &EvalInfo) -> (r: Option<i32>)
    requires
        scaling_ok(*pos, *info),
    ensures
        r matches Some(x) ==> krpkr_spec(*pos, *info) == Some(x as int),
        r is None ==> krpkr_spec(*pos, *info) is None,
{
    let strong = if info.pawns(0) == 1 {
        Colour::White
    } else {
        Colour::Black
    };
    let weak = strong.opposite();
    let si = strong.idx();
    let wi = weak.idx();

    // Ensure we have a KRP vs KR endgame
    if info.queens(BOTH) != 0 || info.minors(BOTH) != 0 || info.rooks(si) != 1 || info.rooks(wi)
        != 1 || info.pawns(si) != 1 || info.pawns(wi) != 0 {
        return None;
    }
    proof {
        lemma_count_nonzero(pos.piece_bb(strong, Piece::Pawn));
        lemma_count_nonzero(pos.piece_bb(strong, Piece::Rook));
        lemma_count_nonzero(pos.piece_bb(weak, Piece::Rook));
    }
    let raw_wpsq = pos.pieces[si][Piece::Pawn.idx()].lsb();
    let mirror_file = raw_wpsq.file() > 3;

    let wksq = normalise_krpkr(pos.king_square(strong), strong, mirror_file);
    let bksq = normalise_krpkr(pos.king_square(weak), strong, mirror_file);
    let wrsq = normalise_krpkr(pos.pieces[si][Piece::Rook.idx()].lsb(), strong, mirror_file);
    let brsq = normalise_krpkr(pos.pieces[wi][Piece::Rook.idx()].lsb(), strong, mirror_file);
    let wpsq = normalise_krpkr(raw_wpsq, strong, mirror_file);

    krpkr_rules_exec(wksq, bksq, wrsq, brsq, wpsq, pos.side_to_move == strong)
}

/// The rules of `krpkr_rules`, on places given as (rank, file).
fn krpkr_rules_exec(
    wksq: (u8, u8),
    bksq: (u8, u8),
    wrsq: (u8, u8),
    brsq: (u8, u8),
    wpsq: (u8, u8),
    strong_to_move: bool,
) -> (r: Option<i32>)
    requires
        wksq.0 < 8 && wksq.1 < 8,
        bksq.0 < 8 && bksq.1 < 8,
        wrsq.0 < 8 && wrsq.1 < 8,
        brsq.0 < 8 && brsq.1 < 8,
        wpsq.0 < 8 && wpsq.1 < 8,
    ensures
        r matches Some(x) ==> krpkr_rules(
            (wksq.0 as int, wksq.1 as int),
            (bksq.0 as int, bksq.1 as int),
            (wrsq.0 as int, wrsq.1 as int),
            (brsq.0 as int, brsq.1 as int),
            (wpsq.0 as int, wpsq.1 as int),
            if strong_to_move {
                1
            } else {
                0
            },
        ) == Some(x as int),
        r is None ==> krpkr_rules(
            (wksq.0 as int, wksq.1 as int),
            (bksq.0 as int, bksq.1 as int),
            (wrsq.0 as int, wrsq.1 as int),
            (brsq.0 as int, brsq.1 as int),
            (wpsq.0 as int, wpsq.1 as int),
            if strong_to_move {
                1
            } else {
                0
            },
        ) is None,
{
    let tempo: i32 = if strong_to_move {
        1
    } else {
        0
    };
    let file = wpsq.1;
    let rank = wpsq.0;
    let queening_sq = (7u8, file);
    let pawn_front = (rank + 1, file);

    // If the pawn is not too far advanced and the defending king defends the queening square,
    // use third rank defense
    if rank <= 4 && dist(bksq, queening_sq) <= 1 && wksq.0 <= 4 && (brsq.0 == 5 || (rank <= 2
        && wrsq.0 != 5)) {
        return Some(0);
    }
    // The defending side saves a draw by checking from behind in case the pawn has advanced
    // to the 6th rank with the king behind
    if rank == 5 && dist(bksq, queening_sq) <= 1 && wksq.0 as i32 + tempo <= 5 && (brsq.0 == 0
        || (tempo == 0 && file_dist(brsq, wpsq) >= 3)) {
        return Some(0);
    }
    if rank >= 5 && same(bksq, queening_sq) && brsq.0 == 0 && (tempo == 0 || dist(wksq, wpsq) >= 2) {
        return Some(0);
    }
    // White pawn on a7 and rook on a8 is a draw if black's king is on g7 or h7 and the
    // black rook is behind the pawn
    if same(wpsq, (6u8, 0u8)) && same(wrsq, (7u8, 0u8)) && (same(bksq, (6u8, 7u8)) || same(bksq, (6u8, 6u8)))
        && brsq.1 == 0 && (brsq.0 <= 2 || wksq.1 >= 3 || wksq.0 <= 4) {
        return Some(0);
    }
    // If the defending king blocks the pawn and the attacking king is too far away, it is drawn
    if rank <= 4 && same(bksq, pawn_front) && dist(wksq, wpsq) - tempo >= 2 && dist(wksq, brsq) - tempo
        >= 2 {
        return Some(0);
    }
    // Pawn on 7th rank supported behind by the rook usually wins if attacking king is closer to
    // the queening square than the defenders, and the defender cannot gain tempo by threatening
    // the rook attacking rook
    if rank == 6 && file != 0 && wrsq.1 == file && !same(wrsq, queening_sq) && dist(wksq, queening_sq)
        < dist(bksq, queening_sq) - 2 + tempo && dist(wksq, queening_sq) < dist(bksq, wrsq) + tempo {
        return Some(SCALE_NORMAL);
    }
    // Similar to above but with pawn further back
    if file != 0 && wrsq.1 == file && wrsq.0 < wpsq.0 {
        if dist(wksq, queening_sq) < dist(bksq, queening_sq) - 2 + tempo && dist(wksq, pawn_front)
            < dist(bksq, pawn_front) - 2 + tempo && (dist(bksq, wrsq) + tempo >= 3 || (dist(
            wksq,
            queening_sq,
        ) < dist(bksq, wrsq) + tempo && dist(wksq, pawn_front) < dist(bksq, wrsq) + tempo)) {
            return Some(SCALE_NORMAL);
        }
    }
    // If the pawn is not far advanced and the defending king is somewhere in the pawns path, it is
    // probably a draw
    if rank <= 3 && bksq.0 > wpsq.0 {
        if bksq.1 == wpsq.1 {
            return Some(10);
        }
        if file_dist(bksq, wpsq) == 1 && dist(wksq, bksq) > 2 {
            return Some(24 - 2 * dist(wksq, bksq));
        }
    }
    None
}


/// The square with the given (rank, file) index.
pub open spec fn sq_index(rank: int, file: int) -> int {
    rank * 8 + file
}

/// The promotion square of `strong`'s pawns on file `file`.
pub open spec fn promotion_square(strong: Colour, file: int) -> int {
    sq_index(
        if strong == Colour::White {
            7
        } else {
            0
        },
        file,
    )
}

/// Whether every pawn of `bb` is on file `f` (bitboard of that file).
pub open spec fn only_on(bb: u64, file_bb: u64) -> bool {
    bb & !file_bb == 0
}

/// King distance between two squares.
pub open spec fn sq_dist(a: int, b: int) -> int {
    dist_spec((rank_of(a), file_of(a)), (rank_of(b), file_of(b)))
}

/// Bishop and rook pawns of the wrong colour: drawn (0) when the bishop does not cover the
/// promotion square and the defending king is next to it; `None` for other material.
pub open spec fn wrong_bishop_spec(pos: Position, strong: Colour, info: EvalInfo) -> Option<int> {
    let weak = strong.other();
    let pawns = pos.piece_bb(strong, Piece::Pawn);
    let only_a = only_on(pawns, FILE_A);
    let only_h = only_on(pawns, FILE_H);
    if info.majors_spec(2) != 0 || info.knights_spec(2) != 0 || info.bishops_spec(side(strong)) != 1
        || info.bishops_spec(side(weak)) != 0 || info.pawns_spec(side(strong)) == 0
        || info.pawns_spec(side(weak)) != 0 {
        None
    } else if !only_a && !only_h {
        None
    } else {
        let promo = promotion_square(
            strong,
            if only_a {
                0
            } else {
                7
            },
        );
        if square_colour(lowest(pos, strong, Piece::Bishop)) == square_colour(promo) {
            None
        } else if sq_dist(pos.king_sq(weak)@ as int, promo) <= 1 {
            Some(0)
        } else {
            None
        }
    }
}

/// Rook pawns against a bare king: drawn (0) when the defending king stands on the promotion
/// square, if every pawn is both on the a-file and on the h-file; `None` otherwise.
pub open spec fn rook_pawn_spec(pos: Position, strong: Colour, info: EvalInfo) -> Option<int> {
    let weak = strong.other();
    let pawns = pos.piece_bb(strong, Piece::Pawn);
    let only_a = only_on(pawns, FILE_A);
    let only_h = only_on(pawns, FILE_H);
    if info.non_king_spec(side(weak)) != 0 || info.majors_spec(side(strong)) != 0
        || info.minors_spec(side(strong)) != 0 || info.pawns_spec(side(strong)) == 0 {
        None
    } else if !only_a || !only_h {
        None
    } else if pos.king_sq(weak)@ == promotion_square(
        strong,
        if only_a {
            0
        } else {
            7
        },
    ) {
        Some(0)
    } else {
        None
    }
}

/// `x` held to `[lo, hi]`.
pub open spec fn clamp_int(x: int, lo: int, hi: int) -> int {
    if x < lo {
        lo
    } else if x > hi {
        hi
    } else {
        x
    }
}

/// The scale (out of `SCALE_NORMAL`) of the evaluation for `strong`, the side it favours:
/// the special endings first, then bare knights, pawnless material, opposite bishops,
/// minor-piece endings with few pawns and rook endings; otherwise `SCALE_NORMAL`.
pub open spec fn draw_scale_spec(
    pos: Position,
    strong: Colour,
    info: EvalInfo,
    scales: DrawScales,
) -> int {
    let weak = strong.other();
    let st = side(strong);
    let wk = side(weak);
    let pawn_adv = info.pawns_spec(st) - info.pawns_spec(wk);
    if krpkr_spec(pos, info) is Some {
        krpkr_spec(pos, info)->0
    } else if wrong_bishop_spec(pos, strong, info) is Some {
        wrong_bishop_spec(pos, strong, info)->0
    } else if rook_pawn_spec(pos, strong, info) is Some {
        rook_pawn_spec(pos, strong, info)->0
    } else if info.non_king_spec(wk) == 0 && info.non_king_spec(st) == 2 && info.knights_spec(st) == 2 {
        scales.knn_vs_k as int
    } else if info.pawns_spec(st) == 0 && info.queens_spec(st) > 0 {
        scales.no_pawn_queen as int
    } else if info.pawns_spec(st) == 0 && info.rooks_spec(st) > 0 {
        if info.queens_spec(wk) == 0 {
            scales.no_pawn_rook as int
        } else {
            scales.no_pawn_rook_vs_queen as int
        }
    } else if info.pawns_spec(st) == 0 && info.minors_spec(2) == 1 {
        scales.no_pawn_minor as int
    } else if info.pawns_spec(st) == 0 && info.knights_spec(st) == 2 && info.minors_spec(2) == 2 {
        scales.knn_vs_k as int
    } else if info.pawns_spec(st) == 0 && info.minors_spec(st) == 2 {
        SCALE_NORMAL as int
    } else if info.majors_spec(2) == 0 && info.knights_spec(2) == 0 && info.bishops_spec(st) == 1
        && info.bishops_spec(wk) == 1 {
        if square_colour(lowest(pos, strong, Piece::Bishop)) == square_colour(
            lowest(pos, weak, Piece::Bishop),
        ) {
            SCALE_NORMAL as int
        } else if info.pawns_spec(2) == 0 {
            scales.no_pawn_minor as int
        } else {
            scales.opposite_bishops@[clamp_int(pawn_adv, 0, 4)] as int
        }
    } else if info.majors_spec(2) == 0 {
        let minor_adv = info.minors_spec(st) - info.minors_spec(wk);
        if info.minors_spec(2) == 0 || info.pawns_spec(2) >= 3 {
            SCALE_NORMAL as int
        } else if minor_adv <= -1 {
            scales.minor_low_pawn@[0] as int
        } else if minor_adv == 0 {
            if pawn_adv <= 0 {
                scales.minor_low_pawn@[1] as int
            } else if pawn_adv == 1 {
                scales.minor_low_pawn@[2] as int
            } else {
                scales.minor_low_pawn@[3] as int
            }
        } else if minor_adv == 1 {
            if info.pawns_spec(2) == 0 {
                scales.minor_low_pawn@[4] as int
            } else if info.pawns_spec(2) == 1 {
                scales.minor_low_pawn@[5] as int
            } else {
                scales.minor_low_pawn@[6] as int
            }
        } else {
            scales.minor_low_pawn@[7] as int
        }
    } else if info.queens_spec(2) == 0 && info.minors_spec(2) == 0 && info.rooks_spec(st) == 1
        && info.rooks_spec(wk) == 1 {
        let total = info.pawns_spec(2);
        if total == 0 {
            SCALE_NORMAL as int
        } else if pawn_adv <= 0 {
            scales.rook_vs_rook@[0] as int
        } else if pawn_adv == 1 {
            if total <= 2 {
                scales.rook_vs_rook@[1] as int
            } else if total <= 4 {
                scales.rook_vs_rook@[2] as int
            } else {
                scales.rook_vs_rook@[3] as int
            }
        } else if pawn_adv == 2 {
            if total <= 4 {
                scales.rook_vs_rook@[4] as int
            } else {
                scales.rook_vs_rook@[5] as int
            }
        } else {
            scales.rook_vs_rook@[6] as int
        }
    } else {
        SCALE_NORMAL as int
    }
}

/// Whether every pawn of `pawns` is on the file `file_bb`.
fn only_on_file(pawns: Bitboard, file_bb: u64) -> (r: bool)
    ensures
        r == only_on(pawns.0, file_bb),
{
    pawns.0 & !file_bb == 0
}

/// See `wrong_bishop_spec`.
fn wrong_rook_pawn_bishop_scale(pos: &Position, strong: Colour, info: &EvalInfo) -> (r: Option<i32>)
    requires
        scaling_ok(*pos, *info),
    ensures
        r matches Some(x) ==> wrong_bishop_spec(*pos, strong, *info) == Some(x as int),
        r is None ==> wrong_bishop_spec(*pos, strong, *info) is None,
{
    let weak = strong.opposite();
    let si = strong.idx();
    let wi = weak.idx();
    if info.majors(BOTH) != 0 || info.knights(BOTH) != 0 || info.bishops(si) != 1 || info.bishops(
        wi,
    ) != 0 || info.pawns(si) == 0 || info.pawns(wi) != 0 {
        return None;
    }
    let pawns = pos.pieces[si][Piece::Pawn.idx()];
    let only_a_pawns = only_on_file(pawns, FILE_A);
    let only_h_pawns = only_on_file(pawns, FILE_H);
    if !only_a_pawns && !only_h_pawns {
        return None;
    }
    let promotion_file: u8 = if only_a_pawns {
        0
    } else {
        7
    };
    let promotion_rank: u8 = if strong == Colour::White {
        7
    } else {
        0
    };
    let promotion_sq = Square::from_coords(promotion_rank, promotion_file);
    proof {
        lemma_count_nonzero(pos.piece_bb(strong, Piece::Bishop));
    }
    let bishop = pos.pieces[si][Piece::Bishop.idx()].lsb();
    // Bishop guards the promotion square
    if bishop.colour() == promotion_sq.colour() {
        return None;
    }
    // Defending king can block the pawn from promoting
    let k = pos.king_square(weak);
    if dist((k.rank(), k.file()), (promotion_sq.rank(), promotion_sq.file())) <= 1 {
        return Some(0);
    }
    None
}

/// See `rook_pawn_spec`.
fn rook_pawn_vs_bare_king_scale(pos: &Position, strong: Colour, info: &EvalInfo) -> (r: Option<i32>)
    requires
        scaling_ok(*pos, *info),
    ensures
        r matches Some(x) ==> rook_pawn_spec(*pos, strong, *info) == Some(x as int),
        r is None ==> rook_pawn_spec(*pos, strong, *info) is None,
{
    let weak = strong.opposite();
    let si = strong.idx();
    let wi = weak.idx();
    if info.non_king(wi) != 0 || info.majors(si) != 0 || info.minors(si) != 0 || info.pawns(si) == 0 {
        return None;
    }
    let pawns = pos.pieces[si][Piece::Pawn.idx()];
    let only_a_pawns = only_on_file(pawns, FILE_A);
    let only_h_pawns = only_on_file(pawns, FILE_H);
    if !only_a_pawns || !only_h_pawns {
        return None;
    }
    let promotion_file: u8 = if only_a_pawns {
        0
    } else {
        7
    };
    let promotion_rank: u8 = if strong == Colour::White {
        7
    } else {
        0
    };
    let promotion_sq = Square::from_coords(promotion_rank, promotion_file);
    if pos.king_square(weak).u8() == promotion_sq.u8() {
        return Some(0);
    }
    None
}

/// The scale of the evaluation for `strong`; see `draw_scale_spec`.
fn draw_scale(pos: &Position, strong: Colour, info: &EvalInfo, scales: &DrawScales) -> (r: i32)
    requires
        scaling_ok(*pos, *info),
    ensures
        r == draw_scale_spec(*pos, strong, *info, *scales),
{
    let weak = strong.opposite();
    let si = strong.idx();
    let wi = weak.idx();

    if let Some(scale) = krpkr_scale(pos, info) {
        return scale;
    }
    if let Some(scale) = wrong_rook_pawn_bishop_scale(pos, strong, info) {
        return scale;
    }
    if let Some(scale) = rook_pawn_vs_bare_king_scale(pos, strong, info) {
        return scale;
    }
    // Scale down to near 0 when position is KNN vs K
    if info.non_king(wi) == 0 && info.non_king(si) == 2 && info.knights(si) == 2 {
        return scales.knn_vs_k;
    }
    // Scale down when the stronger side has no pawns
    if info.pawns(si) == 0 {
        // No pawns makes it harder to convert, however a queen is usually strong enough
        if info.queens(si) > 0 {
            return scales.no_pawn_queen;
        }
        // Rook advantages with no pawns can be hard to convert unless the opponent has weak
        // material
        if info.rooks(si) > 0 {
            return if info.queens(wi) == 0 {
                scales.no_pawn_rook
            } else {
                scales.no_pawn_rook_vs_queen
            };
        }
        // KM vs K is a draw
        if info.minors(BOTH) == 1 {
            return scales.no_pawn_minor;
        }
        // KNN vs K is almost always drawn, so scale to near 0
        if info.knights(si) == 2 && info.minors(BOTH) == 2 {
            return scales.knn_vs_k;
        }
        // KMM vs K is usually winnable
        if info.minors(si) == 2 {
            return SCALE_NORMAL;
        }
    }
    let pawn_adv = info.pawns(si) as i32 - info.pawns(wi) as i32;
    // Scale down opposite coloured bishops + pawn endgames
    if info.majors(BOTH) == 0 && info.knights(BOTH) == 0 && info.bishops(si) == 1 && info.bishops(
        wi,
    ) == 1 {
        proof {
            lemma_count_nonzero(pos.piece_bb(strong, Piece::Bishop));
            lemma_count_nonzero(pos.piece_bb(weak, Piece::Bishop));
        }
        let strong_bishop = pos.pieces[si][Piece::Bishop.idx()].lsb();
        let weak_bishop = pos.pieces[wi][Piece::Bishop.idx()].lsb();
        if strong_bishop.colour() == weak_bishop.colour() {
            return SCALE_NORMAL;
        }
        // Opposite coloured bishop vs opposite coloured bishop is nearly always drawn
        if info.pawns(BOTH) == 0 {
            return scales.no_pawn_minor;
        }
        let i: usize = if pawn_adv < 0 {
            0
        } else if pawn_adv > 4 {
            4
        } else {
            pawn_adv as usize
        };
        return scales.opposite_bishops[i];
    }
    // Scale down minor-only endings with < 3 pawns
    if info.majors(BOTH) == 0 {
        if info.minors(BOTH) == 0 || info.pawns(BOTH) >= 3 {
            return SCALE_NORMAL;
        }
        let minor_adv = info.minors(si) as i32 - info.minors(wi) as i32;
        // Eval likes strong side despite not being up a minor; with < 3 pawns, this is often
        // hard to convert
        if minor_adv <= -1 {
            return scales.minor_low_pawn[0];
        }
        // Same minor count: mostly pawn conversion chances
        if minor_adv == 0 {
            return if pawn_adv <= 0 {
                scales.minor_low_pawn[1]
            } else if pawn_adv == 1 {
                scales.minor_low_pawn[2]
            } else {
                scales.minor_low_pawn[3]
            };
        }
        // Up one minor in low-pawn endgame
        if minor_adv == 1 {
            let total = info.pawns(BOTH);
            return if total == 0 {
                scales.minor_low_pawn[4]
            } else if total == 1 {
                scales.minor_low_pawn[5]
            } else {
                scales.minor_low_pawn[6]
            };
        }
        // Up two or more minors: likely win
        return scales.minor_low_pawn[7];
    }
    // Scale down rook vs rook endgames
    if info.queens(BOTH) == 0 && info.minors(BOTH) == 0 && info.rooks(si) == 1 && info.rooks(wi)
        == 1 {
        let total_pawns = info.pawns(BOTH);
        if total_pawns == 0 {
            return SCALE_NORMAL;
        }
        return if pawn_adv <= 0 {
            scales.rook_vs_rook[0]
        } else if pawn_adv == 1 {
            if total_pawns <= 2 {
                scales.rook_vs_rook[1]
            } else if total_pawns <= 4 {
                scales.rook_vs_rook[2]
            } else {
                scales.rook_vs_rook[3]
            }
        } else if pawn_adv == 2 {
            if total_pawns <= 4 {
                scales.rook_vs_rook[4]
            } else {
                scales.rook_vs_rook[5]
            }
        } else {
            scales.rook_vs_rook[6]
        };
    }
    SCALE_NORMAL
}

/// The side an evaluation favours: the side to move when positive, the other when negative.
pub open spec fn favoured(pos: Position, eval: int) -> Colour {
    if eval > 0 {
        pos.side_to_move
    } else {
        pos.side_to_move.other()
    }
}

/// The evaluation scaled toward a draw: `eval * scale / SCALE_NORMAL` (rounded toward zero)
/// with the scale of the favoured side; 0 stays 0.
pub open spec fn scale_endgame_spec(
    pos: Position,
    eval: int,
    info: EvalInfo,
    scales: DrawScales,
) -> int {
    if eval == 0 {
        0
    } else {
        trunc_div(eval * draw_scale_spec(pos, favoured(pos, eval), info, scales), SCALE_NORMAL as int)
    }
}

/// Scales `eval` toward a draw in drawish endings; see `scale_endgame_spec`.
pub fn scale_endgame(pos: &Position, eval: Eval, info: &EvalInfo, scales: &DrawScales) -> (r: Eval)
    requires
        scaling_ok(*pos, *info),
        eval != 0 ==> i32::MIN <= eval * draw_scale_spec(*pos, favoured(*pos, eval as int), *info, *scales)
            <= i32::MAX,
    ensures
        r == scale_endgame_spec(*pos, eval as int, *info, *scales),
{
    if eval == 0 {
        return 0;
    }
    let strong = if eval > 0 {
        pos.side_to_move
    } else {
        pos.side_to_move.opposite()
    };
    let scale = draw_scale(pos, strong, info, scales);
    let product = eval as i64 * scale as i64;
    let q = if product >= 0 {
        product / 128
    } else {
        -((-product) / 128)
    };
    proof {
        if product >= 0 {
            assert(0 <= product / 128 <= product);
        } else {
            assert(0 <= (-(product as int)) / 128 <= -(product as int));
        }
    }
    q as i32
}

/// Every scale is between 0 and `SCALE_NORMAL`.
pub open spec fn scales_in_range(scales: DrawScales) -> bool {
    &&& 0 <= scales.knn_vs_k <= SCALE_NORMAL
    &&& 0 <= scales.no_pawn_queen <= SCALE_NORMAL
    &&& 0 <= scales.no_pawn_rook <= SCALE_NORMAL
    &&& 0 <= scales.no_pawn_rook_vs_queen <= SCALE_NORMAL
    &&& 0 <= scales.no_pawn_minor <= SCALE_NORMAL
    &&& forall|i: int| 0 <= i < 5 ==> 0 <= #[trigger] scales.opposite_bishops@[i] <= SCALE_NORMAL
    &&& forall|i: int| 0 <= i < 8 ==> 0 <= #[trigger] scales.minor_low_pawn@[i] <= SCALE_NORMAL
    &&& forall|i: int| 0 <= i < 7 ==> 0 <= #[trigger] scales.rook_vs_rook@[i] <= SCALE_NORMAL
}

/// The rook and pawn against rook rules give scales between 0 and `SCALE_NORMAL`.
proof fn lemma_krpkr_range(
    wk: (int, int),
    bk: (int, int),
    wr: (int, int),
    br: (int, int),
    wp: (int, int),
    tempo: int,
)
    requires
        0 <= wk.0 < 8 && 0 <= wk.1 < 8 && 0 <= bk.0 < 8 && 0 <= bk.1 < 8,
    ensures
        krpkr_rules(wk, bk, wr, br, wp, tempo) matches Some(x) ==> 0 <= x <= SCALE_NORMAL,
{
}

/// With scales between 0 and `SCALE_NORMAL`, every ending's scale is between them too.
pub proof fn lemma_draw_scale_range(pos: Position, strong: Colour, info: EvalInfo, scales: DrawScales)
    requires
        scales_in_range(scales),
        pos.king_sq(Colour::White)@ < 64,
        pos.king_sq(Colour::Black)@ < 64,
    ensures
        0 <= draw_scale_spec(pos, strong, info, scales) <= SCALE_NORMAL,
{
    let s = krpkr_strong(info);
    let w = s.other();
    let raw = lowest(pos, s, Piece::Pawn);
    let mirror = file_of(raw) > 3;
    lemma_krpkr_range(
        norm_coords(pos.king_sq(s)@ as int, s, mirror),
        norm_coords(pos.king_sq(w)@ as int, s, mirror),
        norm_coords(lowest(pos, s, Piece::Rook), s, mirror),
        norm_coords(lowest(pos, w, Piece::Rook), s, mirror),
        norm_coords(raw, s, mirror),
        if pos.side_to_move == s {
            1
        } else {
            0
        },
    );
}

/// With scales between 0 and `SCALE_NORMAL`, scaling an evaluation never makes it larger and
/// never changes its sign: the result lies between 0 and the evaluation.
pub proof fn lemma_scale_shrinks(pos: Position, eval: int, info: EvalInfo, scales: DrawScales)
    requires
        scales_in_range(scales),
        pos.king_sq(Colour::White)@ < 64,
        pos.king_sq(Colour::Black)@ < 64,
    ensures
        eval >= 0 ==> 0 <= scale_endgame_spec(pos, eval, info, scales) <= eval,
        eval <= 0 ==> eval <= scale_endgame_spec(pos, eval, info, scales) <= 0,
{
    if eval != 0 {
        let strong = favoured(pos, eval);
        lemma_draw_scale_range(pos, strong, info, scales);
        let sc = draw_scale_spec(pos, strong, info, scales);
        if eval > 0 {
            assert(0 <= (eval * sc) / 128 <= eval) by (nonlinear_arith)
                requires
                    eval > 0,
                    0 <= sc <= 128,
            ;
        } else {
            assert(0 <= (-(eval * sc)) / 128 <= -eval) by (nonlinear_arith)
                requires
                    eval < 0,
                    0 <= sc <= 128,
            ;
        }
    }
}

} // verus!
