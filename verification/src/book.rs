//! Opening book moves: decoding a book entry's move and choosing the heaviest legal one among
//! the entries of a position.
use vstd::prelude::*;

use crate::bitboard::Bitboards;
use crate::movegen::{gen_ok, generate_legal, legal_mode, legal_of, MoveList};
use crate::position::Position;
use crate::types::{Move, Piece, Square};

verus! {

/// The promotion piece of a book move's code: none, knight, bishop, rook, queen; `None` for
/// codes past 4.
pub open spec fn promo_spec(code: int) -> Option<Option<Piece>> {
    if code == 0 {
        Some(None)
    } else if code == 1 {
        Some(Some(Piece::Knight))
    } else if code == 2 {
        Some(Some(Piece::Bishop))
    } else if code == 3 {
        Some(Some(Piece::Rook))
    } else if code == 4 {
        Some(Some(Piece::Queen))
    } else {
        None
    }
}

/// Decodes a book move's promotion code; see `promo_spec`.
pub fn promo_piece(code: u16) -> (r: Option<Option<Piece>>)
    ensures
        r == promo_spec(code as int),
{
    match code {
        0 => Some(None),
        1 => Some(Some(Piece::Knight)),
        2 => Some(Some(Piece::Bishop)),
        3 => Some(Some(Piece::Rook)),
        4 => Some(Some(Piece::Queen)),
        _ => None,
    }
}

/// A book move's source square, destination square and promotion: three bits each for the
/// destination file and rank, the source file and rank, then the promotion code. A king
/// "capturing" its own rook from e1 or e8 is the castle, moved to the king's destination.
pub open spec fn decode_spec(m: int) -> Option<(int, int, Option<Piece>)> {
    let to_file = m % 8;
    let to_rank = (m / 8) % 8;
    let from_file = (m / 64) % 8;
    let from_rank = (m / 512) % 8;
    let from = from_rank * 8 + from_file;
    let to = to_rank * 8 + to_file;
    let to2 = if from == 4 && to == 7 {
        6
    } else if from == 4 && to == 0 {
        2
    } else if from == 60 && to == 63 {
        62
    } else if from == 60 && to == 56 {
        58
    } else {
        to
    };
    match promo_spec((m / 4096) % 8) {
        Some(p) => Some((from, to2, p)),
        None => None,
    }
}

/// Decoding a book move, field by field: with destination file `tf` and rank `tr`, source file
/// `ff` and rank `fr`, promotion code `p` and a top bit `hi`, a code with `p` past 4 is refused;
/// otherwise it decodes to the source square `fr * 8 + ff`, the promotion `p` names (none,
/// knight, bishop, rook, queen) and the destination `tr * 8 + tf`, except that the king on e1 or
/// e8 "taking" its own rook in the corner is the castle, decoded to the king's destination:
/// e1h1 to g1, e1a1 to c1, e8h8 to g8, e8a8 to c8.
pub proof fn lemma_decode_fields(tf: int, tr: int, ff: int, fr: int, p: int, hi: int)
    requires
        0 <= tf < 8,
        0 <= tr < 8,
        0 <= ff < 8,
        0 <= fr < 8,
        0 <= p < 8,
        0 <= hi < 2,
    ensures
        ({
            let m = tf + 8 * tr + 64 * ff + 512 * fr + 4096 * p + 32768 * hi;
            let castle = ff == 4 && (fr == 0 || fr == 7) && tr == fr && (tf == 7 || tf == 0);
            &&& p > 4 ==> decode_spec(m) is None
            &&& p <= 4 ==> decode_spec(m) is Some
            &&& decode_spec(m) matches Some(d) ==> {
                &&& d.0 == fr * 8 + ff
                &&& !castle ==> d.1 == tr * 8 + tf
                &&& castle && tf == 7 ==> d.1 == fr * 8 + 6
                &&& castle && tf == 0 ==> d.1 == fr * 8 + 2
                &&& (p == 0 <==> d.2 is None)
                &&& p == 1 ==> d.2 == Some(Piece::Knight)
                &&& p == 2 ==> d.2 == Some(Piece::Bishop)
                &&& p == 3 ==> d.2 == Some(Piece::Rook)
                &&& p == 4 ==> d.2 == Some(Piece::Queen)
            }
        }),
{
    let m = tf + 8 * tr + 64 * ff + 512 * fr + 4096 * p + 32768 * hi;
    vstd::arithmetic::div_mod::lemma_fundamental_div_mod_converse(m, 8, tr + 8 * ff + 64 * fr + 512 * p + 4096 * hi, tf);
    let q1 = tr + 8 * ff + 64 * fr + 512 * p + 4096 * hi;
    vstd::arithmetic::div_mod::lemma_fundamental_div_mod_converse(q1, 8, ff + 8 * fr + 64 * p + 512 * hi, tr);
    vstd::arithmetic::div_mod::lemma_fundamental_div_mod_converse(m, 64, ff + 8 * fr + 64 * p + 512 * hi, tf + 8 * tr);
    let q2 = ff + 8 * fr + 64 * p + 512 * hi;
    vstd::arithmetic::div_mod::lemma_fundamental_div_mod_converse(q2, 8, fr + 8 * p + 64 * hi, ff);
    vstd::arithmetic::div_mod::lemma_fundamental_div_mod_converse(m, 512, fr + 8 * p + 64 * hi, tf + 8 * tr + 64 * ff);
    let q3 = fr + 8 * p + 64 * hi;
    vstd::arithmetic::div_mod::lemma_fundamental_div_mod_converse(q3, 8, p + 8 * hi, fr);
    vstd::arithmetic::div_mod::lemma_fundamental_div_mod_converse(m, 4096, p + 8 * hi, tf + 8 * tr + 64 * ff + 512 * fr);
    vstd::arithmetic::div_mod::lemma_fundamental_div_mod_converse(p + 8 * hi, 8, hi, p);
}

/// Decodes a book move; see `decode_spec`.
pub fn decode_book_move(book_move: u16) -> (r: Option<(Square, Square, Option<Piece>)>)
    ensures
        r matches Some(t) ==> decode_spec(book_move as int) == Some((t.0@ as int, t.1@ as int, t.2)),
        r is None ==> decode_spec(book_move as int) is None,
{
    let to_file = (book_move % 8) as u8;
    let to_rank = ((book_move / 8) % 8) as u8;
    let from_file = ((book_move / 64) % 8) as u8;
    let from_rank = ((book_move / 512) % 8) as u8;
    let promo = match promo_piece((book_move / 4096) % 8) {
        Some(p) => p,
        None => {
            return None;
        },
    };
    let from = Square::from_coords(from_rank, from_file);
    let mut to = Square::from_coords(to_rank, to_file);
    // Polyglot castling is encoded as king captures rook.
    let f = from.u8();
    let t = to.u8();
    if f == 4 && t == 7 {
        to = Square::new(6);
    } else if f == 4 && t == 0 {
        to = Square::new(2);
    } else if f == 60 && t == 63 {
        to = Square::new(62);
    } else if f == 60 && t == 56 {
        to = Square::new(58);
    }
    Some((from, to, promo))
}

/// Whether `m` goes from `from` to `to` promoting to `promo`.
pub open spec fn move_matches(m: Move, from: int, to: int, promo: Option<Piece>) -> bool {
    &&& m.from_index() == from
    &&& m.to_index() == to
    &&& m.flag_of().promotion() == promo
}

/// A legal move matching the decoded book move `raw` exists.
pub open spec fn has_match(pos: Position, raw: u16) -> bool {
    match decode_spec(raw as int) {
        Some(d) => exists|m: Move| legal_of(pos, legal_mode(pos), m) && #[trigger] move_matches(m, d.0, d.1, d.2),
        None => false,
    }
}

/// Entry `j` gives `m` and has the greatest weight among the entries with a legal move, the
/// first such.
pub open spec fn chosen(pos: Position, entries: Seq<(u16, u16)>, j: int, m: Move) -> bool {
    let d = decode_spec(entries[j].0 as int)->0;
    &&& 0 <= j < entries.len()
    &&& decode_spec(entries[j].0 as int) is Some
    &&& move_matches(m, d.0, d.1, d.2)
    &&& forall|k: int|
        0 <= k < entries.len() && #[trigger] has_match(pos, entries[k].0) ==> entries[k].1
            <= entries[j].1
    &&& forall|k: int|
        0 <= k < j && #[trigger] has_match(pos, entries[k].0) ==> entries[k].1 < entries[j].1
}

/// The first legal move of `moves` matching `(from, to, promo)`.
fn find_match(moves: &MoveList, from: Square, to: Square, promo: Option<Piece>) -> (r: Option<Move>)
    ensures
        r matches Some(m) ==> moves@.contains(m) && move_matches(m, from@ as int, to@ as int, promo),
        r is None ==> forall|m: Move|
            moves@.contains(m) ==> !#[trigger] move_matches(m, from@ as int, to@ as int, promo),
{
    let n = moves.len();
    let mut i: usize = 0;
    while i < n
        invariant
            i <= n,
            n == moves@.len(),
            forall|k: int|
                0 <= k < i ==> !move_matches(#[trigger] moves@[k], from@ as int, to@ as int, promo),
        decreases n - i,
    {
        let mv = moves.get(i);
        if mv.from().u8() == from.u8() && mv.to().u8() == to.u8() && mv.promotion_piece() == promo {
            proof {
                assert(moves@[i as int] == mv);
            }
            return Some(mv);
        }
        i = i + 1;
    }
    proof {
        assert forall|m: Move| moves@.contains(m) implies !#[trigger] move_matches(
            m,
            from@ as int,
            to@ as int,
            promo,
        ) by {
            let k = choose|k: int| 0 <= k < moves@.len() && moves@[k] == m;
        }
    }
    None
}

/// Chooses among the book entries `(move, weight)` of a position (in book order) the legal move
/// of greatest weight, the first on ties; `None` when no entry's move is legal, or when an entry
/// holds a promotion code past 4.
pub fn choose_book_move(pos: &Position, bbs: &Bitboards, entries: &[(u16, u16)]) -> (r: Option<Move>)
    requires
        bbs.wf(),
        gen_ok(*pos, legal_mode(*pos)),
    ensures
        (exists|k: int| 0 <= k < entries@.len() && decode_spec(entries@[k].0 as int) is None) ==> r is None,
        (forall|k: int| 0 <= k < entries@.len() ==> !has_match(*pos, #[trigger] entries@[k].0)) ==> r is None,
        r is None ==> (exists|k: int| 0 <= k < entries@.len() && decode_spec(#[trigger] entries@[k].0 as int) is None)
            || (forall|k: int| 0 <= k < entries@.len() ==> !has_match(*pos, #[trigger] entries@[k].0)),
        r matches Some(m) ==> legal_of(*pos, legal_mode(*pos), m) && exists|j: int|
            #[trigger] chosen(*pos, entries@, j, m),
{
    let mut legal = MoveList::new();
    generate_legal(pos, bbs, &mut legal);
    let mut best: Option<(Move, u16)> = None;
    let ghost mut best_j: int = 0;
    let n = entries.len();
    let mut i: usize = 0;
    while i < n
        invariant
            i <= n,
            n == entries@.len(),
            forall|m: Move| #[trigger] legal@.contains(m) <==> legal_of(*pos, legal_mode(*pos), m),
            forall|k: int| 0 <= k < i ==> decode_spec(#[trigger] entries@[k].0 as int) is Some,
            best is None ==> forall|k: int| 0 <= k < i ==> !has_match(*pos, #[trigger] entries@[k].0),
            best matches Some(b) ==> {
                let d = decode_spec(entries@[best_j].0 as int)->0;
                &&& 0 <= best_j < i
                &&& b.1 == entries@[best_j].1
                &&& legal_of(*pos, legal_mode(*pos), b.0)
                &&& move_matches(b.0, d.0, d.1, d.2)
                &&& forall|k: int|
                    0 <= k < i && #[trigger] has_match(*pos, entries@[k].0) ==> entries@[k].1 <= b.1
                &&& forall|k: int|
                    0 <= k < best_j && #[trigger] has_match(*pos, entries@[k].0) ==> entries@[k].1 < b.1
            },
        decreases n - i,
    {
        let (raw, weight) = entries[i];
        let decoded = decode_book_move(raw);
        let (from, to, promo) = match decoded {
            Some(t) => t,
            None => {
                proof {
                    assert(decode_spec(entries@[i as int].0 as int) is None);
                }
                return None;
            },
        };
        let found = find_match(&legal, from, to, promo);
        proof {
            let d = decode_spec(raw as int)->0;
            assert(d == (from@ as int, to@ as int, promo));
            if found is None {
                assert(!has_match(*pos, raw)) by {
                    if has_match(*pos, raw) {
                        let m = choose|m: Move| legal_of(*pos, legal_mode(*pos), m) && #[trigger] move_matches(m, d.0, d.1, d.2);
                        assert(legal@.contains(m));
                    }
                }
            } else {
                let m = found->0;
                assert(legal@.contains(m));
                assert(legal_of(*pos, legal_mode(*pos), m));
                assert(move_matches(m, d.0, d.1, d.2));
                assert(has_match(*pos, raw));
            }
        }
        if let Some(mv) = found {
            let better = match best {
                None => true,
                Some(b) => weight > b.1,
            };
            if better {
                best = Some((mv, weight));
                proof {
                    best_j = i as int;
                }
            }
        }
        i = i + 1;
    }
    match best {
        Some(b) => {
            proof {
                assert(chosen(*pos, entries@, best_j, b.0));
            }
            Some(b.0)
        },
        None => None,
    }
}

} // verus!
