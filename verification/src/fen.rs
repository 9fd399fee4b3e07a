//! The pieces of text a FEN string is made of: its fields, decimal clocks, castling letters and
//! the piece placement.
use vstd::prelude::*;

use crate::types::{piece_code_of_char, Castling, Colour, Piece, PieceCode, Square};

verus! {

/// Whether `c` is ASCII whitespace: space, tab, line feed, form feed or carriage return.
pub open spec fn is_ascii_ws(c: u8) -> bool {
    c == 32 || c == 9 || c == 10 || c == 12 || c == 13
}

/// The spans `(start, end)` of the fields among the first `n` bytes of `s`: the maximal runs
/// of bytes that are not ASCII whitespace, in order.
pub closed spec fn spans(s: Seq<u8>, n: int) -> Seq<(int, int)>
    decreases n,
{
    if n <= 0 {
        seq![]
    } else {
        let acc = spans(s, n - 1);
        if is_ascii_ws(s[n - 1]) {
            acc
        } else if n >= 2 && !is_ascii_ws(s[n - 2]) {
            acc.update(acc.len() - 1, (acc.last().0, n))
        } else {
            acc.push((n - 1, n))
        }
    }
}

/// The fields of `s`, split at ASCII whitespace.
pub closed spec fn fields(s: Seq<u8>) -> Seq<Seq<u8>> {
    spans(s, s.len() as int).map_values(|p: (int, int)| s.subrange(p.0, p.1))
}

/// Each field is the text of its span.
pub proof fn lemma_fields(s: Seq<u8>)
    ensures
        fields(s).len() == spans(s, s.len() as int).len(),
        forall|k: int|
            0 <= k < fields(s).len() ==> #[trigger] fields(s)[k] == s.subrange(
                spans(s, s.len() as int)[k].0,
                spans(s, s.len() as int)[k].1,
            ),
{
}

/// The spans of the fields of `s`; see `spans`.
pub fn field_spans(s: &[u8]) -> (r: Vec<(usize, usize)>)
    ensures
        r@.len() == spans(s@, s@.len() as int).len(),
        forall|k: int|
            0 <= k < r@.len() ==> (#[trigger] r@[k]).0 == spans(s@, s@.len() as int)[k].0 && r@[k].1
                == spans(s@, s@.len() as int)[k].1 && r@[k].0 < r@[k].1 <= s@.len(),
{
    let mut r: Vec<(usize, usize)> = Vec::new();
    let mut i: usize = 0;
    while i < s.len()
        invariant
            i <= s@.len(),
            r@.len() == spans(s@, i as int).len(),
            forall|k: int|
                0 <= k < r@.len() ==> (#[trigger] r@[k]).0 == spans(s@, i as int)[k].0 && r@[k].1
                    == spans(s@, i as int)[k].1 && r@[k].0 < r@[k].1 <= i,
            i >= 1 && !is_ascii_ws(s@[i - 1]) ==> r@.len() >= 1 && r@.last().1 == i,
        decreases s@.len() - i,
    {
        let c = s[i];
        let ws = c == 32 || c == 9 || c == 10 || c == 12 || c == 13;
        if !ws {
            if i >= 1 && !(s[i - 1] == 32 || s[i - 1] == 9 || s[i - 1] == 10 || s[i - 1] == 12
                || s[i - 1] == 13) {
                let last = r.len() - 1;
                let start = r[last].0;
                r.set(last, (start, i + 1));
            } else {
                r.push((i, i + 1));
            }
        }
        i = i + 1;
    }
    r
}

/// The value of the decimal digits `s`.
pub open spec fn digits_value(s: Seq<u8>) -> int
    decreases s.len(),
{
    if s.len() == 0 {
        0
    } else {
        digits_value(s.drop_last()) * 10 + (s.last() - 48)
    }
}

/// Whether every byte of `s` is a decimal digit.
pub open spec fn all_digits(s: Seq<u8>) -> bool {
    forall|i: int| 0 <= i < s.len() ==> 48 <= #[trigger] s[i] <= 57
}

/// The value `str::parse` gives `s` for an unsigned integer: an optional `+` followed by at
/// least one decimal digit; `None` for anything else.
pub open spec fn decimal_value(s: Seq<u8>) -> Option<int> {
    let d = if s.len() > 0 && s[0] == 43 {
        s.drop_first()
    } else {
        s
    };
    if d.len() > 0 && all_digits(d) {
        Some(digits_value(d))
    } else {
        None
    }
}

pub proof fn lemma_digits_value_nonneg(s: Seq<u8>)
    requires
        all_digits(s),
    ensures
        digits_value(s) >= 0,
    decreases s.len(),
{
    if s.len() > 0 {
        assert(all_digits(s.drop_last()));
        lemma_digits_value_nonneg(s.drop_last());
    }
}

/// A decimal numeral has a value of zero or more.
pub proof fn lemma_decimal_nonneg(s: Seq<u8>)
    ensures
        decimal_value(s) is Some ==> decimal_value(s)->0 >= 0,
{
    let d = if s.len() > 0 && s[0] == 43 {
        s.drop_first()
    } else {
        s
    };
    if d.len() > 0 && all_digits(d) {
        lemma_digits_value_nonneg(d);
    }
}

/// Reads the unsigned decimal `s[start..end]` as `str::parse` would, or `None` when it is not
/// one or exceeds `max`.
pub fn parse_unsigned(s: &[u8], start: usize, end: usize, max: u64) -> (r: Option<u64>)
    requires
        start <= end <= s@.len(),
        max <= 100000,
    ensures
        r == (match decimal_value(s@.subrange(start as int, end as int)) {
            Some(v) => if v <= max {
                Some(v as u64)
            } else {
                None
            },
            None => None,
        }),
{
    let ghost t = s@.subrange(start as int, end as int);
    let mut a = start;
    if a < end && s[a] == 43 {
        a = a + 1;
    }
    let ghost d = s@.subrange(a as int, end as int);
    assert(d == (if t.len() > 0 && t[0] == 43 {
        t.drop_first()
    } else {
        t
    }));
    if a == end {
        return None;
    }
    let mut acc: u64 = 0;
    let mut big = false;
    let mut i = a;
    while i < end
        invariant
            start <= a < end <= s@.len(),
            t == s@.subrange(start as int, end as int),
            d == (if t.len() > 0 && t[0] == 43 {
                t.drop_first()
            } else {
                t
            }),
            max <= 100000,
            a <= i <= end,
            d == s@.subrange(a as int, end as int),
            all_digits(s@.subrange(a as int, i as int)),
            !big ==> acc == digits_value(s@.subrange(a as int, i as int)),
            !big ==> acc <= 100000,
            big ==> digits_value(s@.subrange(a as int, i as int)) > 100000,
        decreases end - i,
    {
        let c = s[i];
        if c < 48 || c > 57 {
            assert(!all_digits(d)) by {
                assert(d[i - a] == c);
            }
            return None;
        }
        proof {
            let p = s@.subrange(a as int, i as int);
            let q = s@.subrange(a as int, i + 1);
            assert(q.drop_last() == p);
            assert(q.last() == c);
            lemma_digits_value_nonneg(p);
        }
        if !big {
            acc = acc * 10 + (c - 48) as u64;
            if acc > 100000 {
                big = true;
            }
        }
        i = i + 1;
    }
    assert(s@.subrange(a as int, end as int) == d);
    if big || acc > max {
        None
    } else {
        Some(acc)
    }
}

/// The castling right a FEN letter names, if any.
pub open spec fn castle_letter(c: u8) -> Option<Castling> {
    if c == 75 {
        Some(Castling::WHITE_OO)
    } else if c == 81 {
        Some(Castling::WHITE_OOO)
    } else if c == 107 {
        Some(Castling::BLACK_OO)
    } else if c == 113 {
        Some(Castling::BLACK_OOO)
    } else {
        None
    }
}

/// The union of the castling rights named by the first `n` letters of `s`.
pub open spec fn castle_bits(s: Seq<u8>, n: int) -> u8
    decreases n,
{
    if n <= 0 {
        0
    } else {
        castle_bits(s, n - 1) | match castle_letter(s[n - 1]) {
            Some(c) => c@ as u8,
            None => 0u8,
        }
    }
}

/// Whether the castling field is `-` or a run of the letters `KQkq`.
pub open spec fn castling_field_ok(s: Seq<u8>) -> bool {
    s == seq![45u8] || forall|i: int| 0 <= i < s.len() ==> (#[trigger] castle_letter(s[i])).is_some()
}

/// The castling rights a castling field names.
pub open spec fn castling_field(s: Seq<u8>) -> nat {
    if s == seq![45u8] {
        0
    } else {
        castle_bits(s, s.len() as int) as nat
    }
}

/// Reads the castling field `s[start..end]`.
pub fn parse_castling(s: &[u8], start: usize, end: usize) -> (r: Castling)
    requires
        start < end <= s@.len(),
        castling_field_ok(s@.subrange(start as int, end as int)),
    ensures
        r@ == castling_field(s@.subrange(start as int, end as int)),
{
    let ghost t = s@.subrange(start as int, end as int);
    if end - start == 1 && s[start] == 45 {
        assert(t =~= seq![45u8]);
        return Castling::NONE;
    }
    assert(t != seq![45u8]) by {
        if t =~= seq![45u8] {
            assert(t[0] == s@[start as int]);
        }
    }
    let mut rights = Castling::NONE;
    let mut i = start;
    while i < end
        invariant
            start <= i <= end <= s@.len(),
            t == s@.subrange(start as int, end as int),
            forall|k: int| 0 <= k < t.len() ==> (#[trigger] castle_letter(t[k])).is_some(),
            rights@ == castle_bits(t, i - start),
        decreases end - i,
    {
        let c = s[i];
        assert(t[i - start] == c);
        let flag = if c == 75 {
            Castling::WHITE_OO
        } else if c == 81 {
            Castling::WHITE_OOO
        } else if c == 107 {
            Castling::BLACK_OO
        } else {
            Castling::BLACK_OOO
        };
        proof {
            Castling::lemma_from_bits_view(rights);
            Castling::lemma_from_bits_view(flag);
            let x = rights@ as u8;
            let y = flag@ as u8;
            assert(x < 16 && y < 16 ==> x | y < 16) by (bit_vector);
        }
        rights = rights.union(flag);
        i = i + 1;
    }
    rights
}

/// What reading a piece placement has built so far: the rank and file reached, the board, the
/// squares of the last king of each colour placed, and whether reading could go on (a `/` on
/// the first rank, or a file past 255, stop it).
pub struct PlacementScan {
    pub rank: int,
    pub file: int,
    pub board: Seq<PieceCode>,
    pub white_king: Square,
    pub black_king: Square,
    pub ok: bool,
}

/// The scan before any byte: rank 8, file a, an empty board, no king.
pub open spec fn scan_start() -> PlacementScan {
    PlacementScan {
        rank: 7,
        file: 0,
        board: Seq::new(64, |i: int| PieceCode::EMPTY),
        white_king: Square::NONE,
        black_king: Square::NONE,
        ok: true,
    }
}

/// One byte of a piece placement: `/` goes down a rank, a digit skips files, a piece letter
/// puts that piece on the current square (a king also records its square) and moves one file
/// on; any other byte is passed over.
pub open spec fn scan_step(st: PlacementScan, c: u8) -> PlacementScan {
    if !st.ok {
        st
    } else if c == 47 {
        if st.rank == 0 {
            PlacementScan { ok: false, ..st }
        } else {
            PlacementScan { rank: st.rank - 1, file: 0, ..st }
        }
    } else if 48 <= c <= 57 {
        if st.file + (c - 48) > 255 {
            PlacementScan { ok: false, ..st }
        } else {
            PlacementScan { file: st.file + (c - 48), ..st }
        }
    } else {
        match piece_code_of_char(c as char) {
            Some(pc) => {
                let sq = st.rank * 8 + st.file % 8;
                PlacementScan {
                    board: st.board.update(sq, pc),
                    white_king: if pc == PieceCode::WhiteKing {
                        Square::from_index(sq)
                    } else {
                        st.white_king
                    },
                    black_king: if pc == PieceCode::BlackKing {
                        Square::from_index(sq)
                    } else {
                        st.black_king
                    },
                    file: st.file + 1,
                    ok: st.file + 1 <= 255,
                    ..st
                }
            },
            None => st,
        }
    }
}

/// The scan after the first `n` bytes of `s`.
pub closed spec fn scan(s: Seq<u8>, n: int) -> PlacementScan
    decreases n,
{
    if n <= 0 {
        scan_start()
    } else {
        scan_step(scan(s, n - 1), s[n - 1])
    }
}

/// The scan of no byte is the start; each further byte is one more step.
pub proof fn lemma_scan_unfold(s: Seq<u8>, n: int)
    requires
        0 <= n < s.len(),
    ensures
        scan(s, 0) == scan_start(),
        scan(s, n + 1) == scan_step(scan(s, n), s[n]),
{
}

/// A scan keeps its rank on the board.
pub proof fn lemma_scan_rank(s: Seq<u8>, n: int)
    requires
        0 <= n <= s.len(),
    ensures
        0 <= scan(s, n).rank <= 7,
        0 <= scan(s, n).file <= 256,
        scan(s, n).ok ==> scan(s, n).file <= 255,
        scan(s, n).board.len() == 64,
        scan(s, n).white_king@ <= 64,
        scan(s, n).black_king@ <= 64,
    decreases n,
{
    if n > 0 {
        lemma_scan_rank(s, n - 1);
        let st = scan(s, n - 1);
        Square::lemma_from_index(st.rank * 8 + st.file % 8);
    }
}

/// Once a scan has stopped it stays stopped.
pub proof fn lemma_scan_stops(s: Seq<u8>, n: int, m: int)
    requires
        0 <= n <= m <= s.len(),
        !scan(s, n).ok,
    ensures
        !scan(s, m).ok,
    decreases m - n,
{
    if m > n {
        lemma_scan_stops(s, n, m - 1);
    }
}

} // verus!
