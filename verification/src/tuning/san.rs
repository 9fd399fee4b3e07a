//! Standard algebraic notation: reading a move such as `Nbxd7+`, `exd8=Q` or `O-O` against the
//! legal moves of a position.
use vstd::prelude::*;
use vstd::string::StringSliceAdditionalSpecFns;

use crate::bitboard::Bitboards;
use crate::movegen::{gen_ok, generate_legal, legal_mode, legal_of, MoveList};
use crate::position::Position;
use crate::types::{file_of, rank_of, CastlingType, Move, Piece, Square};

verus! {

/// Why a move in algebraic notation could not be read.
#[derive(Copy, Clone, Debug, PartialEq, Eq, Structural)]
pub enum SanError {
    /// No legal move fits the notation.
    NoMatch,
    /// Several legal moves fit it.
    Ambiguous,
    /// The castle it names is not legal.
    IllegalCastle,
    /// It is too short to name a destination.
    BadSan,
    /// Its destination is not a square.
    BadSquare,
    /// A piece letter is not one of N, B, R, Q (or K where a king may move).
    BadPiece,
    /// A disambiguating character is neither a file nor a rank.
    BadDisambiguation,
}

/// What a move in algebraic notation says: the piece, its destination, whether it captures,
/// its promotion and the source file or rank given to tell moves apart.
#[derive(Copy, Clone, Debug, PartialEq, Eq, Structural)]
pub struct SanSpec {
    pub piece: Piece,
    pub to: Square,
    pub capture: bool,
    pub promotion: Option<Piece>,
    pub from_file: Option<u8>,
    pub from_rank: Option<u8>,
}

/// The text without its trailing check and mate marks (`+`, `#`).
pub open spec fn strip_marks(s: Seq<u8>) -> Seq<u8>
    decreases s.len(),
{
    if s.len() > 0 && (s.last() == 43 || s.last() == 35) {
        strip_marks(s.drop_last())
    } else {
        s
    }
}

/// The castle a text names: `O-O` or `0-0` kingside, `O-O-O` or `0-0-0` queenside.
pub open spec fn castle_named(s: Seq<u8>) -> Option<CastlingType> {
    if s == seq![79u8, 45u8, 79u8] || s == seq![48u8, 45u8, 48u8] {
        Some(CastlingType::Kingside)
    } else if s == seq![79u8, 45u8, 79u8, 45u8, 79u8] || s == seq![48u8, 45u8, 48u8, 45u8, 48u8] {
        Some(CastlingType::Queenside)
    } else {
        None
    }
}

/// The piece of a letter: N, B, R, Q, and K unless only promotion pieces are allowed.
pub open spec fn piece_letter(b: u8, promotion_only: bool) -> Option<Piece> {
    if b == 78 {
        Some(Piece::Knight)
    } else if b == 66 {
        Some(Piece::Bishop)
    } else if b == 82 {
        Some(Piece::Rook)
    } else if b == 81 {
        Some(Piece::Queen)
    } else if b == 75 && !promotion_only {
        Some(Piece::King)
    } else {
        None
    }
}

/// The index of the first `c` in `s`, or its length.
pub open spec fn first_index(s: Seq<u8>, c: u8) -> int
    decreases s.len(),
{
    if s.len() == 0 {
        0
    } else if s[0] == c {
        0
    } else {
        1 + first_index(s.drop_first(), c)
    }
}

/// The bytes of `s` other than `c`, in order.
pub open spec fn without(s: Seq<u8>, c: u8) -> Seq<u8>
    decreases s.len(),
{
    if s.len() == 0 {
        s
    } else {
        let w = without(s.drop_last(), c);
        if s.last() == c {
            w
        } else {
            w.push(s.last())
        }
    }
}

/// The square named by two bytes: a file letter `a`-`h` and a rank digit `1`-`8`.
pub open spec fn square_named(s: Seq<u8>) -> Option<int> {
    if s.len() == 2 && 97 <= s[0] <= 104 && 49 <= s[1] <= 56 {
        Some((s[1] - 49) * 8 + (s[0] - 97))
    } else {
        None
    }
}

/// The source file and rank given by the disambiguating bytes `d` (later ones win), or the
/// first byte that is neither.
pub open spec fn disambiguation(d: Seq<u8>) -> Option<(Option<u8>, Option<u8>)>
    decreases d.len(),
{
    if d.len() == 0 {
        Some((None, None))
    } else {
        match disambiguation(d.drop_last()) {
            None => None,
            Some(fr) => {
                let b = d.last();
                if 97 <= b <= 104 {
                    Some((Some((b - 97) as u8), fr.1))
                } else if 49 <= b <= 56 {
                    Some((fr.0, Some((b - 49) as u8)))
                } else {
                    None
                }
            },
        }
    }
}

/// What a move in algebraic notation (without marks, not a castle) says, or why it cannot be
/// read: a promotion after `=`, the destination in the last two bytes before it, `x` for a
/// capture, a piece letter first (a pawn otherwise), then file and rank hints.
pub open spec fn san_spec_of(san: Seq<u8>) -> Result<SanSpec, SanError> {
    let eq = first_index(san, 61);
    let body = san.subrange(0, eq);
    let promo = if eq < san.len() {
        match piece_letter(san[eq + 1], true) {
            Some(p) => Some(Some(p)),
            None => None,
        }
    } else {
        Some(None)
    };
    if promo is None {
        Err(SanError::BadPiece)
    } else if body.len() < 2 {
        Err(SanError::BadSan)
    } else if square_named(body.subrange(body.len() - 2, body.len() as int)) is None {
        Err(SanError::BadSquare)
    } else {
        let to = square_named(body.subrange(body.len() - 2, body.len() as int))->0;
        let raw = body.subrange(0, body.len() - 2);
        let capture = raw.contains(120u8);
        let prefix = without(raw, 120);
        let lead = prefix.len() > 0 && (prefix[0] == 78 || prefix[0] == 66 || prefix[0] == 82
            || prefix[0] == 81 || prefix[0] == 75);
        let piece = if lead {
            piece_letter(prefix[0], false)->0
        } else {
            Piece::Pawn
        };
        let d = if lead {
            prefix.drop_first()
        } else {
            prefix
        };
        match disambiguation(d) {
            None => Err(SanError::BadDisambiguation),
            Some(fr) => Ok(
                SanSpec {
                    piece,
                    to: Square::from_index(to),
                    capture,
                    promotion: promo->0,
                    from_file: fr.0,
                    from_rank: fr.1,
                },
            ),
        }
    }
}

/// Whether the legal move `m` fits `spec`: the piece on its source square, its destination,
/// capture, promotion and the source file and rank when given.
pub open spec fn fits(pos: Position, spec: SanSpec, m: Move) -> bool {
    let from = m.from_index() as int;
    &&& pos.mailbox@[from].piece_of() == Some(spec.piece)
    &&& m.to_index() == spec.to@
    &&& m.flag_of().is_capture() == spec.capture
    &&& m.flag_of().promotion() == spec.promotion
    &&& (spec.from_file matches Some(f) ==> file_of(from) == f)
    &&& (spec.from_rank matches Some(r) ==> rank_of(from) == r)
}

/// Whether a promotion sign `=` in `san`, if there is one, is followed by a letter.
pub open spec fn promotion_complete(san: Seq<u8>) -> bool {
    first_index(san, 61) < san.len() ==> first_index(san, 61) + 1 < san.len()
}

proof fn lemma_first_index(s: Seq<u8>, c: u8, i: int)
    requires
        0 <= i <= s.len(),
        forall|k: int| 0 <= k < i ==> s[k] != c,
        i == s.len() || s[i] == c,
    ensures
        first_index(s, c) == i,
    decreases i,
{
    if i > 0 {
        lemma_first_index(s.drop_first(), c, i - 1);
    }
}

proof fn lemma_disambiguation_none(d: Seq<u8>, i: int)
    requires
        0 <= i <= d.len(),
        disambiguation(d.subrange(0, i)) is None,
    ensures
        disambiguation(d) is None,
    decreases d.len() - i,
{
    if d.len() == i {
        assert(d.subrange(0, i) =~= d);
    } else {
        assert(d.drop_last().subrange(0, i) =~= d.subrange(0, i));
        lemma_disambiguation_none(d.drop_last(), i);
    }
}

/// A piece move written with one hint before its destination square (`Nbd7`, `R1a3`): the text
/// is read, the piece is the letter's, and every legal move it names starts on the hinted file
/// (for a letter `a`-`h`) or rank (for a digit `1`-`8`), and ends on the named square.
pub proof fn lemma_hint_binds(pos: Position, t: Seq<u8>, m: Move)
    requires
        t.len() == 4,
        t[0] == 78 || t[0] == 66 || t[0] == 82 || t[0] == 81 || t[0] == 75,
        (97 <= t[1] <= 104) || (49 <= t[1] <= 56),
        97 <= t[2] <= 104,
        49 <= t[3] <= 56,
    ensures
        san_spec_of(t) is Ok,
        san_spec_of(t) matches Ok(spec) && fits(pos, spec, m) ==> {
            &&& 49 <= t[1] <= 56 ==> rank_of(m.from_index() as int) == t[1] - 49
            &&& 97 <= t[1] <= 104 ==> file_of(m.from_index() as int) == t[1] - 97
            &&& m.to_index() == (t[3] - 49) * 8 + (t[2] - 97)
            &&& pos.mailbox@[m.from_index() as int].piece_of() == piece_letter(t[0], false)
        },
{
    lemma_first_index(t, 61, 4);
    assert(t.subrange(0, 4) =~= t);
    let raw = t.subrange(0, 2);
    assert(!raw.contains(120u8)) by {
        if raw.contains(120u8) {
            let k = choose|k: int| 0 <= k < raw.len() && raw[k] == 120u8;
            assert(raw[k] == t[k]);
        }
    }
    reveal_with_fuel(without, 3);
    assert(raw.drop_last() =~= seq![t[0]]);
    assert(seq![t[0]].drop_last() =~= Seq::<u8>::empty());
    assert(without(raw, 120) =~= raw);
    let d = raw.drop_first();
    assert(d =~= seq![t[1]]);
    assert(d.drop_last() =~= Seq::<u8>::empty());
    reveal_with_fuel(disambiguation, 2);
    assert(t.subrange(2, 4) =~= seq![t[2], t[3]]);
    Square::lemma_from_index((t[3] - 49) * 8 + (t[2] - 97));
}

/// The length of `s` without its trailing check and mate marks.
fn unmarked_len(s: &[u8]) -> (n: usize)
    ensures
        n <= s@.len(),
        s@.subrange(0, n as int) == strip_marks(s@),
{
    let mut n = s.len();
    assert(s@.subrange(0, n as int) =~= s@);
    while n > 0 && (s[n - 1] == 43 || s[n - 1] == 35)
        invariant
            n <= s@.len(),
            strip_marks(s@.subrange(0, n as int)) == strip_marks(s@),
        decreases n,
    {
        assert(s@.subrange(0, n as int).drop_last() =~= s@.subrange(0, n - 1));
        n = n - 1;
    }
    n
}

/// The castle named by `t`, as `castle_named` says.
fn castle_of(t: &[u8]) -> (r: Option<CastlingType>)
    ensures
        r == castle_named(t@),
{
    let n = t.len();
    if (n == 3 || n == 5) && (t[0] == 79 || t[0] == 48) {
        let o = t[0];
        if t[1] == 45 && t[2] == o {
            if n == 3 {
                if o == 79 {
                    assert(t@ =~= seq![79u8, 45u8, 79u8]);
                } else {
                    assert(t@ =~= seq![48u8, 45u8, 48u8]);
                }
                return Some(CastlingType::Kingside);
            }
            if t[3] == 45 && t[4] == o {
                if o == 79 {
                    assert(t@ =~= seq![79u8, 45u8, 79u8, 45u8, 79u8]);
                } else {
                    assert(t@ =~= seq![48u8, 45u8, 48u8, 45u8, 48u8]);
                }
                return Some(CastlingType::Queenside);
            }
        }
    }
    None
}

/// The piece of a letter, or `BadPiece`.
fn parse_piece_letter(b: u8, promotion_only: bool) -> (r: Result<Piece, SanError>)
    ensures
        r == (match piece_letter(b, promotion_only) {
            Some(p) => Ok(p),
            None => Err(SanError::BadPiece),
        }),
{
    if b == 78 {
        Ok(Piece::Knight)
    } else if b == 66 {
        Ok(Piece::Bishop)
    } else if b == 82 {
        Ok(Piece::Rook)
    } else if b == 81 {
        Ok(Piece::Queen)
    } else if b == 75 && !promotion_only {
        Ok(Piece::King)
    } else {
        Err(SanError::BadPiece)
    }
}

/// The square named by two bytes, or `BadSquare`.
fn parse_square(s: &[u8]) -> (r: Result<Square, SanError>)
    ensures
        r == (match square_named(s@) {
            Some(i) => Ok(Square::from_index(i)),
            None => Err(SanError::BadSquare),
        }),
{
    if s.len() != 2 {
        return Err(SanError::BadSquare);
    }
    let file = s[0];
    let rank = s[1];
    if !(97 <= file && file <= 104) || !(49 <= rank && rank <= 56) {
        return Err(SanError::BadSquare);
    }
    let sq = Square::from_coords(rank - 49, file - 97);
    proof {
        Square::lemma_from_index_view(sq);
    }
    Ok(sq)
}

/// The index of the first `c` in `s`, or its length.
fn find_byte(s: &[u8], c: u8) -> (r: usize)
    ensures
        r == first_index(s@, c),
        r <= s@.len(),
{
    let mut i: usize = 0;
    while i < s.len()
        invariant
            i <= s@.len(),
            forall|k: int| 0 <= k < i ==> s@[k] != c,
        decreases s@.len() - i,
    {
        if s[i] == c {
            proof {
                lemma_first_index(s@, c, i as int);
            }
            return i;
        }
        i = i + 1;
    }
    proof {
        lemma_first_index(s@, c, i as int);
    }
    i
}

/// Whether `s` holds `c`.
fn contains_byte(s: &[u8], c: u8) -> (r: bool)
    ensures
        r == s@.contains(c),
{
    let mut i: usize = 0;
    while i < s.len()
        invariant
            i <= s@.len(),
            forall|k: int| 0 <= k < i ==> s@[k] != c,
        decreases s@.len() - i,
    {
        if s[i] == c {
            assert(s@[i as int] == c);
            return true;
        }
        i = i + 1;
    }
    false
}

/// The bytes of `s` other than `c`.
fn without_byte(s: &[u8], c: u8) -> (r: Vec<u8>)
    ensures
        r@ == without(s@, c),
{
    let mut r: Vec<u8> = Vec::new();
    let mut i: usize = 0;
    assert(s@.subrange(0, 0) =~= Seq::<u8>::empty());
    while i < s.len()
        invariant
            i <= s@.len(),
            r@ == without(s@.subrange(0, i as int), c),
        decreases s@.len() - i,
    {
        assert(s@.subrange(0, i + 1).drop_last() =~= s@.subrange(0, i as int));
        if s[i] != c {
            r.push(s[i]);
        }
        i = i + 1;
    }
    assert(s@.subrange(0, i as int) =~= s@);
    r
}

/// The source file and rank given by the disambiguating bytes, or `BadDisambiguation`.
fn read_disambiguation(d: &[u8]) -> (r: Result<(Option<u8>, Option<u8>), SanError>)
    ensures
        r == (match disambiguation(d@) {
            Some(fr) => Ok(fr),
            None => Err(SanError::BadDisambiguation),
        }),
{
    let mut from_file: Option<u8> = None;
    let mut from_rank: Option<u8> = None;
    let mut i: usize = 0;
    assert(d@.subrange(0, 0) =~= Seq::<u8>::empty());
    while i < d.len()
        invariant
            i <= d@.len(),
            disambiguation(d@.subrange(0, i as int)) == Some((from_file, from_rank)),
        decreases d@.len() - i,
    {
        assert(d@.subrange(0, i + 1).drop_last() =~= d@.subrange(0, i as int));
        let b = d[i];
        if 97 <= b && b <= 104 {
            from_file = Some(b - 97);
        } else if 49 <= b && b <= 56 {
            from_rank = Some(b - 49);
        } else {
            proof {
                lemma_disambiguation_none(d@, i + 1);
            }
            return Err(SanError::BadDisambiguation);
        }
        i = i + 1;
    }
    assert(d@.subrange(0, i as int) =~= d@);
    Ok((from_file, from_rank))
}

/// What a move in algebraic notation (without marks, not a castle) says, or why it cannot be
/// read.
fn parse_san_spec(t: &[u8]) -> (r: Result<SanSpec, SanError>)
    requires
        promotion_complete(t@),
    ensures
        r == san_spec_of(t@),
{
    let eq = find_byte(t, 61);
    let promotion = if eq < t.len() {
        match parse_piece_letter(t[eq + 1], true) {
            Ok(p) => Some(p),
            Err(e) => {
                return Err(e);
            },
        }
    } else {
        None
    };
    let body = &t[0..eq];
    assert(body@ == t@.subrange(0, eq as int));
    if body.len() < 2 {
        return Err(SanError::BadSan);
    }
    let n = body.len();
    let to = match parse_square(&body[n - 2..n]) {
        Ok(sq) => sq,
        Err(e) => {
            return Err(e);
        },
    };
    let raw = &body[0..n - 2];
    let capture = contains_byte(raw, 120);
    let prefix = without_byte(raw, 120);
    let lead = prefix.len() > 0 && (prefix[0] == 78 || prefix[0] == 66 || prefix[0] == 82
        || prefix[0] == 81 || prefix[0] == 75);
    let piece = if lead {
        match parse_piece_letter(prefix[0], false) {
            Ok(p) => p,
            Err(e) => {
                return Err(e);
            },
        }
    } else {
        Piece::Pawn
    };
    let start: usize = if lead {
        1
    } else {
        0
    };
    let d = &prefix.as_slice()[start..prefix.len()];
    proof {
        if lead {
            assert(d@ =~= prefix@.drop_first());
        } else {
            assert(d@ =~= prefix@);
        }
    }
    match read_disambiguation(d) {
        Ok(fr) => Ok(
            SanSpec {
                piece,
                to,
                capture,
                promotion,
                from_file: fr.0,
                from_rank: fr.1,
            },
        ),
        Err(e) => Err(e),
    }
}

/// Whether the legal move `m` fits `spec`, as `fits` says.
fn move_fits(pos: &Position, spec: &SanSpec, m: Move) -> (r: bool)
    ensures
        r == fits(*pos, *spec, m),
{
    let from = m.from();
    let on_from = match pos.mailbox.piece_at(from) {
        Some(p) => p == spec.piece,
        None => false,
    };
    let promotes = match (m.promotion_piece(), spec.promotion) {
        (Some(a), Some(b)) => a == b,
        (None, None) => true,
        _ => false,
    };
    let file_ok = match spec.from_file {
        Some(f) => from.file() == f,
        None => true,
    };
    let rank_ok = match spec.from_rank {
        Some(r) => from.rank() == r,
        None => true,
    };
    on_from && m.to().idx() == spec.to.idx() && m.is_capture() == spec.capture && promotes
        && file_ok && rank_ok
}

/// The legal castle of the given side, or `IllegalCastle`.
fn find_castle(pos: &Position, bbs: &Bitboards, side: CastlingType) -> (r: Result<Move, SanError>)
    requires
        bbs.wf(),
        gen_ok(*pos, legal_mode(*pos)),
    ensures
        r matches Ok(m) ==> legal_of(*pos, legal_mode(*pos), m) && m.flag_of().castle() == Some(
            side,
        ),
        r matches Err(e) ==> e == SanError::IllegalCastle && forall|m: Move|
            legal_of(*pos, legal_mode(*pos), m) ==> #[trigger] m.flag_of().castle() != Some(side),
{
    let mut moves = MoveList::new();
    generate_legal(pos, bbs, &mut moves);
    let n = moves.len();
    let mut i: usize = 0;
    while i < n
        invariant
            i <= n,
            n == moves@.len(),
            forall|m: Move| #[trigger] moves@.contains(m) <==> legal_of(*pos, legal_mode(*pos), m),
            forall|k: int| 0 <= k < i ==> (#[trigger] moves@[k]).flag_of().castle() != Some(side),
        decreases n - i,
    {
        let mv = moves.get(i);
        let same = match (mv.castle_type(), side) {
            (Some(CastlingType::Kingside), CastlingType::Kingside) => true,
            (Some(CastlingType::Queenside), CastlingType::Queenside) => true,
            _ => false,
        };
        if same {
            assert(moves@.contains(moves@[i as int]));
            return Ok(mv);
        }
        i = i + 1;
    }
    proof {
        assert forall|m: Move| legal_of(*pos, legal_mode(*pos), m) implies #[trigger] m.flag_of().castle()
            != Some(side) by {
            assert(moves@.contains(m));
            let k = choose|k: int| 0 <= k < moves@.len() && moves@[k] == m;
            assert(moves@[k].flag_of().castle() != Some(side));
        }
    }
    Err(SanError::IllegalCastle)
}

/// The legal move that a move in standard algebraic notation names.
///
/// Trailing `+` and `#` are ignored. `O-O` / `0-0` and `O-O-O` / `0-0-0` name the castles;
/// any other text is read by `san_spec_of` and matched against every legal move.
pub fn san_to_move(pos: &Position, bbs: &Bitboards, san: &str) -> (r: Result<Move, SanError>)
    requires
        bbs.wf(),
        gen_ok(*pos, legal_mode(*pos)),
        promotion_complete(strip_marks(san.spec_bytes())),
    ensures
        ({
            let t = strip_marks(san.spec_bytes());
            let mode = legal_mode(*pos);
            match castle_named(t) {
                Some(side) => match r {
                    Ok(m) => legal_of(*pos, mode, m) && m.flag_of().castle() == Some(side),
                    Err(e) => e == SanError::IllegalCastle && forall|m: Move|
                        legal_of(*pos, mode, m) ==> #[trigger] m.flag_of().castle() != Some(side),
                },
                None => match san_spec_of(t) {
                    Err(e) => r == Err::<Move, SanError>(e),
                    Ok(spec) => match r {
                        Ok(m) => legal_of(*pos, mode, m) && fits(*pos, spec, m) && forall|m2: Move|
                            legal_of(*pos, mode, m2) && #[trigger] fits(*pos, spec, m2) ==> m2 == m,
                        Err(e) => (e == SanError::NoMatch <==> forall|m2: Move|
                            legal_of(*pos, mode, m2) ==> !#[trigger] fits(*pos, spec, m2)) && (e
                            == SanError::NoMatch || e == SanError::Ambiguous) && (e == SanError::Ambiguous
                            ==> exists|m1: Move, m2: Move|
                            m1 != m2 && legal_of(*pos, mode, m1) && fits(*pos, spec, m1) && legal_of(
                                *pos,
                                mode,
                                m2,
                            ) && fits(*pos, spec, m2)),
                    },
                },
            }
        }),
{
    let bytes = san.as_bytes();
    let n = unmarked_len(bytes);
    let t = &bytes[0..n];
    match castle_of(t) {
        Some(side) => {
            return find_castle(pos, bbs, side);
        },
        None => {},
    }
    let spec = match parse_san_spec(t) {
        Ok(spec) => spec,
        Err(e) => {
            return Err(e);
        },
    };
    let mut moves = MoveList::new();
    generate_legal(pos, bbs, &mut moves);
    let count = moves.len();
    let mut first: Option<Move> = None;
    let mut many = false;
    let mut i: usize = 0;
    while i < count
        invariant
            i <= count,
            count == moves@.len(),
            forall|m: Move| #[trigger] moves@.contains(m) <==> legal_of(*pos, legal_mode(*pos), m),
            first is None <==> forall|k: int| 0 <= k < i ==> !fits(*pos, spec, #[trigger] moves@[k]),
            first matches Some(m) ==> fits(*pos, spec, m) && legal_of(*pos, legal_mode(*pos), m),
            (first is Some && !many) ==> forall|k: int|
                0 <= k < i && fits(*pos, spec, #[trigger] moves@[k]) ==> moves@[k] == first->0,
            many ==> first is Some,
            many ==> exists|m2: Move|
                m2 != first->0 && legal_of(*pos, legal_mode(*pos), m2) && fits(*pos, spec, m2),
        decreases count - i,
    {
        let mv = moves.get(i);
        if move_fits(pos, &spec, mv) {
            assert(moves@.contains(moves@[i as int]));
            match first {
                None => {
                    first = Some(mv);
                },
                Some(f) => {
                    if mv != f {
                        many = true;
                    }
                },
            }
        }
        i = i + 1;
    }
    proof {
        if first is None {
            assert forall|m2: Move| legal_of(*pos, legal_mode(*pos), m2) implies !#[trigger] fits(
                *pos,
                spec,
                m2,
            ) by {
                assert(moves@.contains(m2));
                let k = choose|k: int| 0 <= k < moves@.len() && moves@[k] == m2;
                assert(!fits(*pos, spec, moves@[k]));
            }
        } else if !many {
            assert forall|m2: Move|
                legal_of(*pos, legal_mode(*pos), m2) && #[trigger] fits(*pos, spec, m2) implies m2
                == first->0 by {
                assert(moves@.contains(m2));
                let k = choose|k: int| 0 <= k < moves@.len() && moves@[k] == m2;
                assert(fits(*pos, spec, moves@[k]));
            }
        }
    }
    match first {
        None => Err(SanError::NoMatch),
        Some(m) => {
            if many {
                Err(SanError::Ambiguous)
            } else {
                Ok(m)
            }
        },
    }
}

} // verus!
