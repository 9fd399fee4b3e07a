//! The board position: piece bitboards, the mailbox, side to move, castling rights,
//! en passant square, clocks, the Zobrist key, pins and checkers.
use vstd::prelude::*;
use vstd::string::StringSliceAdditionalSpecFns;

use vstd::std_specs::bits::u64_trailing_zeros;
use crate::bitboard::{
    Bitboard, Bitboards, bit_set, bishop_attacks_spec, evasion_mask_spec, king_attacks_spec,
    knight_attacks_spec, line_spec, pawn_attacks_spec, popcount, rook_attacks_spec,
};
use crate::types::{
    castling_mask, ep_pawn_index, file_of, rank_of, rook_castle_squares,
    self, Castling, CastlingType, Colour, Direction, Mailbox, Move, MoveFlag, Piece, PieceCode,
    Square,
};
use crate::fen::{
    castle_letter, castling_field, castling_field_ok, decimal_value, field_spans, fields, parse_castling,
    parse_unsigned, scan, PlacementScan,
};
use crate::zobrist::{self, ZKey, ep_hashable};

verus! {

/// Adding square `k` to a set adds exactly that square; removing it removes exactly it.
pub proof fn lemma_bit_update(x: u64, s: u64, k: u64)
    by (bit_vector)
    requires
        s < 64,
        k < 64,
    ensures
        ((x | (1u64 << k)) >> s) & 1u64 == 1u64 <==> ((x >> s) & 1u64 == 1u64 || s == k),
        ((x & !(1u64 << k)) >> s) & 1u64 == 1u64 <==> ((x >> s) & 1u64 == 1u64 && s != k),
        ((1u64 << k) >> s) & 1u64 == 1u64 <==> s == k,
{
}

/// Two sets with the same squares are equal.
pub proof fn lemma_bits_ext(a: u64, b: u64)
    requires
        forall|s: int| 0 <= s < 64 ==> (bit_set(a, s) <==> bit_set(b, s)),
    ensures
        a == b,
{
    if a != b {
        let x = a ^ b;
        assert(x != 0) by (bit_vector)
            requires
                a != b,
                x == a ^ b,
        ;
        vstd::std_specs::bits::axiom_u64_trailing_zeros(x);
        let tz = vstd::std_specs::bits::u64_trailing_zeros(x) as u64;
        assert(((a >> tz) & 1u64 == 1u64) != ((b >> tz) & 1u64 == 1u64)) by (bit_vector)
            requires
                x == a ^ b,
                (x >> tz) & 1u64 == 1u64,
        ;
        assert(bit_set(a, tz as int) != bit_set(b, tz as int));
    }
}

/// The squares a piece must cross for each set of castling rights.
pub open spec fn castling_path(bits: nat) -> u64 {
    (if (bits as u8) & 1u8 != 0 {
        0x60u64
    } else {
        0
    }) | (if (bits as u8) & 2u8 != 0 {
        0xEu64
    } else {
        0
    }) | (if (bits as u8) & 4u8 != 0 {
        0x60u64 << 56u64
    } else {
        0
    }) | (if (bits as u8) & 8u8 != 0 {
        0xEu64 << 56u64
    } else {
        0
    })
}

/// What is saved before a move so that it can be undone.
#[derive(Copy, Clone, PartialEq, Eq, Debug)]
pub struct StateInfo {
    pub zkey: ZKey,
    pub ep_square: Square,
    pub castling_rights: Castling,
    pub captured_piece: Option<Piece>,
    pub halfmove_clock: u8,
    pub fullmove_counter: u16,
}

impl StateInfo {
    pub fn new() -> (r: StateInfo)
        ensures
            r.zkey.0 == 0,
            r.ep_square == Square::NONE,
            r.castling_rights == Castling::NONE,
            r.captured_piece.is_none(),
            r.halfmove_clock == 0,
            r.fullmove_counter == 0,
    {
        StateInfo {
            zkey: ZKey(0),
            ep_square: Square::NONE,
            castling_rights: Castling::NONE,
            captured_piece: None,
            halfmove_clock: 0,
            fullmove_counter: 0,
        }
    }

    /// Copies the restorable fields of `pos`; no piece is captured yet.
    pub fn set_from_position(&mut self, pos: &Position)
        ensures
            final(self).zkey == pos.zkey,
            final(self).ep_square == pos.ep_square,
            final(self).castling_rights == pos.castling_rights,
            final(self).captured_piece.is_none(),
            final(self).halfmove_clock == pos.halfmove_clock,
            final(self).fullmove_counter == pos.fullmove_counter,
    {
        self.zkey = pos.zkey;
        self.ep_square = pos.ep_square;
        self.castling_rights = pos.castling_rights;
        self.captured_piece = None;
        self.halfmove_clock = pos.halfmove_clock;
        self.fullmove_counter = pos.fullmove_counter;
    }
}

#[derive(Copy, Clone, PartialEq, Eq, Debug)]
pub struct Position {
    pub pieces: [[Bitboard; 6]; 2],
    pub occupancy: [Bitboard; 3],
    pub mailbox: Mailbox,
    pub pinned_pieces: [Bitboard; 2],
    pub pinners: [Bitboard; 2],
    pub checkers: Bitboard,
    pub zkey: ZKey,
    pub fullmove_counter: u16,
    pub side_to_move: Colour,
    pub ep_square: Square,
    pub white_king_square: Square,
    pub black_king_square: Square,
    pub castling_rights: Castling,
    pub halfmove_clock: u8,
}

impl Position {
    /// The set of squares holding `piece` of `colour`.
    pub open spec fn piece_bb(self, c: Colour, p: Piece) -> u64 {
        self.pieces[c@ as int][p@ as int].0
    }

    /// The set of squares holding pieces of `c`.
    pub open spec fn occ_bb(self, c: Colour) -> u64 {
        self.occupancy[c@ as int].0
    }

    /// The set of occupied squares.
    pub open spec fn all_bb(self) -> u64 {
        self.occupancy[2].0
    }

    pub open spec fn king_sq(self, c: Colour) -> Square {
        if c == Colour::White {
            self.white_king_square
        } else {
            self.black_king_square
        }
    }

    /// The bitboards agree with the mailbox.
    #[verifier::opaque]
    pub open spec fn board_ok(self) -> bool {
        &&& forall|s: int, c: Colour, p: Piece|
            0 <= s < 64 ==> (#[trigger] bit_set(self.piece_bb(c, p), s) <==> self.mailbox@[s]
                == PieceCode::of(c, p))
        &&& forall|s: int, c: Colour|
            0 <= s < 64 ==> (#[trigger] bit_set(self.occ_bb(c), s) <==> self.mailbox@[s].colour_of()
                == Some(c))
        &&& forall|s: int|
            0 <= s < 64 ==> (#[trigger] bit_set(self.all_bb(), s) <==> self.mailbox@[s]
                != PieceCode::EMPTY)
    }

    /// `b` is `a` with a piece `piece` of `colour` added on `square`: in its bitboard, in its
    /// colour's occupancy, in the full occupancy and in the mailbox.
    pub open spec fn placed(a: Position, b: Position, colour: Colour, piece: Piece, square: Square) -> bool {
        &&& forall|c: Colour, p: Piece| #[trigger]
            b.piece_bb(c, p) == if c == colour && p == piece {
                a.piece_bb(c, p) | (1u64 << (square@ as u64))
            } else {
                a.piece_bb(c, p)
            }
        &&& forall|c: Colour| #[trigger]
            b.occ_bb(c) == if c == colour {
                a.occ_bb(c) | (1u64 << (square@ as u64))
            } else {
                a.occ_bb(c)
            }
        &&& b.all_bb() == a.all_bb() | (1u64 << (square@ as u64))
        &&& b.mailbox@ == a.mailbox@.update(square@ as int, PieceCode::of(colour, piece))
    }

    /// `b` is `a` with the piece `piece` of `colour` taken off `square`: from its bitboard, its
    /// colour's occupancy, the full occupancy and the mailbox.
    pub open spec fn removed(a: Position, b: Position, colour: Colour, piece: Piece, square: Square) -> bool {
        &&& forall|c: Colour, p: Piece| #[trigger]
            b.piece_bb(c, p) == if c == colour && p == piece {
                a.piece_bb(c, p) & !(1u64 << (square@ as u64))
            } else {
                a.piece_bb(c, p)
            }
        &&& forall|c: Colour| #[trigger]
            b.occ_bb(c) == if c == colour {
                a.occ_bb(c) & !(1u64 << (square@ as u64))
            } else {
                a.occ_bb(c)
            }
        &&& b.all_bb() == a.all_bb() & !(1u64 << (square@ as u64))
        &&& b.mailbox@ == a.mailbox@.update(square@ as int, PieceCode::EMPTY)
    }

    /// Each king square names the only king of its colour, or is `NONE` when there is none.
    #[verifier::opaque]
    pub open spec fn kings_ok(self) -> bool {
        &&& forall|s: int|
            0 <= s < 64 && #[trigger] self.mailbox@[s] == PieceCode::WhiteKing
                ==> self.white_king_square@ == s
        &&& forall|s: int|
            0 <= s < 64 && #[trigger] self.mailbox@[s] == PieceCode::BlackKing
                ==> self.black_king_square@ == s
        &&& forall|c: Colour|
            #[trigger] self.king_sq(c)@ < 64 ==> self.mailbox@[self.king_sq(c)@ as int]
                == PieceCode::of(c, Piece::King)
        &&& self.white_king_square@ <= 64
        &&& self.black_king_square@ <= 64
    }

    /// An empty board with white to move.
    pub fn new() -> (r: Position)
        ensures
            r.mailbox@ == Seq::new(64, |i: int| PieceCode::EMPTY),
            forall|c: Colour, p: Piece| #[trigger] r.piece_bb(c, p) == 0,
            forall|c: Colour| #[trigger] r.occ_bb(c) == 0,
            r.all_bb() == 0,
            r.pinned_pieces[0].0 == 0 && r.pinned_pieces[1].0 == 0,
            r.pinners[0].0 == 0 && r.pinners[1].0 == 0,
            r.checkers.0 == 0,
            r.zkey.0 == zobrist::side_key(),
            r.fullmove_counter == 0,
            r.side_to_move == Colour::White,
            r.ep_square == Square::NONE,
            r.white_king_square == Square::NONE,
            r.black_king_square == Square::NONE,
            r.castling_rights == Castling::NONE,
            r.halfmove_clock == 0,
            r.board_ok(),
            r.kings_ok(),
    {
        let mut zkey = ZKey(0);
        zkey.toggle_side();
        proof {
            let k = zobrist::side_key();
            crate::bitboard::lemma_bit_basics(k, 0, 0, 0);
        }
        let r = Position {
            pieces: [[Bitboard::new(0);6];2],
            occupancy: [Bitboard::new(0);3],
            mailbox: Mailbox::new(),
            pinned_pieces: [Bitboard::new(0);2],
            pinners: [Bitboard::new(0);2],
            checkers: Bitboard::new(0),
            zkey: zkey,
            fullmove_counter: 0,
            side_to_move: Colour::White,
            ep_square: Square::NONE,
            white_king_square: Square::NONE,
            black_king_square: Square::NONE,
            castling_rights: Castling::NONE,
            halfmove_clock: 0,
        };
        proof {
            reveal(Position::board_ok);
            reveal(Position::kings_ok);
            assert forall|s: int| 0 <= s < 64 implies !bit_set(0u64, s) by {
                let su = s as u64;
                crate::bitboard::lemma_bit_basics(0, 0, 0, su);
            }
        }
        r
    }

    #[inline(always)]
    pub fn king_square(&self, c: Colour) -> (r: Square)
        ensures
            r == self.king_sq(c),
    {
        if c == Colour::White {
            self.white_king_square
        } else {
            self.black_king_square
        }
    }

    /// The bishops and queens of `c`.
    #[inline(always)]
    pub fn bishop_sliders(&self, c: Colour) -> (r: Bitboard)
        ensures
            r.0 == self.piece_bb(c, Piece::Bishop) | self.piece_bb(c, Piece::Queen),
    {
        self.pieces[c.idx()][Piece::Bishop.idx()] | self.pieces[c.idx()][Piece::Queen.idx()]
    }

    /// The rooks and queens of `c`.
    #[inline(always)]
    pub fn rook_sliders(&self, c: Colour) -> (r: Bitboard)
        ensures
            r.0 == self.piece_bb(c, Piece::Rook) | self.piece_bb(c, Piece::Queen),
    {
        self.pieces[c.idx()][Piece::Rook.idx()] | self.pieces[c.idx()][Piece::Queen.idx()]
    }
}

impl Position {
    /// The fields other than the board and the king squares are the same.
    pub open spec fn same_state(self, other: Position) -> bool {
        &&& self.pinned_pieces == other.pinned_pieces
        &&& self.pinners == other.pinners
        &&& self.checkers == other.checkers
        &&& self.zkey == other.zkey
        &&& self.fullmove_counter == other.fullmove_counter
        &&& self.side_to_move == other.side_to_move
        &&& self.ep_square == other.ep_square
        &&& self.castling_rights == other.castling_rights
        &&& self.halfmove_clock == other.halfmove_clock
    }

    /// Puts `piece` of `colour` on `square`, recording the king square when it is a king.
    #[inline(always)]
    pub fn place_piece(&mut self, colour: Colour, piece: Piece, square: Square)
        requires
            square@ < 64,
        ensures
            forall|c: Colour, p: Piece| #[trigger]
                final(self).piece_bb(c, p) == if c == colour && p == piece {
                    old(self).piece_bb(c, p) | (1u64 << (square@ as u64))
                } else {
                    old(self).piece_bb(c, p)
                },
            forall|c: Colour| #[trigger]
                final(self).occ_bb(c) == if c == colour {
                    old(self).occ_bb(c) | (1u64 << (square@ as u64))
                } else {
                    old(self).occ_bb(c)
                },
            final(self).all_bb() == old(self).all_bb() | (1u64 << (square@ as u64)),
            final(self).mailbox@ == old(self).mailbox@.update(
                square@ as int,
                PieceCode::of(colour, piece),
            ),
            final(self).white_king_square == if piece == Piece::King && colour == Colour::White {
                square
            } else {
                old(self).white_king_square
            },
            final(self).black_king_square == if piece == Piece::King && colour == Colour::Black {
                square
            } else {
                old(self).black_king_square
            },
            final(self).same_state(*old(self)),
            old(self).board_ok() && old(self).mailbox@[square@ as int] == PieceCode::EMPTY
                ==> final(self).board_ok(),
            Position::placed(*old(self), *final(self), colour, piece, square),
    {
        let ci = colour.idx();
        let pi = piece.idx();
        let mut b = self.pieces[ci][pi];
        b.set_square(square);
        self.pieces[ci][pi] = b;
        let mut o = self.occupancy[ci];
        o.set_square(square);
        self.occupancy[ci] = o;
        let mut a = self.occupancy[2];
        a.set_square(square);
        self.occupancy[2] = a;
        let pc = PieceCode::new(colour, piece);
        self.mailbox.set_square(square, pc);
        if piece == Piece::King {
            match colour {
                Colour::White => self.white_king_square = square,
                Colour::Black => self.black_king_square = square,
            }
        }
        proof {
            reveal(Position::board_ok);
            if old(self).board_ok() && old(self).mailbox@[square@ as int] == PieceCode::EMPTY {
                let k = square@ as u64;
                assert forall|s: int, c: Colour, p: Piece| 0 <= s < 64 implies (#[trigger] bit_set(
                    self.piece_bb(c, p),
                    s,
                ) <==> self.mailbox@[s] == PieceCode::of(c, p)) by {
                    lemma_bit_update(old(self).piece_bb(c, p), s as u64, k);
                    PieceCode::lemma_of(c, p);
                    PieceCode::lemma_of(colour, piece);
                    assert(bit_set(old(self).piece_bb(c, p), s) <==> old(self).mailbox@[s]
                        == PieceCode::of(c, p));
                }
                assert forall|s: int, c: Colour| 0 <= s < 64 implies (#[trigger] bit_set(
                    self.occ_bb(c),
                    s,
                ) <==> self.mailbox@[s].colour_of() == Some(c)) by {
                    lemma_bit_update(old(self).occ_bb(c), s as u64, k);
                    PieceCode::lemma_of(colour, piece);
                    assert(bit_set(old(self).occ_bb(c), s) <==> old(self).mailbox@[s].colour_of()
                        == Some(c));
                }
                assert forall|s: int| 0 <= s < 64 implies (#[trigger] bit_set(self.all_bb(), s)
                    <==> self.mailbox@[s] != PieceCode::EMPTY) by {
                    lemma_bit_update(old(self).all_bb(), s as u64, k);
                    PieceCode::lemma_of(colour, piece);
                    assert(bit_set(old(self).all_bb(), s) <==> old(self).mailbox@[s]
                        != PieceCode::EMPTY);
                }
            }
        }
    }

    /// Takes `piece` of `colour` off `square` (the king squares are left as they are).
    #[inline(always)]
    pub fn remove_piece(&mut self, colour: Colour, piece: Piece, square: Square)
        requires
            square@ < 64,
        ensures
            forall|c: Colour, p: Piece| #[trigger]
                final(self).piece_bb(c, p) == if c == colour && p == piece {
                    old(self).piece_bb(c, p) & !(1u64 << (square@ as u64))
                } else {
                    old(self).piece_bb(c, p)
                },
            forall|c: Colour| #[trigger]
                final(self).occ_bb(c) == if c == colour {
                    old(self).occ_bb(c) & !(1u64 << (square@ as u64))
                } else {
                    old(self).occ_bb(c)
                },
            final(self).all_bb() == old(self).all_bb() & !(1u64 << (square@ as u64)),
            final(self).mailbox@ == old(self).mailbox@.update(square@ as int, PieceCode::EMPTY),
            final(self).white_king_square == old(self).white_king_square,
            final(self).black_king_square == old(self).black_king_square,
            final(self).same_state(*old(self)),
            old(self).board_ok() && old(self).mailbox@[square@ as int] == PieceCode::of(
                colour,
                piece,
            ) ==> final(self).board_ok(),
            Position::removed(*old(self), *final(self), colour, piece, square),
    {
        let ci = colour.idx();
        let pi = piece.idx();
        let mut b = self.pieces[ci][pi];
        b.clear_square(square);
        self.pieces[ci][pi] = b;
        let mut o = self.occupancy[ci];
        o.clear_square(square);
        self.occupancy[ci] = o;
        let mut a = self.occupancy[2];
        a.clear_square(square);
        self.occupancy[2] = a;
        self.mailbox.clear_square(square);
        proof {
            reveal(Position::board_ok);
            if old(self).board_ok() && old(self).mailbox@[square@ as int] == PieceCode::of(
                colour,
                piece,
            ) {
                let k = square@ as u64;
                PieceCode::lemma_of(colour, piece);
                assert forall|s: int, c: Colour, p: Piece| 0 <= s < 64 implies (#[trigger] bit_set(
                    self.piece_bb(c, p),
                    s,
                ) <==> self.mailbox@[s] == PieceCode::of(c, p)) by {
                    lemma_bit_update(old(self).piece_bb(c, p), s as u64, k);
                    PieceCode::lemma_of(c, p);
                    assert(bit_set(old(self).piece_bb(c, p), s) <==> old(self).mailbox@[s]
                        == PieceCode::of(c, p));
                    assert(bit_set(old(self).piece_bb(colour, piece), square@ as int));
                }
                assert forall|s: int, c: Colour| 0 <= s < 64 implies (#[trigger] bit_set(
                    self.occ_bb(c),
                    s,
                ) <==> self.mailbox@[s].colour_of() == Some(c)) by {
                    lemma_bit_update(old(self).occ_bb(c), s as u64, k);
                    assert(bit_set(old(self).occ_bb(c), s) <==> old(self).mailbox@[s].colour_of()
                        == Some(c));
                    assert(bit_set(old(self).occ_bb(colour), square@ as int));
                }
                assert forall|s: int| 0 <= s < 64 implies (#[trigger] bit_set(self.all_bb(), s)
                    <==> self.mailbox@[s] != PieceCode::EMPTY) by {
                    lemma_bit_update(old(self).all_bb(), s as u64, k);
                    assert(bit_set(old(self).all_bb(), s) <==> old(self).mailbox@[s]
                        != PieceCode::EMPTY);
                }
            }
        }
    }
}

pub proof fn lemma_clear_lowest_lt(x: u64)
    by (bit_vector)
    requires
        x != 0,
    ensures
        x & ((x - 1) as u64) < x,
{
}

proof fn lemma_or5_nonzero(a: u64, b: u64, c: u64, d: u64, e: u64)
    by (bit_vector)
    ensures
        (a | b | c | d | e != 0) <==> (a != 0 || b != 0 || c != 0 || d != 0 || e != 0),
{
}

/// The pinned pieces and pinners found by walking the snipers from the lowest square up:
/// a sniper pins the single occupied square between it and the king (if there is exactly
/// one), and counts as a pinner when that square holds one of our pieces.
pub open spec fn pins_fold(
    snipers: u64,
    king: int,
    occ: u64,
    own: u64,
    pinned: u64,
    pinners: u64,
) -> (u64, u64)
    decreases snipers,
{
    if snipers == 0 {
        (pinned, pinners)
    } else {
        let s = u64_trailing_zeros(snipers) as int;
        let b = evasion_mask_spec(king, s) & occ;
        let rest = snipers & ((snipers - 1) as u64);
        proof {
            lemma_clear_lowest_lt(snipers);
        }
        if popcount(b) == 1 {
            pins_fold(
                rest,
                king,
                occ,
                own,
                pinned | b,
                if b & own != 0 {
                    pinners | (1u64 << (s as u64))
                } else {
                    pinners
                },
            )
        } else {
            pins_fold(rest, king, occ, own, pinned, pinners)
        }
    }
}

impl Position {
    /// The enemy sliders that would attack `c`'s king on an empty board.
    pub open spec fn snipers_spec(self, c: Colour) -> u64 {
        let k = self.king_sq(c)@ as int;
        let them = c.other();
        (bishop_attacks_spec(k, 0) & (self.piece_bb(them, Piece::Bishop) | self.piece_bb(
            them,
            Piece::Queen,
        ))) | (rook_attacks_spec(k, 0) & (self.piece_bb(them, Piece::Rook) | self.piece_bb(
            them,
            Piece::Queen,
        )))
    }

    /// The pieces pinned to `c`'s king and the enemy pieces pinning them.
    #[verifier::opaque]
    pub open spec fn pins_spec(self, c: Colour) -> (u64, u64) {
        let snipers = self.snipers_spec(c);
        pins_fold(
            snipers,
            self.king_sq(c)@ as int,
            self.all_bb() ^ snipers,
            self.occ_bb(c),
            0,
            0,
        )
    }

    /// The enemy pieces (of the side not to move) that attack square `sq` given occupancy `occ`.
    #[verifier::opaque]
    pub open spec fn attackers_spec(self, sq: int, occ: u64) -> u64 {
        let us = self.side_to_move;
        let them = us.other();
        (bishop_attacks_spec(sq, occ) & (self.piece_bb(them, Piece::Bishop) | self.piece_bb(
            them,
            Piece::Queen,
        ))) | (rook_attacks_spec(sq, occ) & (self.piece_bb(them, Piece::Rook) | self.piece_bb(
            them,
            Piece::Queen,
        ))) | (knight_attacks_spec(sq) & self.piece_bb(them, Piece::Knight)) | (pawn_attacks_spec(
            1u64 << (sq as u64),
            us,
        ) & self.piece_bb(them, Piece::Pawn)) | (king_attacks_spec(sq) & self.piece_bb(
            them,
            Piece::King,
        ))
    }

    /// Pins, pinners and checkers are those of the current board.
    pub open spec fn pins_ok(self) -> bool {
        &&& self.king_sq(Colour::White)@ < 64
        &&& self.king_sq(Colour::Black)@ < 64
        &&& self.pinned_pieces[0].0 == self.pins_spec(Colour::White).0
        &&& self.pinners[1].0 == self.pins_spec(Colour::White).1
        &&& self.pinned_pieces[1].0 == self.pins_spec(Colour::Black).0
        &&& self.pinners[0].0 == self.pins_spec(Colour::Black).1
        &&& self.checkers.0 == self.attackers_spec(
            self.king_sq(self.side_to_move)@ as int,
            self.all_bb(),
        )
    }

    /// All non-pawn, non-king pieces of `c`.
    #[inline(always)]
    pub fn non_pawn_material(&self, c: Colour) -> (r: Bitboard)
        ensures
            r.0 == self.piece_bb(c, Piece::Queen) | self.piece_bb(c, Piece::Rook) | self.piece_bb(
                c,
                Piece::Bishop,
            ) | self.piece_bb(c, Piece::Knight),
    {
        let ci = c.idx();
        self.pieces[ci][Piece::Queen.idx()] | self.pieces[ci][Piece::Rook.idx()]
            | self.pieces[ci][Piece::Bishop.idx()] | self.pieces[ci][Piece::Knight.idx()]
    }

    /// Whether all rights in `c` are held.
    #[inline(always)]
    pub fn can_castle(&self, c: Castling) -> (r: bool)
        ensures
            r == ((self.castling_rights@ as u8) & (c@ as u8) == (c@ as u8)),
    {
        self.castling_rights.contains(c)
    }

    /// Whether a piece stands between king and rook for any of the castles in `c`.
    #[inline(always)]
    pub fn castling_impeded(&self, c: Castling) -> (r: bool)
        ensures
            r == (self.all_bb() & castling_path(c@) != 0),
    {
        let b = c.bits();
        let p0: u64 = if b & 1 != 0 {
            0x60
        } else {
            0
        };
        let p1: u64 = if b & 2 != 0 {
            0xE
        } else {
            0
        };
        let p2: u64 = if b & 4 != 0 {
            0x60u64 << 56
        } else {
            0
        };
        let p3: u64 = if b & 8 != 0 {
            0xEu64 << 56
        } else {
            0
        };
        let path = p0 | p1 | p2 | p3;
        assert(path == castling_path(c@));
        self.occupancy[2].0 & path != 0
    }

    /// The pinned pieces of `c`.
    #[inline(always)]
    pub fn pinned_pieces(&self, c: Colour) -> (r: Bitboard)
        ensures
            r == self.pinned_pieces[c@ as int],
    {
        self.pinned_pieces[c.idx()]
    }

    /// The enemy pieces attacking square `sq` with occupancy `occ`.
    #[inline(always)]
    pub fn attackers_to(&self, sq: Square, occ: Bitboard, bbs: &Bitboards) -> (r: Bitboard)
        requires
            bbs.wf(),
            sq@ < 64,
        ensures
            r.0 == self.attackers_spec(sq@ as int, occ.0),
    {
        proof {
            reveal(Position::attackers_spec);
        }
        let us = self.side_to_move;
        let them = us.opposite();
        let ti = them.idx();
        (bbs.bishop_attacks(sq, occ) & self.bishop_sliders(them)) | (bbs.rook_attacks(sq, occ)
            & self.rook_sliders(them)) | (bbs.knight_attacks(sq)
            & self.pieces[ti][Piece::Knight.idx()]) | (bbs.pawn_attacks(sq, us)
            & self.pieces[ti][Piece::Pawn.idx()]) | (bbs.king_attacks(sq)
            & self.pieces[ti][Piece::King.idx()])
    }

    /// Whether any enemy piece attacks square `sq` with occupancy `occ`.
    #[inline(always)]
    pub fn attackers_to_exist(&self, sq: Square, occ: Bitboard, bbs: &Bitboards) -> (r: bool)
        requires
            bbs.wf(),
            sq@ < 64,
        ensures
            r == (self.attackers_spec(sq@ as int, occ.0) != 0),
    {
        proof {
            reveal(Position::attackers_spec);
        }
        let us = self.side_to_move;
        let them = us.opposite();
        let ti = them.idx();
        let a = bbs.bishop_attacks(sq, occ) & self.bishop_sliders(them);
        let b = bbs.rook_attacks(sq, occ) & self.rook_sliders(them);
        let c = bbs.knight_attacks(sq) & self.pieces[ti][Piece::Knight.idx()];
        let d = bbs.pawn_attacks(sq, us) & self.pieces[ti][Piece::Pawn.idx()];
        let e = bbs.king_attacks(sq) & self.pieces[ti][Piece::King.idx()];
        proof {
            lemma_or5_nonzero(a.0, b.0, c.0, d.0, e.0);
        }
        !a.is_empty() || !b.is_empty() || !c.is_empty() || !d.is_empty() || !e.is_empty()
    }

    /// Recomputes the pieces of `c` pinned to its king and the enemy pinners.
    #[inline(always)]
    pub fn update_pins(&mut self, c: Colour, bbs: &Bitboards)
        requires
            old(self).king_sq(c)@ < 64,
            bbs.wf(),
        ensures
            final(self).pinned_pieces[c@ as int].0 == old(self).pins_spec(c).0,
            final(self).pinners[c.other()@ as int].0 == old(self).pins_spec(c).1,
            final(self).pinned_pieces[c.other()@ as int] == old(self).pinned_pieces[c.other()@ as int],
            final(self).pinners[c@ as int] == old(self).pinners[c@ as int],
            final(self).pieces == old(self).pieces,
            final(self).occupancy == old(self).occupancy,
            final(self).mailbox == old(self).mailbox,
            final(self).checkers == old(self).checkers,
            final(self).zkey == old(self).zkey,
            final(self).fullmove_counter == old(self).fullmove_counter,
            final(self).side_to_move == old(self).side_to_move,
            final(self).ep_square == old(self).ep_square,
            final(self).white_king_square == old(self).white_king_square,
            final(self).black_king_square == old(self).black_king_square,
            final(self).castling_rights == old(self).castling_rights,
            final(self).halfmove_clock == old(self).halfmove_clock,
    {
        let king_sq = self.king_square(c);
        let them = c.opposite();
        let ci = c.idx();
        let ti = them.idx();
        let mut snipers = (bbs.bishop_attacks(king_sq, Bitboard::new(0)) & self.bishop_sliders(
            them,
        )) | (bbs.rook_attacks(king_sq, Bitboard::new(0)) & self.rook_sliders(them));
        let occ = self.occupancy[2] ^ snipers;
        let own = self.occupancy[ci];
        let mut pinned = Bitboard::new(0);
        let mut pinners = Bitboard::new(0);
        let ghost target = old(self).pins_spec(c);
        proof {
            reveal(Position::pins_spec);
        }
        while !snipers.is_empty()
            invariant
                bbs.wf(),
                king_sq@ < 64,
                pins_fold(snipers.0, king_sq@ as int, occ.0, own.0, pinned.0, pinners.0) == target,
            decreases snipers.0,
        {
            let ghost old_snipers = snipers.0;
            let sniper_sq = snipers.pop_lsb();
            let b = bbs.evasion_mask(king_sq, sniper_sq) & occ;
            if b.bit_count() == 1 {
                pinned = pinned | b;
                if !(b & own).is_empty() {
                    pinners = pinners | sniper_sq.bitboard();
                }
            }
        }
        self.pinned_pieces[ci] = pinned;
        self.pinners[ti] = pinners;
    }

    /// Recomputes the pieces giving check to the side to move.
    #[inline(always)]
    pub fn update_checkers(&mut self, bbs: &Bitboards)
        requires
            old(self).king_sq(old(self).side_to_move)@ < 64,
            bbs.wf(),
        ensures
            final(self).checkers.0 == old(self).attackers_spec(
                old(self).king_sq(old(self).side_to_move)@ as int,
                old(self).all_bb(),
            ),
            final(self).pieces == old(self).pieces,
            final(self).occupancy == old(self).occupancy,
            final(self).mailbox == old(self).mailbox,
            final(self).pinned_pieces == old(self).pinned_pieces,
            final(self).pinners == old(self).pinners,
            final(self).zkey == old(self).zkey,
            final(self).fullmove_counter == old(self).fullmove_counter,
            final(self).side_to_move == old(self).side_to_move,
            final(self).ep_square == old(self).ep_square,
            final(self).white_king_square == old(self).white_king_square,
            final(self).black_king_square == old(self).black_king_square,
            final(self).castling_rights == old(self).castling_rights,
            final(self).halfmove_clock == old(self).halfmove_clock,
    {
        let us = self.side_to_move;
        let occ = self.occupancy[2];
        self.checkers = self.attackers_to(self.king_square(us), occ, bbs);
    }

    /// The piece a move captures: a pawn for en passant, otherwise whatever stands on the
    /// destination square.
    #[inline(always)]
    pub fn captured_piece(&self, mv: Move) -> (r: Option<Piece>)
        ensures
            r == if mv.flag_of() == MoveFlag::EpCapture {
                Some(Piece::Pawn)
            } else {
                self.mailbox@[mv.to_index() as int].piece_of()
            },
    {
        if mv.is_ep_capture() {
            Some(Piece::Pawn)
        } else {
            self.mailbox.piece_at(mv.to())
        }
    }
}

/// The square a capture takes its victim from: behind the destination for en passant.
pub open spec fn capture_square(mv: Move) -> int {
    if mv.flag_of() == MoveFlag::EpCapture {
        ep_pawn_index(mv.to_index() as int)
    } else {
        mv.to_index() as int
    }
}

/// The piece that lands on the destination square: the promotion piece, if any.
pub open spec fn landing_piece(mv: Move, piece: Piece) -> Piece {
    match mv.flag_of().promotion() {
        Some(p) => p,
        None => piece,
    }
}

/// The board after `us` plays `mv`: the victim (if any) leaves its square, the moving piece
/// goes from the source to the destination (promoted if the move promotes), and a castle
/// also moves the rook.
#[verifier::opaque]
pub open spec fn board_after(b: Seq<PieceCode>, mv: Move, us: Colour) -> Seq<PieceCode> {
    let from = mv.from_index() as int;
    let to = mv.to_index() as int;
    let f = mv.flag_of();
    let piece = b[from].piece_of().unwrap();
    let b1 = if f.is_capture() {
        b.update(capture_square(mv), PieceCode::EMPTY)
    } else {
        b
    };
    let b2 = b1.update(from, PieceCode::EMPTY).update(
        to,
        PieceCode::of(us, landing_piece(mv, piece)),
    );
    match f.castle() {
        Some(side) => {
            let (rf, rt) = rook_castle_squares(us, side);
            b2.update(rf@ as int, PieceCode::EMPTY).update(rt@ as int, PieceCode::of(us, Piece::Rook))
        },
        None => b2,
    }
}

/// The board before `us` played `mv`, rebuilt from the board after it and the captured piece.
#[verifier::opaque]
pub open spec fn board_before(
    b: Seq<PieceCode>,
    mv: Move,
    us: Colour,
    captured: Option<Piece>,
) -> Seq<PieceCode> {
    let from = mv.from_index() as int;
    let to = mv.to_index() as int;
    let f = mv.flag_of();
    let piece = b[to].piece_of().unwrap();
    let back = if f.is_promotion() {
        Piece::Pawn
    } else {
        piece
    };
    let b1 = b.update(to, PieceCode::EMPTY).update(from, PieceCode::of(us, back));
    let b2 = if f.is_capture() {
        b1.update(capture_square(mv), PieceCode::of(us.other(), captured.unwrap()))
    } else {
        b1
    };
    match f.castle() {
        Some(side) => {
            let (rf, rt) = rook_castle_squares(us, side);
            b2.update(rt@ as int, PieceCode::EMPTY).update(rf@ as int, PieceCode::of(us, Piece::Rook))
        },
        None => b2,
    }
}

/// The key `k` with the pieces that `mv` moves hashed out of their old squares and into their
/// new ones: the victim, the mover (promoted if it promotes) and a castling rook.
#[verifier::opaque]
pub open spec fn pieces_key(k: u64, b: Seq<PieceCode>, mv: Move, us: Colour) -> u64 {
    let from = mv.from_index() as int;
    let to = mv.to_index() as int;
    let f = mv.flag_of();
    let piece = b[from].piece_of().unwrap();
    let k3 = if f.is_capture() {
        k ^ zobrist::piece_key(
            PieceCode::of(us.other(), b[capture_square(mv)].piece_of().unwrap())@,
            capture_square(mv) as nat,
        )
    } else {
        k
    };
    let k4 = k3 ^ zobrist::piece_key(PieceCode::of(us, piece)@, from as nat)
        ^ zobrist::piece_key(PieceCode::of(us, landing_piece(mv, piece))@, to as nat);
    match f.castle() {
        Some(side) => {
            let (rf, rt) = rook_castle_squares(us, side);
            k4 ^ zobrist::piece_key(PieceCode::of(us, Piece::Rook)@, rf@) ^ zobrist::piece_key(
                PieceCode::of(us, Piece::Rook)@,
                rt@,
            )
        },
        None => k4,
    }
}

/// A move the board allows without panicking: a piece on the source square, a victim on the
/// capture square, en passant landing on the sixth or third rank.
pub open spec fn board_can_make(b: Seq<PieceCode>, mv: Move) -> bool {
    let f = mv.flag_of();
    &&& b.len() == 64
    &&& b[mv.from_index() as int] != PieceCode::EMPTY
    &&& f == MoveFlag::EpCapture ==> (rank_of(mv.to_index() as int) == 5 || rank_of(
        mv.to_index() as int,
    ) == 2)
    &&& f.is_capture() ==> b[capture_square(mv)] != PieceCode::EMPTY
}

/// A move that moves a piece of `us` to a square it may occupy: empty, or holding an enemy
/// piece other than the king for a capture; en passant takes an enemy pawn; promotions are pawn
/// moves; castles move the king and a rook of ours to empty squares.
#[verifier::opaque]
pub open spec fn move_shape_ok(b: Seq<PieceCode>, us: Colour, mv: Move) -> bool {
    let from = mv.from_index() as int;
    let to = mv.to_index() as int;
    let them = us.other();
    let f = mv.flag_of();
    let piece = b[from].piece_of().unwrap();
    &&& b[from].colour_of() == Some(us)
    &&& from != to
    &&& f.is_capture() ==> b[capture_square(mv)].colour_of() == Some(them)
        && b[capture_square(mv)] != PieceCode::of(them, Piece::King)
    &&& (!f.is_capture() || f == MoveFlag::EpCapture) ==> b[to] == PieceCode::EMPTY
    &&& f == MoveFlag::EpCapture ==> piece == Piece::Pawn
    &&& f.is_promotion() ==> piece == Piece::Pawn
    &&& (f == MoveFlag::KingCastle || f == MoveFlag::QueenCastle) ==> ({
        let (rf, rt) = rook_castle_squares(us, f.castle().unwrap());
        &&& piece == Piece::King
        &&& b[rf@ as int] == PieceCode::of(us, Piece::Rook)
        &&& b[rt@ as int] == PieceCode::EMPTY
        &&& rf@ != from && rf@ != to && rt@ != from && rt@ != to
    })
}

impl Position {
    /// Board, kings, pins and checkers are consistent and both kings are on the board.
    pub open spec fn wf(self) -> bool {
        &&& self.board_ok()
        &&& self.kings_ok()
        &&& self.pins_ok()
    }

    /// A move `make_move` can play without panicking: one it can play on the board, with
    /// clocks that can still count and both kings on the board.
    pub open spec fn can_make(self, mv: Move) -> bool {
        &&& board_can_make(self.mailbox@, mv)
        &&& self.halfmove_clock < 255
        &&& self.fullmove_counter < 65535
        &&& self.white_king_square@ < 64
        &&& self.black_king_square@ < 64
    }

    /// A move that `make_move` can play and whose shape fits the board (see `move_shape_ok`).
    pub open spec fn move_ok(self, mv: Move) -> bool {
        &&& self.can_make(mv)
        &&& move_shape_ok(self.mailbox@, self.side_to_move, mv)
    }

    /// The Zobrist key after `mv`, updated incrementally from the key before it.
    #[verifier::opaque]
    pub open spec fn zkey_after(self, mv: Move) -> u64 {
        let from = mv.from_index() as int;
        let to = mv.to_index() as int;
        let us = self.side_to_move;
        let them = us.other();
        let f = mv.flag_of();
        let b = self.mailbox@;
        let piece = b[from].piece_of().unwrap();
        let new_rights = (self.castling_rights@ as u8) & (castling_mask(from) as u8) & (
        castling_mask(to) as u8);
        let k1 = self.zkey.0 ^ (if zobrist::ep_hashable_spec(b, self.ep_square@ as int, us) {
            zobrist::ep_key(file_of(self.ep_square@ as int) as nat)
        } else {
            0
        });
        let k2 = k1 ^ zobrist::castling_key(self.castling_rights@) ^ zobrist::castling_key(
            new_rights as nat,
        );
        let k5 = pieces_key(k2, b, mv, us);
        let ep = (from + to) / 2;
        let k6 = if piece == Piece::Pawn && f == MoveFlag::DoublePush
            && zobrist::ep_hashable_spec(board_after(b, mv, us), ep, them) {
            k5 ^ zobrist::ep_key(file_of(ep) as nat)
        } else {
            k5
        };
        k6 ^ zobrist::side_key()
    }

    /// How `make_move` changes a position `p0` into `p1`, saving `st`: the board and state
    /// after the move, with pins and checkers recomputed for it.
    pub open spec fn make_rel(p0: Position, mv: Move, p1: Position, st: StateInfo) -> bool {
        &&& Position::made_rel(p0, mv, p1, st)
        &&& p1.pins_ok()
    }

    /// How the board, the key, the rights, the clocks and the king squares change with `mv`.
    pub open spec fn made_rel(p0: Position, mv: Move, p1: Position, st: StateInfo) -> bool {
        let from = mv.from_index() as int;
        let to = mv.to_index() as int;
        let us = p0.side_to_move;
        let f = mv.flag_of();
        let piece = p0.mailbox@[from].piece_of().unwrap();
        &&& st.zkey == p0.zkey
        &&& st.ep_square == p0.ep_square
        &&& st.castling_rights == p0.castling_rights
        &&& st.halfmove_clock == p0.halfmove_clock
        &&& st.fullmove_counter == p0.fullmove_counter
        &&& st.captured_piece == (if f.is_capture() {
            p0.mailbox@[capture_square(mv)].piece_of()
        } else {
            None
        })
        &&& p1.mailbox@ == board_after(p0.mailbox@, mv, us)
        &&& p1.side_to_move == us.other()
        &&& p1.castling_rights@ == (p0.castling_rights@ as u8) & (castling_mask(from) as u8) & (
        castling_mask(to) as u8)
        &&& p1.ep_square == (if piece == Piece::Pawn && f == MoveFlag::DoublePush {
            Square::from_index((from + to) / 2)
        } else {
            Square::NONE
        })
        &&& p1.halfmove_clock == (if f.is_capture() || piece == Piece::Pawn {
            0
        } else {
            p0.halfmove_clock + 1
        })
        &&& p1.fullmove_counter == (if us == Colour::Black {
            p0.fullmove_counter + 1
        } else {
            p0.fullmove_counter as int
        })
        &&& p1.white_king_square == (if landing_piece(mv, piece) == Piece::King && us == Colour::White {
            Square::from_index(to)
        } else {
            p0.white_king_square
        })
        &&& p1.black_king_square == (if landing_piece(mv, piece) == Piece::King && us == Colour::Black {
            Square::from_index(to)
        } else {
            p0.black_king_square
        })
        &&& p1.zkey.0 == p0.zkey_after(mv)
        &&& p0.board_ok() && p0.kings_ok() && p0.move_ok(mv) ==> p1.board_ok() && p1.kings_ok()
    }
}

proof fn lemma_u8_avg(a: u8, b: u8)
    by (bit_vector)
    requires
        a < 64,
        b < 64,
    ensures
        ((a + b) as u8) >> 1u8 == (a + b) / 2,
        (a + b) / 2 < 64,
{
}

/// What stands on square `s` after `us` plays `mv`.
pub open spec fn after_at(b: Seq<PieceCode>, mv: Move, us: Colour, s: int) -> PieceCode {
    let from = mv.from_index() as int;
    let to = mv.to_index() as int;
    let f = mv.flag_of();
    let piece = b[from].piece_of().unwrap();
    match f.castle() {
        Some(side) => {
            let (rf, rt) = rook_castle_squares(us, side);
            if s == rt@ {
                PieceCode::of(us, Piece::Rook)
            } else if s == rf@ {
                PieceCode::EMPTY
            } else if s == to {
                PieceCode::of(us, landing_piece(mv, piece))
            } else if s == from {
                PieceCode::EMPTY
            } else if f.is_capture() && s == capture_square(mv) {
                PieceCode::EMPTY
            } else {
                b[s]
            }
        },
        None => if s == to {
            PieceCode::of(us, landing_piece(mv, piece))
        } else if s == from {
            PieceCode::EMPTY
        } else if f.is_capture() && s == capture_square(mv) {
            PieceCode::EMPTY
        } else {
            b[s]
        },
    }
}

pub proof fn lemma_board_after_at(b: Seq<PieceCode>, mv: Move, us: Colour, s: int)
    requires
        b.len() == 64,
        0 <= s < 64,
        0 <= capture_square(mv) < 64,
    ensures
        board_after(b, mv, us)[s] == after_at(b, mv, us, s),
        board_after(b, mv, us).len() == 64,
{
    reveal(board_after);
    Move::lemma_indices(mv);
    let f = mv.flag_of();
    match f.castle() {
        Some(side) => {
            let (rf, rt) = rook_castle_squares(us, side);
            Square::lemma_from_index_view(rf);
            Square::lemma_from_index_view(rt);
        },
        None => {},
    }
}

/// After a valid move the king squares still name the only kings.
proof fn lemma_make_kings(p0: Position, mv: Move, p1: Position)
    requires
        p0.board_ok(),
        p0.kings_ok(),
        p0.move_ok(mv),
        p1.mailbox@ == board_after(p0.mailbox@, mv, p0.side_to_move),
        p1.white_king_square == (if landing_piece(mv, p0.mailbox@[mv.from_index() as int].piece_of().unwrap())
            == Piece::King && p0.side_to_move == Colour::White {
            Square::from_index(mv.to_index() as int)
        } else {
            p0.white_king_square
        }),
        p1.black_king_square == (if landing_piece(mv, p0.mailbox@[mv.from_index() as int].piece_of().unwrap())
            == Piece::King && p0.side_to_move == Colour::Black {
            Square::from_index(mv.to_index() as int)
        } else {
            p0.black_king_square
        }),
    ensures
        p1.kings_ok(),
{
    let from = mv.from_index() as int;
    let to = mv.to_index() as int;
    let us = p0.side_to_move;
    let them = us.other();
    let f = mv.flag_of();
    let b = p0.mailbox@;
    let piece = b[from].piece_of().unwrap();
    reveal(Position::board_ok);
    reveal(Position::kings_ok);
    reveal(move_shape_ok);
    Move::lemma_indices(mv);
    PieceCode::lemma_determined(b[from]);
    PieceCode::lemma_of(us, piece);
    PieceCode::lemma_of(us, Piece::King);
    PieceCode::lemma_of(them, Piece::King);
    PieceCode::lemma_of(us, Piece::Rook);
    PieceCode::lemma_of(us, landing_piece(mv, piece));
    Square::lemma_from_index_view(p0.white_king_square);
    Square::lemma_from_index_view(p0.black_king_square);
    Square::lemma_from_index(to);
    assert(b[from] == PieceCode::of(us, piece));
    if f.is_capture() {
        PieceCode::lemma_determined(b[capture_square(mv)]);
    }
    if piece == Piece::King {
        assert(p0.king_sq(us)@ == from);
    }
    assert(landing_piece(mv, piece) == Piece::King ==> piece == Piece::King);
    assert forall|s: int|
        0 <= s < 64 && #[trigger] p1.mailbox@[s] == PieceCode::WhiteKing implies p1.white_king_square@
            == s by {
        lemma_board_after_at(b, mv, us, s);
    }
    assert forall|s: int|
        0 <= s < 64 && #[trigger] p1.mailbox@[s] == PieceCode::BlackKing implies p1.black_king_square@
            == s by {
        lemma_board_after_at(b, mv, us, s);
    }
    assert forall|c: Colour| #[trigger] p1.king_sq(c)@ < 64 implies p1.mailbox@[p1.king_sq(c)@ as int]
        == PieceCode::of(c, Piece::King) by {
        let k = p1.king_sq(c)@ as int;
        lemma_board_after_at(b, mv, us, k);
        PieceCode::lemma_of(c, Piece::King);
        if !(piece == Piece::King && c == us) {
            assert(p1.king_sq(c) == p0.king_sq(c));
            assert(b[k] == PieceCode::of(c, Piece::King));
            assert(k != from);
            assert(k != to);
            if f.is_capture() {
                assert(k != capture_square(mv));
            }
            match f.castle() {
                Some(side) => {
                    let (rf, rt) = rook_castle_squares(us, side);
                    assert(k != rf@);
                    assert(k != rt@);
                },
                None => {},
            }
            assert(after_at(b, mv, us, k) == b[k]);
        }
    }
}

/// Pins and attackers only depend on the bitboards, the king squares and the side to move.
proof fn lemma_pins_frame(a: Position, b: Position)
    requires
        a.pieces == b.pieces,
        a.occupancy == b.occupancy,
        a.white_king_square == b.white_king_square,
        a.black_king_square == b.black_king_square,
        a.side_to_move == b.side_to_move,
    ensures
        a.pins_spec(Colour::White) == b.pins_spec(Colour::White),
        a.pins_spec(Colour::Black) == b.pins_spec(Colour::Black),
        forall|sq: int, occ: u64| #[trigger] b.attackers_spec(sq, occ) == a.attackers_spec(sq, occ),
{
    reveal(Position::pins_spec);
    reveal(Position::attackers_spec);
}

/// The king squares' consistency only depends on the mailbox and the king squares.
pub proof fn lemma_kings_ok_frame(a: Position, b: Position)
    requires
        a.mailbox == b.mailbox,
        a.white_king_square == b.white_king_square,
        a.black_king_square == b.black_king_square,
    ensures
        a.kings_ok() ==> b.kings_ok(),
{
    reveal(Position::kings_ok);
    if a.kings_ok() {
        assert forall|c: Colour| #[trigger] b.king_sq(c)@ < 64 implies b.mailbox@[b.king_sq(c)@ as int]
            == PieceCode::of(c, Piece::King) by {
            assert(a.king_sq(c) == b.king_sq(c));
        }
    }
}

/// Board consistency only depends on the bitboards and the mailbox.
pub proof fn lemma_board_ok_frame(a: Position, b: Position)
    requires
        a.pieces == b.pieces,
        a.occupancy == b.occupancy,
        a.mailbox == b.mailbox,
    ensures
        a.board_ok() ==> b.board_ok(),
{
    reveal(Position::board_ok);
    if a.board_ok() {
        lemma_board_ok_frame_inner(a, b);
    }
}

proof fn lemma_board_ok_frame_inner(a: Position, b: Position)
    requires
        a.pieces == b.pieces,
        a.occupancy == b.occupancy,
        a.mailbox == b.mailbox,
        a.board_ok(),
    ensures
        b.board_ok(),
{
    reveal(Position::board_ok);
    assert forall|s: int, c: Colour, p: Piece| 0 <= s < 64 implies (#[trigger] bit_set(
        b.piece_bb(c, p),
        s,
    ) <==> b.mailbox@[s] == PieceCode::of(c, p)) by {
        assert(a.piece_bb(c, p) == b.piece_bb(c, p));
        assert(bit_set(a.piece_bb(c, p), s) <==> a.mailbox@[s] == PieceCode::of(c, p));
    }
    assert forall|s: int, c: Colour| 0 <= s < 64 implies (#[trigger] bit_set(b.occ_bb(c), s)
        <==> b.mailbox@[s].colour_of() == Some(c)) by {
        assert(a.occ_bb(c) == b.occ_bb(c));
        assert(bit_set(a.occ_bb(c), s) <==> a.mailbox@[s].colour_of() == Some(c));
    }
    assert forall|s: int| 0 <= s < 64 implies (#[trigger] bit_set(b.all_bb(), s) <==> b.mailbox@[s]
        != PieceCode::EMPTY) by {
        assert(a.all_bb() == b.all_bb());
        assert(bit_set(a.all_bb(), s) <==> a.mailbox@[s] != PieceCode::EMPTY);
    }
}

impl Position {
    /// The side to move, en passant square, rights, clocks, pins and checkers agree.
    pub open spec fn same_flags(self, other: Position) -> bool {
        &&& self.pinned_pieces == other.pinned_pieces
        &&& self.pinners == other.pinners
        &&& self.checkers == other.checkers
        &&& self.fullmove_counter == other.fullmove_counter
        &&& self.side_to_move == other.side_to_move
        &&& self.ep_square == other.ep_square
        &&& self.castling_rights == other.castling_rights
        &&& self.halfmove_clock == other.halfmove_clock
    }

    /// Takes the captured piece (if any) off the board and out of the key.
    fn capture_step(&mut self, mv: Move, them: Colour, ghost_good: Ghost<bool>) -> (r: Option<
        Piece,
    >)
        requires
            old(self).mailbox@.len() == 64,
            mv.flag_of() == MoveFlag::EpCapture ==> (rank_of(mv.to_index() as int) == 5 || rank_of(
                mv.to_index() as int,
            ) == 2),
            mv.flag_of().is_capture() ==> old(self).mailbox@[capture_square(mv)]
                != PieceCode::EMPTY,
            ghost_good@ ==> old(self).board_ok(),
            ghost_good@ && mv.flag_of().is_capture() ==> old(self).mailbox@[capture_square(
                mv,
            )].colour_of() == Some(them),
        ensures
            0 <= capture_square(mv) < 64,
            r == (if mv.flag_of().is_capture() {
                old(self).mailbox@[capture_square(mv)].piece_of()
            } else {
                None
            }),
            final(self).mailbox@ == (if mv.flag_of().is_capture() {
                old(self).mailbox@.update(capture_square(mv), PieceCode::EMPTY)
            } else {
                old(self).mailbox@
            }),
            final(self).zkey.0 == (if mv.flag_of().is_capture() {
                old(self).zkey.0 ^ zobrist::piece_key(
                    PieceCode::of(them, old(self).mailbox@[capture_square(mv)].piece_of().unwrap())@,
                    capture_square(mv) as nat,
                )
            } else {
                old(self).zkey.0
            }),
            final(self).white_king_square == old(self).white_king_square,
            final(self).black_king_square == old(self).black_king_square,
            final(self).same_flags(*old(self)),
            ghost_good@ ==> final(self).board_ok(),
    {
        let to = mv.to();
        if mv.is_capture() {
            let capture_square = if mv.is_ep_capture() {
                mv.get_ep_pawn_square()
            } else {
                to
            };
            let captured_piece = self.mailbox.piece_at(capture_square).unwrap();
            proof {
                PieceCode::lemma_determined(self.mailbox@[capture_square@ as int]);
            }
            self.remove_piece(them, captured_piece, capture_square);
            let ghost mid = *self;
            self.zkey.toggle_piece(PieceCode::new(them, captured_piece), capture_square);
            proof {
                if ghost_good@ {
                    lemma_board_ok_frame(mid, *self);
                }
            }
            Some(captured_piece)
        } else {
            None
        }
    }

    /// Moves the piece from the source to the destination square (as `to_piece`).
    fn shift_step(
        &mut self,
        us: Colour,
        piece: Piece,
        to_piece: Piece,
        from: Square,
        to: Square,
        ghost_good: Ghost<bool>,
    )
        requires
            from@ < 64,
            to@ < 64,
            old(self).mailbox@.len() == 64,
            ghost_good@ ==> old(self).board_ok() && old(self).mailbox@[from@ as int]
                == PieceCode::of(us, piece) && old(self).mailbox@[to@ as int] == PieceCode::EMPTY
                && from@ != to@,
        ensures
            final(self).mailbox@ == old(self).mailbox@.update(from@ as int, PieceCode::EMPTY).update(
                to@ as int,
                PieceCode::of(us, to_piece),
            ),
            final(self).zkey.0 == old(self).zkey.0 ^ zobrist::piece_key(
                PieceCode::of(us, piece)@,
                from@,
            ) ^ zobrist::piece_key(PieceCode::of(us, to_piece)@, to@),
            final(self).white_king_square == (if to_piece == Piece::King && us == Colour::White {
                to
            } else {
                old(self).white_king_square
            }),
            final(self).black_king_square == (if to_piece == Piece::King && us == Colour::Black {
                to
            } else {
                old(self).black_king_square
            }),
            final(self).same_flags(*old(self)),
            ghost_good@ ==> final(self).board_ok(),
    {
        proof {
            PieceCode::lemma_of(us, piece);
            PieceCode::lemma_of(us, to_piece);
        }
        self.remove_piece(us, piece, from);
        let ghost m1 = *self;
        self.zkey.toggle_piece(PieceCode::new(us, piece), from);
        proof {
            if ghost_good@ {
                lemma_board_ok_frame(m1, *self);
            }
        }
        self.place_piece(us, to_piece, to);
        let ghost m2 = *self;
        self.zkey.toggle_piece(PieceCode::new(us, to_piece), to);
        proof {
            if ghost_good@ {
                lemma_board_ok_frame(m2, *self);
            }
        }
    }

    /// Moves the rook of a castle.
    fn castle_step(&mut self, mv: Move, us: Colour, ghost_good: Ghost<bool>)
        requires
            old(self).mailbox@.len() == 64,
            ghost_good@ ==> old(self).board_ok(),
            ghost_good@ && mv.flag_of().castle().is_some() ==> ({
                let (rf, rt) = rook_castle_squares(us, mv.flag_of().castle().unwrap());
                old(self).mailbox@[rf@ as int] == PieceCode::of(us, Piece::Rook)
                    && old(self).mailbox@[rt@ as int] == PieceCode::EMPTY
            }),
        ensures
            final(self).mailbox@ == match mv.flag_of().castle() {
                Some(side) => {
                    let (rf, rt) = rook_castle_squares(us, side);
                    old(self).mailbox@.update(rf@ as int, PieceCode::EMPTY).update(
                        rt@ as int,
                        PieceCode::of(us, Piece::Rook),
                    )
                },
                None => old(self).mailbox@,
            },
            final(self).zkey.0 == match mv.flag_of().castle() {
                Some(side) => {
                    let (rf, rt) = rook_castle_squares(us, side);
                    old(self).zkey.0 ^ zobrist::piece_key(PieceCode::of(us, Piece::Rook)@, rf@)
                        ^ zobrist::piece_key(PieceCode::of(us, Piece::Rook)@, rt@)
                },
                None => old(self).zkey.0,
            },
            final(self).white_king_square == old(self).white_king_square,
            final(self).black_king_square == old(self).black_king_square,
            final(self).same_flags(*old(self)),
            ghost_good@ ==> final(self).board_ok(),
    {
        if let Some(side) = mv.castle_type() {
            let (rook_from, rook_to) = Castling::get_rook_squares_from_castle(us, side);
            proof {
                PieceCode::lemma_of(us, Piece::Rook);
            }
            self.remove_piece(us, Piece::Rook, rook_from);
            let ghost m1 = *self;
            self.zkey.toggle_piece(PieceCode::new(us, Piece::Rook), rook_from);
            proof {
                if ghost_good@ {
                    lemma_board_ok_frame(m1, *self);
                }
            }
            self.place_piece(us, Piece::Rook, rook_to);
            let ghost m2 = *self;
            self.zkey.toggle_piece(PieceCode::new(us, Piece::Rook), rook_to);
            proof {
                if ghost_good@ {
                    lemma_board_ok_frame(m2, *self);
                }
            }
        }
    }

    /// Recomputes pins, pinners and checkers for the current board.
    pub fn refresh(&mut self, bbs: &Bitboards)
        requires
            bbs.wf(),
            old(self).white_king_square@ < 64,
            old(self).black_king_square@ < 64,
        ensures
            final(self).pieces == old(self).pieces,
            final(self).occupancy == old(self).occupancy,
            final(self).mailbox == old(self).mailbox,
            final(self).zkey == old(self).zkey,
            final(self).fullmove_counter == old(self).fullmove_counter,
            final(self).side_to_move == old(self).side_to_move,
            final(self).ep_square == old(self).ep_square,
            final(self).white_king_square == old(self).white_king_square,
            final(self).black_king_square == old(self).black_king_square,
            final(self).castling_rights == old(self).castling_rights,
            final(self).halfmove_clock == old(self).halfmove_clock,
            final(self).pinned_pieces[0].0 == final(self).pins_spec(Colour::White).0,
            final(self).pinners[1].0 == final(self).pins_spec(Colour::White).1,
            final(self).pinned_pieces[1].0 == final(self).pins_spec(Colour::Black).0,
            final(self).pinners[0].0 == final(self).pins_spec(Colour::Black).1,
            final(self).checkers.0 == final(self).attackers_spec(
                final(self).king_sq(final(self).side_to_move)@ as int,
                final(self).all_bb(),
            ),
    {
        let ghost s0 = *self;
        self.update_pins(Colour::White, bbs);
        let ghost s1 = *self;
        self.update_pins(Colour::Black, bbs);
        let ghost s2 = *self;
        self.update_checkers(bbs);
        proof {
            lemma_pins_frame(s0, s1);
            lemma_pins_frame(s0, s2);
            lemma_pins_frame(s0, *self);
        }
    }

    /// Saves the restorable fields, unhashes the old en passant file, counts the clocks and
    /// updates the castling rights; returns the moving piece.
    fn make_prologue(&mut self, mv: Move, state: &mut StateInfo) -> (r: Piece)
        requires
            old(self).can_make(mv),
        ensures
            r == old(self).mailbox@[mv.from_index() as int].piece_of().unwrap(),
            final(state).zkey == old(self).zkey,
            final(state).ep_square == old(self).ep_square,
            final(state).castling_rights == old(self).castling_rights,
            final(state).halfmove_clock == old(self).halfmove_clock,
            final(state).fullmove_counter == old(self).fullmove_counter,
            final(self).pieces == old(self).pieces,
            final(self).occupancy == old(self).occupancy,
            final(self).mailbox == old(self).mailbox,
            final(self).side_to_move == old(self).side_to_move,
            final(self).white_king_square == old(self).white_king_square,
            final(self).black_king_square == old(self).black_king_square,
            final(self).ep_square == Square::NONE,
            final(self).halfmove_clock == old(self).halfmove_clock + 1,
            final(self).fullmove_counter == (if old(self).side_to_move == Colour::Black {
                old(self).fullmove_counter + 1
            } else {
                old(self).fullmove_counter as int
            }),
            final(self).castling_rights@ == (old(self).castling_rights@ as u8) & (castling_mask(
                mv.from_index() as int,
            ) as u8) & (castling_mask(mv.to_index() as int) as u8),
            final(self).zkey.0 == (old(self).zkey.0 ^ (if zobrist::ep_hashable_spec(
                old(self).mailbox@,
                old(self).ep_square@ as int,
                old(self).side_to_move,
            ) {
                zobrist::ep_key(file_of(old(self).ep_square@ as int) as nat)
            } else {
                0
            })) ^ zobrist::castling_key(old(self).castling_rights@) ^ zobrist::castling_key(
                final(self).castling_rights@,
            ),
    {
        state.zkey = self.zkey;
        state.ep_square = self.ep_square;
        state.castling_rights = self.castling_rights;
        state.halfmove_clock = self.halfmove_clock;
        state.fullmove_counter = self.fullmove_counter;

        let us = self.side_to_move;

        // Unhash the old en passant file if it was hashed
        if ep_hashable(&self.mailbox, self.ep_square, us) {
            self.zkey.toggle_ep_file(self.ep_square);
        }
        self.ep_square = Square::NONE;

        self.halfmove_clock = self.halfmove_clock + 1;
        if us == Colour::Black {
            self.fullmove_counter = self.fullmove_counter + 1;
        }

        let from = mv.from();
        let to = mv.to();
        let piece = self.mailbox.piece_at(from).unwrap();

        // Update castling rights and the key
        self.zkey.toggle_castling(self.castling_rights);
        self.castling_rights.update(from, to);
        self.zkey.toggle_castling(self.castling_rights);
        proof {
            let z = old(self).zkey.0;
            crate::bitboard::lemma_bit_basics(z, 0, 0, 0);
        }
        piece
    }

    /// Moves the pieces: victim, mover and castling rook.
    #[verifier::rlimit(60)]
    fn make_board(&mut self, mv: Move, piece: Piece, ghost_good: Ghost<bool>) -> (r: Option<Piece>)
        requires
            board_can_make(old(self).mailbox@, mv),
            piece == old(self).mailbox@[mv.from_index() as int].piece_of().unwrap(),
            ghost_good@ ==> old(self).board_ok() && move_shape_ok(
                old(self).mailbox@,
                old(self).side_to_move,
                mv,
            ),
        ensures
            r == (if mv.flag_of().is_capture() {
                old(self).mailbox@[capture_square(mv)].piece_of()
            } else {
                None
            }),
            final(self).mailbox@ == board_after(old(self).mailbox@, mv, old(self).side_to_move),
            final(self).white_king_square == (if landing_piece(mv, piece) == Piece::King
                && old(self).side_to_move == Colour::White {
                Square::from_index(mv.to_index() as int)
            } else {
                old(self).white_king_square
            }),
            final(self).black_king_square == (if landing_piece(mv, piece) == Piece::King
                && old(self).side_to_move == Colour::Black {
                Square::from_index(mv.to_index() as int)
            } else {
                old(self).black_king_square
            }),
            final(self).same_flags(*old(self)),
            ghost_good@ ==> final(self).board_ok(),
            final(self).zkey.0 == pieces_key(old(self).zkey.0, old(self).mailbox@, mv, old(self).side_to_move),
    {
        let ghost p0 = *self;
        proof {
            reveal(move_shape_ok);
        }
        let us = self.side_to_move;
        let them = us.opposite();
        let from = mv.from();
        let to = mv.to();
        let to_piece = match mv.promotion_piece() {
            Some(p) => p,
            None => piece,
        };
        proof {
            PieceCode::lemma_determined(p0.mailbox@[from@ as int]);
        }
        let captured = self.capture_step(mv, them, ghost_good);
        let ghost p_cap = *self;
        proof {
            if ghost_good@ {
                PieceCode::lemma_of(us, piece);
                assert(p_cap.mailbox@[from@ as int] == PieceCode::of(us, piece));
                assert(p_cap.mailbox@[to@ as int] == PieceCode::EMPTY);
            }
        }
        self.shift_step(us, piece, to_piece, from, to, ghost_good);
        let ghost p_moved = *self;
        proof {
            if ghost_good@ && mv.flag_of().castle().is_some() {
                let (rf, rt) = rook_castle_squares(us, mv.flag_of().castle().unwrap());
                Square::lemma_from_index_view(rf);
                Square::lemma_from_index_view(rt);
                PieceCode::lemma_of(us, Piece::Rook);
                assert(p_moved.mailbox@[rf@ as int] == PieceCode::of(us, Piece::Rook));
                assert(p_moved.mailbox@[rt@ as int] == PieceCode::EMPTY);
            }
            Square::lemma_from_index_view(to);
            assert(to == Square::from_index(mv.to_index() as int));
        }
        self.castle_step(mv, us, ghost_good);
        proof {
            reveal(pieces_key);
            reveal(board_after);
        }
        captured
    }

    /// Plays `mv` on the board, the key, the rights and the clocks; pins and checkers are left
    /// for `refresh`.
    #[verifier::spinoff_prover]
    fn make_core(&mut self, mv: Move, state: &mut StateInfo)
        requires
            old(self).can_make(mv),
        ensures
            Position::made_rel(*old(self), mv, *final(self), *final(state)),
    {
        let ghost p0 = *self;
        let ghost good = p0.board_ok() && p0.kings_ok() && p0.move_ok(mv);
        let us = self.side_to_move;
        let them = us.opposite();
        let from = mv.from();
        let to = mv.to();

        let piece = self.make_prologue(mv, state);
        proof {
            lemma_board_ok_frame(p0, *self);
        }
        let ghost p1 = *self;
        let captured = self.make_board(mv, piece, Ghost(good));
        let ghost p_b = *self;
        state.captured_piece = captured;
        if mv.is_capture() {
            self.halfmove_clock = 0;
        }

        // A pawn move resets the halfmove clock; a double push sets the en passant square
        if piece == Piece::Pawn {
            self.halfmove_clock = 0;
            if mv.is_double_push() {
                proof {
                    lemma_u8_avg(from@ as u8, to@ as u8);
                }
                let ep_square = Square::new((from.u8() + to.u8()) >> 1);
                // Hash it only when an enemy pawn could take en passant
                if ep_hashable(&self.mailbox, ep_square, them) {
                    self.zkey.toggle_ep_file(ep_square);
                }
                self.ep_square = ep_square;
            }
        }

        self.side_to_move = them;
        self.zkey.toggle_side();
        proof {
            lemma_board_ok_frame(p_b, *self);
            if good {
                lemma_make_kings(p0, mv, *self);
            }
            reveal(Position::zkey_after);
        }
    }

    /// Plays `mv` for the side to move, saving in `state` what `undo_move` needs.
    pub fn make_move(&mut self, mv: Move, state: &mut StateInfo, bbs: &Bitboards)
        requires
            old(self).can_make(mv),
            bbs.wf(),
        ensures
            Position::make_rel(*old(self), mv, *final(self), *final(state)),
    {
        let ghost p0 = *self;
        self.make_core(mv, state);
        let ghost p2 = *self;
        proof {
            Move::lemma_indices(mv);
            Square::lemma_from_index(mv.to_index() as int);
        }
        self.refresh(bbs);
        proof {
            lemma_board_ok_frame(p2, *self);
            lemma_kings_ok_frame(p2, *self);
        }
    }
}


/// The capture square is a board square when an en passant capture lands on the sixth or
/// third rank.
proof fn lemma_capture_square(mv: Move)
    requires
        mv.flag_of() == MoveFlag::EpCapture ==> (rank_of(mv.to_index() as int) == 5 || rank_of(
            mv.to_index() as int,
        ) == 2),
    ensures
        0 <= capture_square(mv) < 64,
{
    Move::lemma_indices(mv);
}

/// The king square of `c` after `us` takes back `mv` on board `b` (the board after the move),
/// putting `captured` back: a king moved back to its source, or a captured king put back.
pub open spec fn king_after_undo(
    k: Square,
    c: Colour,
    b: Seq<PieceCode>,
    mv: Move,
    us: Colour,
    captured: Option<Piece>,
) -> Square {
    let f = mv.flag_of();
    let back = if f.is_promotion() {
        Piece::Pawn
    } else {
        b[mv.to_index() as int].piece_of().unwrap()
    };
    let k1 = if back == Piece::King && us == c {
        Square::from_index(mv.from_index() as int)
    } else {
        k
    };
    if f.is_capture() && captured == Some(Piece::King) && us.other() == c {
        Square::from_index(capture_square(mv))
    } else {
        k1
    }
}

/// Board `b` is what `us` playing `mv` made of the board that `board_before` rebuilds, with a
/// move whose shape fits that board.
pub open spec fn undo_fits(b: Seq<PieceCode>, us: Colour, mv: Move, captured: Option<Piece>) -> bool {
    let b0 = board_before(b, mv, us, captured);
    &&& move_shape_ok(b0, us, mv)
    &&& board_after(b0, mv, us) == b
}

/// What stands on the squares a take-back touches, on a board that a fitting move made.
proof fn lemma_undo_fits(b: Seq<PieceCode>, us: Colour, mv: Move, captured: Option<Piece>)
    requires
        b.len() == 64,
        mv.flag_of() == MoveFlag::EpCapture ==> (rank_of(mv.to_index() as int) == 5 || rank_of(
            mv.to_index() as int,
        ) == 2),
        undo_fits(b, us, mv, captured),
    ensures
        ({
            let from = mv.from_index() as int;
            let to = mv.to_index() as int;
            let f = mv.flag_of();
            let b0 = board_before(b, mv, us, captured);
            let piece0 = b0[from].piece_of().unwrap();
            let back = if f.is_promotion() {
                Piece::Pawn
            } else {
                b[to].piece_of().unwrap()
            };
            &&& b[to] == PieceCode::of(us, landing_piece(mv, piece0))
            &&& b[to].piece_of().unwrap() == landing_piece(mv, piece0)
            &&& back == piece0
            &&& from != to
            &&& b[from] == PieceCode::EMPTY
            &&& f.is_capture() ==> (capture_square(mv) == to || (b[capture_square(mv)]
                == PieceCode::EMPTY && capture_square(mv) != from))
            &&& f.castle().is_some() ==> ({
                let (rf, rt) = rook_castle_squares(us, f.castle().unwrap());
                &&& !f.is_capture()
                &&& b[rt@ as int] == PieceCode::of(us, Piece::Rook)
                &&& b[rf@ as int] == PieceCode::EMPTY
                &&& rf@ != from && rf@ != to && rt@ != from && rt@ != to
                &&& rf@ < 64 && rt@ < 64
            })
        }),
{
    reveal(move_shape_ok);
    let from = mv.from_index() as int;
    let to = mv.to_index() as int;
    let f = mv.flag_of();
    let b0 = board_before(b, mv, us, captured);
    reveal(board_before);
    lemma_capture_square(mv);
    Move::lemma_indices(mv);
    match f.castle() {
        Some(side) => {
            let (rf, rt) = rook_castle_squares(us, side);
            Square::lemma_from_index_view(rf);
            Square::lemma_from_index_view(rt);
        },
        None => {},
    }
    assert(b0.len() == 64);
    let piece0 = b0[from].piece_of().unwrap();
    Move::lemma_indices(mv);
    MoveFlag::lemma_view(f);
    PieceCode::lemma_determined(b0[from]);
    PieceCode::lemma_of(us, piece0);
    PieceCode::lemma_of(us, landing_piece(mv, piece0));
    PieceCode::lemma_of(us, Piece::Rook);
    lemma_board_after_at(b0, mv, us, to);
    lemma_board_after_at(b0, mv, us, from);
    if f.is_capture() {
        PieceCode::lemma_determined(b0[capture_square(mv)]);
        lemma_board_after_at(b0, mv, us, capture_square(mv));
    }
    match f.castle() {
        Some(side) => {
            let (rf, rt) = rook_castle_squares(us, side);
            Square::lemma_from_index_view(rf);
            Square::lemma_from_index_view(rt);
            crate::bitboard::lemma_bit_basics(0, 0, 0, 0);
            lemma_board_after_at(b0, mv, us, rf@ as int);
            lemma_board_after_at(b0, mv, us, rt@ as int);
        },
        None => {},
    }
}

impl Position {
    /// Takes back the piece moves of `mv` played by `us`, putting `captured` back.
    #[verifier::spinoff_prover]
    fn undo_board(&mut self, mv: Move, us: Colour, captured: Option<Piece>, ghost_good: Ghost<bool>)
        requires
            old(self).mailbox@.len() == 64,
            old(self).mailbox@[mv.to_index() as int] != PieceCode::EMPTY,
            mv.flag_of().is_capture() ==> captured.is_some(),
            mv.flag_of() == MoveFlag::EpCapture ==> (rank_of(mv.to_index() as int) == 5 || rank_of(
                mv.to_index() as int,
            ) == 2),
            ghost_good@ ==> old(self).board_ok() && undo_fits(old(self).mailbox@, us, mv, captured),
        ensures
            final(self).mailbox@ == board_before(old(self).mailbox@, mv, us, captured),
            final(self).white_king_square == king_after_undo(
                old(self).white_king_square,
                Colour::White,
                old(self).mailbox@,
                mv,
                us,
                captured,
            ),
            final(self).black_king_square == king_after_undo(
                old(self).black_king_square,
                Colour::Black,
                old(self).mailbox@,
                mv,
                us,
                captured,
            ),
            final(self).same_state(*old(self)),
            ghost_good@ ==> final(self).board_ok(),
    {
        let ghost b = self.mailbox@;
        let ghost p0 = *self;
        proof {
            Move::lemma_indices(mv);
            if ghost_good@ {
                lemma_undo_fits(b, us, mv, captured);
            }
        }
        let them = us.opposite();
        let from = mv.from();
        let to = mv.to();
        let mut piece = self.mailbox.piece_at(to).unwrap();
        proof {
            PieceCode::lemma_determined(b[to@ as int]);
        }
        self.remove_piece(us, piece, to);
        if mv.is_promotion() {
            piece = Piece::Pawn;
        }
        self.place_piece(us, piece, from);
        let ghost p1 = *self;
        let ghost k1w = self.white_king_square;
        let ghost k1b = self.black_king_square;
        if mv.is_capture() {
            let capture_square = if mv.is_ep_capture() {
                mv.get_ep_pawn_square()
            } else {
                to
            };
            proof {
                lemma_capture_square(mv);
                Square::lemma_from_index_view(capture_square);
                if ghost_good@ {
                    assert(p1.mailbox@[capture_square@ as int] == PieceCode::EMPTY);
                }
            }
            self.place_piece(them, captured.unwrap(), capture_square);
        }
        let ghost p2 = *self;
        if mv.is_castle() {
            let (rook_from, rook_to) = Castling::get_rook_squares_from_castle(
                us,
                mv.castle_type().unwrap(),
            );
            proof {
                Square::lemma_from_index_view(rook_from);
                Square::lemma_from_index_view(rook_to);
                PieceCode::lemma_of(us, Piece::Rook);
            }
            self.remove_piece(us, Piece::Rook, rook_to);
            self.place_piece(us, Piece::Rook, rook_from);
        }
        proof {
            reveal(board_before);
            Square::lemma_from_index_view(from);
            Square::lemma_from_index_view(to);
        }
    }
}

impl Position {
    /// What `undo_move` needs so as not to panic: a piece on the destination square, a saved
    /// victim for a capture, en passant landing on the sixth or third rank, and both kings on
    /// the board.
    pub open spec fn can_undo(self, mv: Move, st: StateInfo) -> bool {
        let f = mv.flag_of();
        &&& self.mailbox@[mv.to_index() as int] != PieceCode::EMPTY
        &&& f.is_capture() ==> st.captured_piece.is_some()
        &&& f == MoveFlag::EpCapture ==> (rank_of(mv.to_index() as int) == 5 || rank_of(
            mv.to_index() as int,
        ) == 2)
        &&& self.white_king_square@ < 64
        &&& self.black_king_square@ < 64
    }

    /// How `undo_move` takes back `mv` from `p1` with the saved state `st`, giving `p2`: the
    /// board rebuilt, the saved fields restored, pins and checkers recomputed.
    pub open spec fn undo_rel(p1: Position, mv: Move, st: StateInfo, p2: Position) -> bool {
        &&& Position::unmade_rel(p1, mv, st, p2)
        &&& p2.pins_ok()
    }

    /// How the board, the saved fields and the king squares come back.
    pub open spec fn unmade_rel(p1: Position, mv: Move, st: StateInfo, p2: Position) -> bool {
        let us = p1.side_to_move.other();
        &&& p2.mailbox@ == board_before(p1.mailbox@, mv, us, st.captured_piece)
        &&& p2.side_to_move == us
        &&& p2.halfmove_clock == st.halfmove_clock
        &&& p2.fullmove_counter == st.fullmove_counter
        &&& p2.castling_rights == st.castling_rights
        &&& p2.ep_square == st.ep_square
        &&& p2.zkey == st.zkey
        &&& p2.white_king_square == king_after_undo(
            p1.white_king_square,
            Colour::White,
            p1.mailbox@,
            mv,
            us,
            st.captured_piece,
        )
        &&& p2.black_king_square == king_after_undo(
            p1.black_king_square,
            Colour::Black,
            p1.mailbox@,
            mv,
            us,
            st.captured_piece,
        )
        &&& p1.board_ok() && undo_fits(p1.mailbox@, us, mv, st.captured_piece) ==> p2.board_ok()
    }

    /// Takes back `mv` on the board and restores the saved fields; pins and checkers are left
    /// for `refresh`.
    fn undo_core(&mut self, mv: Move, prev: &StateInfo)
        requires
            old(self).can_undo(mv, *prev),
        ensures
            Position::unmade_rel(*old(self), mv, *prev, *final(self)),
    {
        let ghost p0 = *self;
        let ghost good = p0.board_ok() && undo_fits(
            p0.mailbox@,
            p0.side_to_move.other(),
            mv,
            prev.captured_piece,
        );
        self.side_to_move = self.side_to_move.opposite();
        self.halfmove_clock = prev.halfmove_clock;
        self.fullmove_counter = prev.fullmove_counter;
        self.castling_rights = prev.castling_rights;
        self.ep_square = prev.ep_square;
        proof {
            lemma_board_ok_frame(p0, *self);
        }
        let colour = self.side_to_move;
        self.undo_board(mv, colour, prev.captured_piece, Ghost(good));
        let ghost p1 = *self;
        // The key is restored last, so that moving pieces back cannot disturb it
        self.zkey = prev.zkey;
        proof {
            lemma_board_ok_frame(p1, *self);
        }
    }

    /// Takes back `mv`, restoring what `make_move` saved in `prev`.
    pub fn undo_move(&mut self, mv: Move, prev: &StateInfo, bbs: &Bitboards)
        requires
            old(self).can_undo(mv, *prev),
            bbs.wf(),
        ensures
            Position::undo_rel(*old(self), mv, *prev, *final(self)),
    {
        let ghost p0 = *self;
        self.undo_core(mv, prev);
        let ghost p1 = *self;
        proof {
            Move::lemma_indices(mv);
            lemma_capture_square(mv);
            Square::lemma_from_index(mv.from_index() as int);
            Square::lemma_from_index(capture_square(mv));
        }
        self.refresh(bbs);
        proof {
            lemma_board_ok_frame(p1, *self);
        }
    }

    /// How `make_null_move` passes the turn from `p0` to `p1`, saving into `s0` to give `s1`.
    pub open spec fn null_rel(p0: Position, s0: StateInfo, p1: Position, s1: StateInfo) -> bool {
        &&& s1.zkey == p0.zkey
        &&& s1.ep_square == p0.ep_square
        &&& s1.halfmove_clock == p0.halfmove_clock
        &&& s1.fullmove_counter == p0.fullmove_counter
        &&& s1.castling_rights == s0.castling_rights
        &&& s1.captured_piece == s0.captured_piece
        &&& p1.side_to_move == p0.side_to_move.other()
        &&& p1.halfmove_clock == p0.halfmove_clock + 1
        &&& p1.fullmove_counter == (if p0.side_to_move == Colour::Black {
            p0.fullmove_counter + 1
        } else {
            p0.fullmove_counter as int
        })
        &&& p1.ep_square == Square::NONE
        &&& p1.zkey.0 == p0.zkey.0 ^ (if zobrist::ep_hashable_spec(
            p0.mailbox@,
            p0.ep_square@ as int,
            p0.side_to_move,
        ) {
            zobrist::ep_key(file_of(p0.ep_square@ as int) as nat)
        } else {
            0
        }) ^ zobrist::side_key()
        &&& p1.checkers.0 == p1.attackers_spec(p1.king_sq(p1.side_to_move)@ as int, p1.all_bb())
        &&& p1.pieces == p0.pieces
        &&& p1.occupancy == p0.occupancy
        &&& p1.mailbox == p0.mailbox
        &&& p1.pinned_pieces == p0.pinned_pieces
        &&& p1.pinners == p0.pinners
        &&& p1.castling_rights == p0.castling_rights
        &&& p1.white_king_square == p0.white_king_square
        &&& p1.black_king_square == p0.black_king_square
    }

    /// The null move keeps the key whole: from a position whose key is its full key (see
    /// `zobrist::position_key`), the null move leads to a position whose key is its full key.
    pub proof fn lemma_null_move_key(p0: Position, s0: StateInfo, p1: Position, s1: StateInfo)
        requires
            Position::null_rel(p0, s0, p1, s1),
            p0.zkey.0 == zobrist::position_key(
                p0.mailbox@,
                p0.side_to_move,
                p0.castling_rights@,
                p0.ep_square@ as int,
            ),
        ensures
            p1.zkey.0 == zobrist::position_key(
                p1.mailbox@,
                p1.side_to_move,
                p1.castling_rights@,
                p1.ep_square@ as int,
            ),
    {
        let b = zobrist::board_key(p0.mailbox@, 64);
        let c = zobrist::castling_key(p0.castling_rights@);
        let e = if zobrist::ep_hashable_spec(p0.mailbox@, p0.ep_square@ as int, p0.side_to_move) {
            zobrist::ep_key(file_of(p0.ep_square@ as int) as nat)
        } else {
            0
        };
        assert(p1.ep_square@ == 64);
        assert(!zobrist::ep_hashable_spec(p1.mailbox@, p1.ep_square@ as int, p1.side_to_move));
        lemma_xor_swap(b, c, e, zobrist::side_key());
    }

    /// How `undo_null_move` restores `p2` from `p1` with the state `st` saved by the null move.
    pub open spec fn null_undo_rel(p1: Position, st: StateInfo, p2: Position) -> bool {
        &&& p2.zkey == st.zkey
        &&& p2.halfmove_clock == st.halfmove_clock
        &&& p2.fullmove_counter == st.fullmove_counter
        &&& p2.ep_square == st.ep_square
        &&& p2.side_to_move == p1.side_to_move.other()
        &&& p2.checkers.0 == p2.attackers_spec(p2.king_sq(p2.side_to_move)@ as int, p2.all_bb())
        &&& p2.pieces == p1.pieces
        &&& p2.occupancy == p1.occupancy
        &&& p2.mailbox == p1.mailbox
        &&& p2.pinned_pieces == p1.pinned_pieces
        &&& p2.pinners == p1.pinners
        &&& p2.castling_rights == p1.castling_rights
        &&& p2.white_king_square == p1.white_king_square
        &&& p2.black_king_square == p1.black_king_square
    }

    /// Passes the turn without moving a piece, saving in `state` what `undo_null_move` needs.
    pub fn make_null_move(&mut self, state: &mut StateInfo, bbs: &Bitboards)
        requires
            old(self).checkers.0 == 0,
            old(self).halfmove_clock < 255,
            old(self).fullmove_counter < 65535,
            old(self).white_king_square@ < 64,
            old(self).black_king_square@ < 64,
            bbs.wf(),
        ensures
            Position::null_rel(*old(self), *old(state), *final(self), *final(state)),
    {
        state.zkey = self.zkey;
        state.ep_square = self.ep_square;
        state.halfmove_clock = self.halfmove_clock;
        state.fullmove_counter = self.fullmove_counter;

        self.halfmove_clock = self.halfmove_clock + 1;
        if self.side_to_move == Colour::Black {
            self.fullmove_counter = self.fullmove_counter + 1;
        }

        // Unhash the old en passant file if it was hashed
        if ep_hashable(&self.mailbox, self.ep_square, self.side_to_move) {
            self.zkey.toggle_ep_file(self.ep_square);
        }
        self.ep_square = Square::NONE;

        self.side_to_move = self.side_to_move.opposite();
        self.zkey.toggle_side();
        proof {
            let z = old(self).zkey.0;
            crate::bitboard::lemma_bit_basics(z, 0, 0, 0);
        }
        let ghost q = *self;
        self.update_checkers(bbs);
        proof {
            lemma_pins_frame(q, *self);
        }
    }

    /// Takes back a null move, restoring what `make_null_move` saved in `prev`.
    pub fn undo_null_move(&mut self, prev: &StateInfo, bbs: &Bitboards)
        requires
            old(self).white_king_square@ < 64,
            old(self).black_king_square@ < 64,
            bbs.wf(),
        ensures
            Position::null_undo_rel(*old(self), *prev, *final(self)),
    {
        self.zkey = prev.zkey;
        self.halfmove_clock = prev.halfmove_clock;
        self.fullmove_counter = prev.fullmove_counter;
        self.ep_square = prev.ep_square;
        self.side_to_move = self.side_to_move.opposite();
        let ghost q = *self;
        self.update_checkers(bbs);
        proof {
            lemma_pins_frame(q, *self);
        }
    }
}

/// The victim a move takes on board `b`, if it is a capture.
pub open spec fn victim(b: Seq<PieceCode>, mv: Move) -> Option<Piece> {
    if mv.flag_of().is_capture() {
        b[capture_square(mv)].piece_of()
    } else {
        None
    }
}

/// Rebuilding the board before a move from the board after it gives back the board the move
/// was played on.
proof fn lemma_before_after(b0: Seq<PieceCode>, mv: Move, us: Colour)
    requires
        board_can_make(b0, mv),
        move_shape_ok(b0, us, mv),
    ensures
        board_before(board_after(b0, mv, us), mv, us, victim(b0, mv)) == b0,
{
    reveal(move_shape_ok);
    reveal(board_before);
    let from = mv.from_index() as int;
    let to = mv.to_index() as int;
    let f = mv.flag_of();
    let b1 = board_after(b0, mv, us);
    let piece0 = b0[from].piece_of().unwrap();
    Move::lemma_indices(mv);
    lemma_capture_square(mv);
    MoveFlag::lemma_view(f);
    PieceCode::lemma_determined(b0[from]);
    PieceCode::lemma_of(us, piece0);
    PieceCode::lemma_of(us, landing_piece(mv, piece0));
    PieceCode::lemma_of(us, Piece::Rook);
    PieceCode::lemma_of(us, Piece::Pawn);
    lemma_board_after_at(b0, mv, us, to);
    if f.is_capture() {
        PieceCode::lemma_determined(b0[capture_square(mv)]);
    }
    match f.castle() {
        Some(side) => {
            let (rf, rt) = rook_castle_squares(us, side);
            Square::lemma_from_index_view(rf);
            Square::lemma_from_index_view(rt);
            crate::bitboard::lemma_bit_basics(0, 0, 0, 0);
        },
        None => {},
    }
    let bb = board_before(b1, mv, us, victim(b0, mv));
    assert(bb.len() == 64);
    assert forall|s: int| 0 <= s < 64 implies #[trigger] bb[s] == b0[s] by {
        lemma_board_after_at(b0, mv, us, s);
    }
    assert(bb =~= b0);
}

/// Positions with consistent boards and the same mailbox have the same bitboards.
proof fn lemma_same_board(a: Position, b: Position)
    requires
        a.board_ok(),
        b.board_ok(),
        a.mailbox@ == b.mailbox@,
    ensures
        a.pieces == b.pieces,
        a.occupancy == b.occupancy,
        a.mailbox == b.mailbox,
{
    reveal(Position::board_ok);
    assert forall|c: Colour, p: Piece| #[trigger] a.piece_bb(c, p) == b.piece_bb(c, p) by {
        assert forall|s: int| 0 <= s < 64 implies (bit_set(a.piece_bb(c, p), s) <==> bit_set(
            b.piece_bb(c, p),
            s,
        )) by {
            assert(bit_set(a.piece_bb(c, p), s) <==> a.mailbox@[s] == PieceCode::of(c, p));
            assert(bit_set(b.piece_bb(c, p), s) <==> b.mailbox@[s] == PieceCode::of(c, p));
        }
        lemma_bits_ext(a.piece_bb(c, p), b.piece_bb(c, p));
    }
    assert forall|c: Colour| #[trigger] a.occ_bb(c) == b.occ_bb(c) by {
        assert forall|s: int| 0 <= s < 64 implies (bit_set(a.occ_bb(c), s) <==> bit_set(
            b.occ_bb(c),
            s,
        )) by {
            assert(bit_set(a.occ_bb(c), s) <==> a.mailbox@[s].colour_of() == Some(c));
            assert(bit_set(b.occ_bb(c), s) <==> b.mailbox@[s].colour_of() == Some(c));
        }
        lemma_bits_ext(a.occ_bb(c), b.occ_bb(c));
    }
    assert forall|s: int| 0 <= s < 64 implies (bit_set(a.all_bb(), s) <==> bit_set(
        b.all_bb(),
        s,
    )) by {
        assert(bit_set(a.all_bb(), s) <==> a.mailbox@[s] != PieceCode::EMPTY);
        assert(bit_set(b.all_bb(), s) <==> b.mailbox@[s] != PieceCode::EMPTY);
    }
    lemma_bits_ext(a.all_bb(), b.all_bb());
    assert forall|i: int| 0 <= i < 2 implies #[trigger] a.pieces[i] =~= b.pieces[i] by {
        let c = if i == 0 {
            Colour::White
        } else {
            Colour::Black
        };
        assert forall|j: int| 0 <= j < 6 implies a.pieces[i][j] == b.pieces[i][j] by {
            let p = Piece::from_index(j);
            assert(p@ == j);
            assert(a.piece_bb(c, p) == b.piece_bb(c, p));
        }
    }
    assert(a.pieces =~= b.pieces);
    assert(a.occ_bb(Colour::White) == b.occ_bb(Colour::White));
    assert(a.occ_bb(Colour::Black) == b.occ_bb(Colour::Black));
    assert(a.occupancy =~= b.occupancy);
    assert(a.mailbox.0 =~= b.mailbox.0);
}

/// A move leads to one position only: from a consistent position and for a move whose shape
/// fits its board, any two positions that `make_move` could give are the same.
pub proof fn lemma_make_unique(p0: Position, mv: Move, p1: Position, s1: StateInfo, q1: Position, t1: StateInfo)
    requires
        p0.board_ok(),
        p0.kings_ok(),
        p0.move_ok(mv),
        Position::make_rel(p0, mv, p1, s1),
        Position::make_rel(p0, mv, q1, t1),
    ensures
        p1 == q1,
{
    lemma_same_board(p1, q1);
    reveal(Position::attackers_spec);
    reveal(Position::pins_spec);
    assert(p1.snipers_spec(Colour::White) == q1.snipers_spec(Colour::White));
    assert(p1.snipers_spec(Colour::Black) == q1.snipers_spec(Colour::Black));
    assert(p1.white_king_square == q1.white_king_square);
    assert(p1.black_king_square == q1.black_king_square);
    assert(p1.king_sq(Colour::White) == q1.king_sq(Colour::White));
    assert(p1.king_sq(Colour::Black) == q1.king_sq(Colour::Black));
    assert(p1.all_bb() == q1.all_bb());
    assert(p1.occ_bb(Colour::White) == q1.occ_bb(Colour::White));
    assert(p1.occ_bb(Colour::Black) == q1.occ_bb(Colour::Black));
    assert(p1.pins_spec(Colour::White) == q1.pins_spec(Colour::White));
    assert(p1.pins_spec(Colour::Black) == q1.pins_spec(Colour::Black));
    assert(p1.pinned_pieces[0] == q1.pinned_pieces[0]);
    assert(p1.pinned_pieces[1] == q1.pinned_pieces[1]);
    assert(p1.pinners[0] == q1.pinners[0]);
    assert(p1.pinners[1] == q1.pinners[1]);
    assert(p1.pinned_pieces =~= q1.pinned_pieces);
    assert(p1.pinners =~= q1.pinners);
    assert(p1.attackers_spec(p1.king_sq(p1.side_to_move)@ as int, p1.all_bb()) == q1.attackers_spec(
        q1.king_sq(q1.side_to_move)@ as int,
        q1.all_bb(),
    ));
    assert(p1.checkers == q1.checkers);
    assert(p1.zkey == q1.zkey);
    assert(p1.castling_rights == q1.castling_rights);
}

/// Adding a square that a set does not hold, then removing it, gives back the set.
proof fn lemma_add_then_remove(x: u64, k: u64)
    requires
        k < 64,
        !bit_set(x, k as int),
    ensures
        (x | (1u64 << k)) & !(1u64 << k) == x,
{
    let y = (x | (1u64 << k)) & !(1u64 << k);
    assert forall|s: int| 0 <= s < 64 implies (bit_set(y, s) <==> bit_set(x, s)) by {
        lemma_bit_update(x, s as u64, k);
        lemma_bit_update(x | (1u64 << k), s as u64, k);
    }
    lemma_bits_ext(y, x);
}

/// Placing a piece on an empty square of a consistent board and taking it off again gives back
/// every bitboard, every occupancy and the mailbox.
pub proof fn lemma_place_remove(p0: Position, p1: Position, p2: Position, colour: Colour, piece: Piece, square: Square)
    requires
        p0.board_ok(),
        square@ < 64,
        p0.mailbox@[square@ as int] == PieceCode::EMPTY,
        Position::placed(p0, p1, colour, piece, square),
        Position::removed(p1, p2, colour, piece, square),
    ensures
        forall|c: Colour, p: Piece| #[trigger] p2.piece_bb(c, p) == p0.piece_bb(c, p),
        forall|c: Colour| #[trigger] p2.occ_bb(c) == p0.occ_bb(c),
        p2.all_bb() == p0.all_bb(),
        p2.mailbox@ == p0.mailbox@,
{
    let k = square@ as u64;
    reveal(Position::board_ok);
    assert forall|c: Colour, p: Piece| #[trigger] p2.piece_bb(c, p) == p0.piece_bb(c, p) by {
        assert(PieceCode::of(c, p) != PieceCode::EMPTY);
        assert(!bit_set(p0.piece_bb(c, p), k as int));
        if c == colour && p == piece {
            lemma_add_then_remove(p0.piece_bb(c, p), k);
        }
    }
    assert forall|c: Colour| #[trigger] p2.occ_bb(c) == p0.occ_bb(c) by {
        assert(!bit_set(p0.occ_bb(c), k as int));
        if c == colour {
            lemma_add_then_remove(p0.occ_bb(c), k);
        }
    }
    assert(!bit_set(p0.all_bb(), k as int));
    lemma_add_then_remove(p0.all_bb(), k);
    assert(p2.mailbox@ =~= p0.mailbox@);
}

/// Taking back a move restores the position it was played from: for a consistent position and
/// a move whose shape fits its board, `undo_move` after `make_move` gives back every field.
pub proof fn lemma_make_undo(p0: Position, mv: Move, p1: Position, st: StateInfo, p2: Position)
    requires
        p0.wf(),
        p0.move_ok(mv),
        Position::make_rel(p0, mv, p1, st),
        Position::undo_rel(p1, mv, st, p2),
    ensures
        p2 == p0,
{
    let us = p0.side_to_move;
    let b0 = p0.mailbox@;
    let from = mv.from_index() as int;
    let to = mv.to_index() as int;
    let f = mv.flag_of();
    let piece0 = b0[from].piece_of().unwrap();
    Move::lemma_indices(mv);
    lemma_capture_square(mv);
    lemma_before_after(b0, mv, us);
    assert(st.captured_piece == victim(b0, mv));
    assert(p1.side_to_move.other() == us);
    assert(undo_fits(p1.mailbox@, us, mv, st.captured_piece));
    assert(p2.board_ok());
    lemma_same_board(p0, p2);
    // King squares
    lemma_undo_fits(p1.mailbox@, us, mv, st.captured_piece);
    reveal(move_shape_ok);
    reveal(Position::kings_ok);
    PieceCode::lemma_determined(b0[from]);
    PieceCode::lemma_of(us, Piece::King);
    if f.is_capture() {
        PieceCode::lemma_determined(b0[capture_square(mv)]);
        PieceCode::lemma_of(us.other(), Piece::King);
    }
    Square::lemma_from_index(from);
    Square::lemma_from_index(to);
    Square::lemma_from_index_view(p0.white_king_square);
    Square::lemma_from_index_view(p0.black_king_square);
    if piece0 == Piece::King {
        assert(b0[from] == PieceCode::of(us, Piece::King));
        assert(p0.king_sq(us)@ == from);
    }
    assert(p2.white_king_square == p0.white_king_square);
    assert(p2.black_king_square == p0.black_king_square);
    // Pins and checkers
    lemma_pins_frame(p0, p2);
    assert(p2.pinned_pieces =~= p0.pinned_pieces);
    assert(p2.pinners =~= p0.pinners);
}

impl Position {
    /// Whether `mv` fits the position; see `Position::move_ok`.
    #[verifier::rlimit(60)]
    pub fn move_ok_check(&self, mv: Move) -> (r: bool)
        ensures
            r == self.move_ok(mv),
    {
        proof {
            reveal(move_shape_ok);
            Move::lemma_indices(mv);
        }
        let from = mv.from();
        let to = mv.to();
        let f = mv.flag();
        let b = &self.mailbox;
        let pc = b.piece_code_at(from);
        if pc.is_empty() {
            return false;
        }
        if self.halfmove_clock >= 255 || self.fullmove_counter >= 65535 || !self.white_king_square.is_ok()
            || !self.black_king_square.is_ok() {
            return false;
        }
        let is_ep = mv.is_ep_capture();
        if is_ep && to.rank() != 5 && to.rank() != 2 {
            return false;
        }
        proof {
            lemma_capture_square(mv);
        }
        let us = self.side_to_move;
        let them = us.opposite();
        let capture = mv.is_capture();
        if capture {
            let cs = if is_ep {
                mv.get_ep_pawn_square()
            } else {
                to
            };
            let victim = b.piece_code_at(cs);
            if victim.is_empty() {
                return false;
            }
            let victim_ok = match victim.colour() {
                Some(c) => c == them,
                None => false,
            };
            if !victim_ok || victim == PieceCode::new(them, Piece::King) {
                return false;
            }
        }
        let own = match pc.colour() {
            Some(c) => c == us,
            None => false,
        };
        if !own || from.u8() == to.u8() {
            return false;
        }
        if (!capture || is_ep) && !b.piece_code_at(to).is_empty() {
            return false;
        }
        let piece = pc.piece();
        let is_pawn = match piece {
            Some(Piece::Pawn) => true,
            _ => false,
        };
        if (is_ep || mv.is_promotion()) && !is_pawn {
            return false;
        }
        match mv.castle_type() {
            Some(side) => {
                let (rf, rt) = Castling::get_rook_squares_from_castle(us, side);
                let is_king = match piece {
                    Some(Piece::King) => true,
                    _ => false,
                };
                proof {
                    Square::lemma_from_index_view(rf);
                    Square::lemma_from_index_view(rt);
                    assert(rf@ < 64 && rt@ < 64);
                }
                is_king && b.piece_code_at(rf) == PieceCode::new(us, Piece::Rook) && b.piece_code_at(
                    rt,
                ).is_empty() && rf.u8() != from.u8() && rf.u8() != to.u8() && rt.u8() != from.u8()
                    && rt.u8() != to.u8()
            },
            None => true,
        }
    }
}

/// A move that fits a consistent position leaves a consistent position that can take it back.
pub proof fn lemma_made_ok(p0: Position, mv: Move, p1: Position, st: StateInfo)
    requires
        p0.wf(),
        p0.move_ok(mv),
        Position::make_rel(p0, mv, p1, st),
    ensures
        p1.wf(),
        p1.can_undo(mv, st),
{
    let b0 = p0.mailbox@;
    let us = p0.side_to_move;
    let to = mv.to_index() as int;
    Move::lemma_indices(mv);
    lemma_capture_square(mv);
    lemma_board_after_at(b0, mv, us, to);
    reveal(move_shape_ok);
    let piece = b0[mv.from_index() as int].piece_of().unwrap();
    PieceCode::lemma_of(us, landing_piece(mv, piece));
    PieceCode::lemma_of(us, Piece::Rook);
    if mv.flag_of().is_capture() {
        PieceCode::lemma_determined(b0[capture_square(mv)]);
    }
}

/// Passing the turn keeps a position consistent.
pub proof fn lemma_null_keeps_wf(p0: Position, s0: StateInfo, p1: Position, s1: StateInfo)
    requires
        p0.wf(),
        Position::null_rel(p0, s0, p1, s1),
    ensures
        p1.wf(),
{
    lemma_board_ok_frame(p0, p1);
    lemma_kings_ok_frame(p0, p1);
    reveal(Position::pins_spec);
}

/// Taking back a null move restores the position it was played from, when its checkers were
/// those of its board.
pub proof fn lemma_null_undo(p0: Position, s0: StateInfo, p1: Position, s1: StateInfo, p2: Position)
    requires
        p0.pins_ok(),
        Position::null_rel(p0, s0, p1, s1),
        Position::null_undo_rel(p1, s1, p2),
    ensures
        p2 == p0,
{
    lemma_pins_frame(p0, p2);
    assert(p2.checkers == p0.checkers);
}

/// The castling right a castle of `us` on `side` needs.
pub open spec fn castle_right(us: Colour, side: CastlingType) -> Castling {
    match (us, side) {
        (Colour::White, CastlingType::Kingside) => Castling::WHITE_OO,
        (Colour::White, CastlingType::Queenside) => Castling::WHITE_OOO,
        (Colour::Black, CastlingType::Kingside) => Castling::BLACK_OO,
        (Colour::Black, CastlingType::Queenside) => Castling::BLACK_OOO,
    }
}

impl Position {
    /// Whether the pawn of the side to move on `from` may make the move `mv` to `to`.
    pub open spec fn pawn_move_spec(self, mv: Move) -> bool {
        let us = self.side_to_move;
        let from = mv.from_index() as int;
        let to = mv.to_index() as int;
        let f = mv.flag_of();
        let to_bb = 1u64 << (to as u64);
        let opp = self.occ_bb(us.other());
        if f == MoveFlag::EpCapture {
            to == self.ep_square@
        } else if f.is_capture() {
            pawn_attacks_spec(1u64 << (from as u64), us) & to_bb & opp != 0
        } else if f.is_promotion() {
            to_bb & opp == 0
        } else if f == MoveFlag::DoublePush {
            ((1u64 << (((from + to) / 2) as u64)) | to_bb) & self.all_bb() == 0
        } else {
            to_bb & opp == 0 && to - from == (if us == Colour::White {
                8int
            } else {
                -8int
            })
        }
    }

    /// Whether the non-pawn `piece` of the side to move on `from` may make the move `mv`.
    pub open spec fn piece_move_spec(self, piece: Piece, mv: Move) -> bool {
        let us = self.side_to_move;
        let from = mv.from_index() as int;
        let to_bb = 1u64 << (mv.to_index() as u64);
        let all = self.all_bb();
        match piece {
            Piece::Knight => knight_attacks_spec(from) & to_bb != 0,
            Piece::Bishop => bishop_attacks_spec(from, all) & to_bb != 0,
            Piece::Rook => rook_attacks_spec(from, all) & to_bb != 0,
            Piece::Queen => (bishop_attacks_spec(from, all) | rook_attacks_spec(from, all)) & to_bb
                != 0,
            _ => match mv.flag_of().castle() {
                Some(side) => {
                    let right = castle_right(us, side);
                    &&& self.checkers.0 == 0
                    &&& (self.castling_rights@ as u8) & (right@ as u8) == (right@ as u8)
                    &&& self.all_bb() & castling_path(right@) == 0
                },
                None => to_bb & king_attacks_spec(from) != 0,
            },
        }
    }

    /// Whether `mv` is pseudo-legal here: a piece of the side to move on the source square, a
    /// destination not held by our own pieces, a capture flag that matches what stands there
    /// (pawns aside, for en passant), and a move the piece can make on this board; whether it
    /// leaves the king in check is not considered.
    pub open spec fn pseudo_legal_spec(self, mv: Move) -> bool {
        let us = self.side_to_move;
        let from = mv.from_index() as int;
        let to = mv.to_index() as int;
        let f = mv.flag_of();
        let own = self.occ_bb(us);
        let opp = self.occ_bb(us.other());
        let to_bb = 1u64 << (to as u64);
        let code = self.mailbox@[from];
        let piece = code.piece_of().unwrap();
        &&& code.piece_of().is_some()
        &&& own & (1u64 << (from as u64)) != 0
        &&& own & to_bb == 0
        &&& piece != Piece::Pawn ==> (f.is_capture() <==> to_bb & opp != 0)
        &&& if piece == Piece::Pawn {
            self.pawn_move_spec(mv)
        } else {
            self.piece_move_spec(piece, mv)
        }
    }

    /// Checks whether a move is pseudo-legal in the current position, for moves that bypass
    /// move generation (hash, killer and principal variation moves): see `pseudo_legal_spec`.
    pub fn is_pseudo_legal(&self, mv: Move, bbs: &Bitboards) -> (r: bool)
        requires
            bbs.wf(),
        ensures
            r == self.pseudo_legal_spec(mv),
    {
        let us = self.side_to_move;
        let them = us.opposite();
        let from = mv.from();
        let to = mv.to();

        let opp_occ = self.occupancy[them.idx()];
        let all_occ = self.occupancy[2];
        let own_occ = self.occupancy[us.idx()];

        // The moving piece must exist
        let piece = match self.mailbox.piece_at(from) {
            Some(p) => p,
            None => {
                return false;
            },
        };

        // It must be ours
        if (own_occ & from.bitboard()).is_empty() {
            return false;
        }

        // The destination cannot hold one of our pieces
        if !(own_occ & to.bitboard()).is_empty() {
            return false;
        }

        // A capture must land on an enemy and a non-capture must not; pawns are left to their
        // own rules, as en passant does not land on the victim
        if piece != Piece::Pawn {
            if mv.is_capture() && (to.bitboard() & opp_occ).is_empty() {
                return false;
            }
            if !mv.is_capture() && !(to.bitboard() & opp_occ).is_empty() {
                return false;
            }
        }

        match piece {
            Piece::Pawn => {
                if mv.is_ep_capture() {
                    proof {
                        Square::lemma_from_index_view(to);
                        Square::lemma_from_index_view(self.ep_square);
                    }
                    return to == self.ep_square;
                }
                if mv.is_capture() {
                    return !(bbs.pawn_attacks(from, us) & to.bitboard() & opp_occ).is_empty();
                }
                // A promotion that is not a capture
                if mv.is_promotion() {
                    return (to.bitboard() & opp_occ).is_empty();
                }
                if mv.is_double_push() {
                    proof {
                        lemma_u8_avg(from@ as u8, to@ as u8);
                    }
                    let middle = Square::new((to.u8() + from.u8()) >> 1);
                    return ((middle.bitboard() | to.bitboard()) & all_occ).is_empty();
                }
                // A single push
                let delta: i32 = to.u8() as i32 - from.u8() as i32;
                let expected_delta: i32 = if us == Colour::White {
                    8
                } else {
                    -8
                };
                (to.bitboard() & opp_occ).is_empty() && delta == expected_delta
            },
            Piece::Knight => !(bbs.knight_attacks(from) & to.bitboard()).is_empty(),
            Piece::Bishop => {
                let attack = bbs.bishop_attacks(from, all_occ);
                !(attack & to.bitboard()).is_empty()
            },
            Piece::Rook => {
                let attack = bbs.rook_attacks(from, all_occ);
                !(attack & to.bitboard()).is_empty()
            },
            Piece::Queen => {
                let attack = bbs.bishop_attacks(from, all_occ) | bbs.rook_attacks(from, all_occ);
                !(attack & to.bitboard()).is_empty()
            },
            Piece::King => {
                let in_check = !self.checkers.is_empty();
                match mv.castle_type() {
                    Some(castle_type) => {
                        if in_check {
                            return false;
                        }
                        let castling_flag = match (us, castle_type) {
                            (Colour::White, CastlingType::Kingside) => Castling::WHITE_OO,
                            (Colour::White, CastlingType::Queenside) => Castling::WHITE_OOO,
                            (Colour::Black, CastlingType::Kingside) => Castling::BLACK_OO,
                            (Colour::Black, CastlingType::Queenside) => Castling::BLACK_OOO,
                        };
                        self.can_castle(castling_flag) && !self.castling_impeded(castling_flag)
                    },
                    None => {
                        let mask = bbs.king_attacks(from);
                        !(to.bitboard() & mask).is_empty()
                    },
                }
            },
        }
    }
}

impl Position {
    /// Whether no enemy piece attacks a square the king crosses or lands on when castling from
    /// `from` to `to`: the squares from `to` up to, but not including, `from`.
    pub open spec fn castle_path_safe(self, from: int, to: int) -> bool {
        forall|s: int|
            (if to > from {
                from < s <= to
            } else {
                to <= s < from
            }) ==> #[trigger] self.attackers_spec(s, self.all_bb()) == 0
    }

    /// Whether a pseudo-legal `mv` leaves the king of the side to move safe: en passant must not
    /// open a line to the king, a castle must not cross or land on an attacked square, a king
    /// move must not land on an attacked square, and any other piece must be unpinned or move
    /// along the line of its pin.
    pub open spec fn legal_spec(self, mv: Move) -> bool {
        let us = self.side_to_move;
        let them = us.other();
        let from = mv.from_index() as int;
        let to = mv.to_index() as int;
        let f = mv.flag_of();
        let king = self.king_sq(us)@ as int;
        if f == MoveFlag::EpCapture {
            let cap = if us == Colour::White {
                to - 8
            } else {
                to + 8
            };
            let occ = (self.all_bb() ^ (1u64 << (from as u64)) ^ (1u64 << (cap as u64))) | (1u64
                << (to as u64));
            &&& bishop_attacks_spec(king, occ) & (self.piece_bb(them, Piece::Bishop)
                | self.piece_bb(them, Piece::Queen)) == 0
            &&& rook_attacks_spec(king, occ) & (self.piece_bb(them, Piece::Rook) | self.piece_bb(
                them,
                Piece::Queen,
            )) == 0
        } else if f.castle().is_some() && !self.castle_path_safe(from, to) {
            false
        } else if from == king {
            self.attackers_spec(to, self.all_bb() ^ (1u64 << (from as u64))) == 0
        } else {
            self.pinned_pieces[us@ as int].0 & (1u64 << (from as u64)) == 0 || line_spec(from, to)
                & (1u64 << (king as u64)) != 0
        }
    }

    /// Checks whether a pseudo-legal move is legal: see `legal_spec`. Only what the move does
    /// to the king's safety is checked, not whether the king is in check before it.
    pub fn is_legal(&self, mv: Move, bbs: &Bitboards) -> (r: bool)
        requires
            bbs.wf(),
            self.king_sq(self.side_to_move)@ < 64,
            mv.flag_of() == MoveFlag::EpCapture ==> 8 <= mv.to_index() < 56,
        ensures
            r == self.legal_spec(mv),
    {
        let us = self.side_to_move;
        let them = us.opposite();
        let from = mv.from();
        let to = mv.to();
        let king = self.king_square(us);

        // En passant must not leave the king in check
        if mv.is_ep_capture() {
            let ep_offset = if us == Colour::White {
                Direction::North
            } else {
                Direction::South
            };
            let ep_pawn_sq = Square::new((to.u8() as i8 - ep_offset.value()) as u8);
            let occ = (self.occupancy[2] ^ from.bitboard() ^ ep_pawn_sq.bitboard())
                | to.bitboard();
            return (bbs.bishop_attacks(king, occ) & self.bishop_sliders(them)).is_empty() && (
            bbs.rook_attacks(king, occ) & self.rook_sliders(them)).is_empty();
        }
        // Castling must not cross or land on an attacked square

        if mv.is_castle() {
            let step: i32 = if to.u8() > from.u8() {
                Direction::West.value() as i32
            } else {
                Direction::East.value() as i32
            };
            let mut sq: i32 = to.u8() as i32;
            let end: i32 = from.u8() as i32;
            while sq != end
                invariant
                    bbs.wf(),
                    to@ < 64,
                    from@ < 64,
                    to@ == mv.to_index(),
                    from@ == mv.from_index(),
                    mv.flag_of().castle().is_some(),
                    mv.flag_of() != MoveFlag::EpCapture,
                    end == from@,
                    step == (if to@ > from@ {
                        -1int
                    } else {
                        1int
                    }),
                    if to@ > from@ {
                        from@ <= sq <= to@
                    } else {
                        to@ <= sq <= from@
                    },
                    forall|s: int|
                        (if to@ > from@ {
                            sq < s <= to@
                        } else {
                            to@ <= s < sq
                        }) ==> #[trigger] self.attackers_spec(s, self.all_bb()) == 0,
                decreases (if to@ > from@ {
                    sq - from@
                } else {
                    from@ - sq
                }),
            {
                if self.attackers_to_exist(Square::new(sq as u8), self.occupancy[2], bbs) {
                    assert(self.attackers_spec(sq as int, self.all_bb()) != 0);
                    assert(!self.castle_path_safe(from@ as int, to@ as int));
                    return false;
                }
                sq = sq + step;
            }
        }
        // A king must not step onto an attacked square

        if from == king {
            proof {
                Square::lemma_from_index_view(from);
                Square::lemma_from_index_view(king);
            }
            return !self.attackers_to_exist(to, self.occupancy[2] ^ from.bitboard(), bbs);
        }
        proof {
            Square::lemma_from_index_view(from);
            Square::lemma_from_index_view(king);
        }
        // Any other piece must be unpinned or move along its pin
        (self.pinned_pieces(us) & from.bitboard()).is_empty() || !(bbs.line_bb(from, to)
            & king.bitboard()).is_empty()
    }
}

impl Position {
    /// Whether neither side can mate: no pawn, rook or queen, and at most one minor piece, or
    /// exactly two bishops standing on squares of the same colour (the lowest bishop square and
    /// the next one, when one side has both).
    pub open spec fn insufficient_spec(self) -> bool {
        let w = Colour::White;
        let b = Colour::Black;
        let heavy = self.piece_bb(w, Piece::Pawn) | self.piece_bb(b, Piece::Pawn) | self.piece_bb(
            w,
            Piece::Rook,
        ) | self.piece_bb(b, Piece::Rook) | self.piece_bb(w, Piece::Queen) | self.piece_bb(
            b,
            Piece::Queen,
        );
        let wb = popcount(self.piece_bb(w, Piece::Bishop));
        let bb = popcount(self.piece_bb(b, Piece::Bishop));
        let minors = popcount(self.piece_bb(w, Piece::Knight)) + popcount(
            self.piece_bb(b, Piece::Knight),
        ) + wb + bb;
        if heavy != 0 {
            false
        } else if minors < 2 {
            true
        } else if minors > 2 {
            false
        } else if wb == 1 && bb == 1 {
            types::square_colour(u64_trailing_zeros(self.piece_bb(w, Piece::Bishop)) as int)
                == types::square_colour(u64_trailing_zeros(self.piece_bb(b, Piece::Bishop)) as int)
        } else if wb == 2 || bb == 2 {
            let bs = if wb == 2 {
                self.piece_bb(w, Piece::Bishop)
            } else {
                self.piece_bb(b, Piece::Bishop)
            };
            types::square_colour(u64_trailing_zeros(bs) as int) == types::square_colour(
                u64_trailing_zeros(bs & ((bs - 1) as u64)) as int,
            )
        } else {
            false
        }
    }

    /// Whether the material left cannot mate: see `insufficient_spec`.
    pub fn insufficient_material(&self) -> (r: bool)
        ensures
            r == self.insufficient_spec(),
    {
        let white = self.pieces[Colour::White.idx()];
        let black = self.pieces[Colour::Black.idx()];

        // Any pawn, rook or queen is enough to continue
        if !(white[Piece::Pawn.idx()] | black[Piece::Pawn.idx()] | white[Piece::Rook.idx()]
            | black[Piece::Rook.idx()] | white[Piece::Queen.idx()]
            | black[Piece::Queen.idx()]).is_empty() {
            return false;
        }
        let white_knights = white[Piece::Knight.idx()].bit_count();
        let black_knights = black[Piece::Knight.idx()].bit_count();
        let white_bishops = white[Piece::Bishop.idx()].bit_count();
        let black_bishops = black[Piece::Bishop.idx()].bit_count();

        let white_minors = white_knights + white_bishops;
        let black_minors = black_knights + black_bishops;
        let minor_pieces = white_minors + black_minors;

        // Only two minor pieces need a closer look
        if minor_pieces < 2 {
            return true;
        }
        if minor_pieces > 2 {
            return false;
        }
        // One bishop each: insufficient when they share a square colour

        if white_bishops == 1 && black_bishops == 1 {
            let wb_square = white[Piece::Bishop.idx()].lsb();
            let bb_square = black[Piece::Bishop.idx()].lsb();
            return wb_square.colour() == bb_square.colour();
        }
        // Two bishops on one side: insufficient when they share a square colour

        if white_bishops == 2 || black_bishops == 2 {
            let mut bishops_bb = if white_bishops == 0 {
                black[Piece::Bishop.idx()]
            } else {
                white[Piece::Bishop.idx()]
            };
            let bishop1 = bishops_bb.pop_lsb();
            proof {
                crate::bitboard::lemma_popcount_clear_lowest(if white_bishops == 0 {
                    black[2].0
                } else {
                    white[2].0
                });
            }
            let bishop2 = bishops_bb.pop_lsb();
            return bishop1.colour() == bishop2.colour();
        }
        false
    }
}

/// The index of the en passant square a FEN field names: `NONE` for `-`, else the file letter
/// (counted from `a`, modulo 8) and the rank digit.
pub open spec fn fen_ep(f: Seq<u8>) -> int {
    if f == seq![45u8] {
        64
    } else {
        (f[1] - 49) * 8 + (f[0] - 97) % 8
    }
}

/// The piece placement field of a FEN string, read to its end.
pub open spec fn fen_scan(s: Seq<u8>) -> PlacementScan {
    scan(fields(s)[0], fields(s)[0].len() as int)
}

/// Whether `from_fen` can read `s` without panicking: six fields or more; a placement that
/// never goes below the first rank nor past file 255 and that places both kings; `w` or `b`;
/// `-` or castling letters; `-` or a square (a letter from `a` on and a rank digit `1` to `8`);
/// a halfmove clock that fits a `u8` and a move number that fits a `u16`.
pub open spec fn fen_ok(s: Seq<u8>) -> bool {
    let f = fields(s);
    &&& f.len() >= 6
    &&& fen_scan(s).ok
    &&& fen_scan(s).white_king@ < 64
    &&& fen_scan(s).black_king@ < 64
    &&& (f[1] == seq![119u8] || f[1] == seq![98u8])
    &&& castling_field_ok(f[2])
    &&& (f[3] == seq![45u8] || (f[3].len() >= 2 && f[3][0] >= 97 && 49 <= f[3][1] <= 56))
    &&& decimal_value(f[4]) is Some && decimal_value(f[4])->0 <= 255
    &&& decimal_value(f[5]) is Some && decimal_value(f[5])->0 <= 65535
}

impl Position {
    /// An empty position, white to move, with the pieces of the placement field `s[p0..p1]`.
    fn read_placement(bytes: &[u8], p0: usize, p1: usize) -> (r: Position)
        requires
            p0 < p1 <= bytes@.len(),
            scan(bytes@.subrange(p0 as int, p1 as int), p1 - p0).ok,
        ensures
            ({
                let sc = scan(bytes@.subrange(p0 as int, p1 as int), p1 - p0);
                &&& r.mailbox@ == sc.board
                &&& r.white_king_square == sc.white_king
                &&& r.black_king_square == sc.black_king
            }),
            r.side_to_move == Colour::White,
    {
        let ghost f0 = bytes@.subrange(p0 as int, p1 as int);
        let mut position = Position::new();
        proof {
            crate::fen::lemma_scan_unfold(f0, 0);
        }
        let mut rank: u8 = 7;
        let mut file: u8 = 0;
        let mut i = p0;
        while i < p1
            invariant
                p0 < p1 <= bytes@.len(),
                p0 <= i <= p1,
                f0 == bytes@.subrange(p0 as int, p1 as int),
                scan(f0, f0.len() as int).ok,
                ({
                    let st = scan(f0, i - p0);
                    &&& st.ok
                    &&& st.rank == rank
                    &&& st.file == file
                    &&& st.board == position.mailbox@
                    &&& st.white_king == position.white_king_square
                    &&& st.black_king == position.black_king_square
                }),
                position.side_to_move == Colour::White,
            decreases p1 - i,
        {
            let c = bytes[i];
            let ghost k = i - p0;
            proof {
                crate::fen::lemma_scan_unfold(f0, k);
                crate::fen::lemma_scan_rank(f0, k);
                if !scan(f0, k + 1).ok {
                    crate::fen::lemma_scan_stops(f0, k + 1, f0.len() as int);
                }
                assert(f0[k] == c);
            }
            if c == 47 {
                rank = rank - 1;
                file = 0;
            } else if 48 <= c && c <= 57 {
                file = file + (c - 48);
            } else {
                match PieceCode::from_char(c as char) {
                    Some(pc) => {
                        proof {
                            PieceCode::lemma_determined(pc);
                        }
                        let piece = pc.piece().unwrap();
                        let colour = pc.colour().unwrap();
                        let square = Square::from_coords(rank, file);
                        proof {
                            Square::lemma_from_index_view(square);
                        }
                        position.place_piece(colour, piece, square);
                        file = file + 1;
                    },
                    None => {},
                }
            }
            i = i + 1;
        }
        position
    }

    /// The side to move a FEN field `bytes[s0..s1]` names: `w` for white, else black.
    fn read_side(bytes: &[u8], s0: usize, s1: usize) -> (r: Colour)
        requires
            s0 < s1 <= bytes@.len(),
        ensures
            r == (if bytes@.subrange(s0 as int, s1 as int) == seq![119u8] {
                Colour::White
            } else {
                Colour::Black
            }),
    {
        let ghost t = bytes@.subrange(s0 as int, s1 as int);
        if s1 - s0 == 1 && bytes[s0] == 119 {
            assert(t =~= seq![119u8]);
            Colour::White
        } else {
            assert(t != seq![119u8]) by {
                if t =~= seq![119u8] {
                    assert(t.len() == 1);
                    assert(s1 - s0 == 1);
                    assert(t[0] == bytes@[s0 as int]);
                }
            }
            Colour::Black
        }
    }

    /// The en passant square a FEN field `bytes[e0..e1]` names; see `fen_ep`.
    fn read_ep(bytes: &[u8], e0: usize, e1: usize) -> (r: Square)
        requires
            e0 < e1 <= bytes@.len(),
            ({
                let t = bytes@.subrange(e0 as int, e1 as int);
                t == seq![45u8] || (t.len() >= 2 && t[0] >= 97 && 49 <= t[1] <= 56)
            }),
        ensures
            r@ == fen_ep(bytes@.subrange(e0 as int, e1 as int)),
    {
        let ghost t = bytes@.subrange(e0 as int, e1 as int);
        if e1 - e0 == 1 && bytes[e0] == 45 {
            assert(t =~= seq![45u8]);
            Square::NONE
        } else {
            assert(t != seq![45u8]) by {
                if t =~= seq![45u8] {
                    assert(seq![45u8].len() == 1);
                    assert(t.len() == 1);
                    assert(t[0] == bytes@[e0 as int]);
                    assert(seq![45u8][0] == 45u8);
                }
            }
            assert(t[0] == bytes@[e0 as int]);
            assert(t[1] == bytes@[e0 + 1]);
            let ep_file = bytes[e0] - 97;
            let ep_rank = bytes[e0 + 1] - 49;
            Square::from_coords(ep_rank, ep_file)
        }
    }

    /// The value of the clock field `bytes[a..b]`, known to be a numeral no larger than `max`.
    fn read_clock(bytes: &[u8], a: usize, b: usize, max: u64) -> (r: u64)
        requires
            a <= b <= bytes@.len(),
            max <= 65535,
            decimal_value(bytes@.subrange(a as int, b as int)) is Some,
            decimal_value(bytes@.subrange(a as int, b as int))->0 <= max,
        ensures
            r == decimal_value(bytes@.subrange(a as int, b as int))->0,
            r <= max,
    {
        proof {
            crate::fen::lemma_decimal_nonneg(bytes@.subrange(a as int, b as int));
        }
        parse_unsigned(bytes, a, b, max).unwrap()
    }

    /// Reads a position from Forsyth-Edwards Notation: the board of the placement field, the
    /// side to move, castling rights, en passant square and clocks, with the key computed from
    /// scratch and the pins and checkers of the board.
    pub fn from_fen(fen: &str) -> (r: Position)
        requires
            fen_ok(fen.spec_bytes()),
        ensures
            ({
                let f = fields(fen.spec_bytes());
                let sc = fen_scan(fen.spec_bytes());
                &&& r.mailbox@ == sc.board
                &&& r.white_king_square == sc.white_king
                &&& r.black_king_square == sc.black_king
                &&& r.side_to_move == (if f[1] == seq![119u8] {
                    Colour::White
                } else {
                    Colour::Black
                })
                &&& r.castling_rights@ == castling_field(f[2])
                &&& r.ep_square@ == fen_ep(f[3])
                &&& r.halfmove_clock == decimal_value(f[4])->0
                &&& r.fullmove_counter == decimal_value(f[5])->0
                &&& r.zkey.0 == zobrist::position_key(
                    r.mailbox@,
                    r.side_to_move,
                    r.castling_rights@,
                    r.ep_square@ as int,
                )
                &&& r.pins_ok()
            }),
    {
        let bytes = fen.as_bytes();
        let spans = field_spans(bytes);
        let ghost s = bytes@;
        let ghost f = fields(s);
        proof {
            crate::fen::lemma_fields(s);
            assert(f[0] == s.subrange(spans@[0].0 as int, spans@[0].1 as int));
            assert(f[1] == s.subrange(spans@[1].0 as int, spans@[1].1 as int));
            assert(f[2] == s.subrange(spans@[2].0 as int, spans@[2].1 as int));
            assert(f[3] == s.subrange(spans@[3].0 as int, spans@[3].1 as int));
            assert(f[4] == s.subrange(spans@[4].0 as int, spans@[4].1 as int));
            assert(f[5] == s.subrange(spans@[5].0 as int, spans@[5].1 as int));
        }
        // Piece placement
        let (p0, p1) = spans[0];
        let mut position = Position::read_placement(bytes, p0, p1);

        // Side to move, castling rights and en passant square
        let (s0, s1) = spans[1];
        position.side_to_move = Position::read_side(bytes, s0, s1);
        let (c0, c1) = spans[2];
        position.castling_rights = parse_castling(bytes, c0, c1);
        let (e0, e1) = spans[3];
        position.ep_square = Position::read_ep(bytes, e0, e1);

        // Halfmove clock and move number
        let (h0, h1) = spans[4];
        position.halfmove_clock = Position::read_clock(bytes, h0, h1, 255) as u8;
        let (m0, m1) = spans[5];
        position.fullmove_counter = Position::read_clock(bytes, m0, m1, 65535) as u16;

        // Key, pins and checkers
        position.zkey = ZKey::compute_zobrist_key(
            &position.mailbox,
            position.side_to_move,
            position.castling_rights,
            position.ep_square,
        );
        let bbs = crate::bitboard::bitboards();
        position.refresh(&bbs);
        position
    }
}

/// Whether the piece placement `bytes[p0..p1]` reads through and places both kings (see
/// `scan`).
fn placement_ok(bytes: &[u8], p0: usize, p1: usize) -> (r: bool)
    requires
        p0 < p1 <= bytes@.len(),
    ensures
        ({
            let sc = scan(bytes@.subrange(p0 as int, p1 as int), p1 - p0);
            r == (sc.ok && sc.white_king@ < 64 && sc.black_king@ < 64)
        }),
{
    let ghost f0 = bytes@.subrange(p0 as int, p1 as int);
    proof {
        crate::fen::lemma_scan_unfold(f0, 0);
    }
    let mut rank: u8 = 7;
    let mut file: u8 = 0;
    let mut white_king = Square::NONE;
    let mut black_king = Square::NONE;
    let mut i = p0;
    while i < p1
        invariant
            p0 < p1 <= bytes@.len(),
            p0 <= i <= p1,
            f0 == bytes@.subrange(p0 as int, p1 as int),
            ({
                let st = scan(f0, i - p0);
                &&& st.ok
                &&& st.rank == rank
                &&& st.file == file
                &&& st.white_king == white_king
                &&& st.black_king == black_king
            }),
        decreases p1 - i,
    {
        let c = bytes[i];
        let ghost k = i - p0;
        proof {
            crate::fen::lemma_scan_unfold(f0, k);
            crate::fen::lemma_scan_rank(f0, k);
            assert(f0[k] == c);
            if !scan(f0, k + 1).ok {
                crate::fen::lemma_scan_stops(f0, k + 1, f0.len() as int);
            }
        }
        if c == 47 {
            if rank == 0 {
                return false;
            }
            rank = rank - 1;
            file = 0;
        } else if 48 <= c && c <= 57 {
            if file as u16 + (c - 48) as u16 > 255 {
                return false;
            }
            file = file + (c - 48);
        } else {
            match PieceCode::from_char(c as char) {
                Some(pc) => {
                    let square = Square::from_coords(rank, file);
                    proof {
                        Square::lemma_from_index_view(square);
                    }
                    if pc == PieceCode::WhiteKing {
                        white_king = square;
                    } else if pc == PieceCode::BlackKing {
                        black_king = square;
                    }
                    if file == 255 {
                        return false;
                    }
                    file = file + 1;
                },
                None => {},
            }
        }
        i = i + 1;
    }
    assert(f0.len() == p1 - p0);
    white_king.is_ok() && black_king.is_ok()
}

/// Whether the bytes `bytes[a..b]` are exactly `c`.
fn field_is(bytes: &[u8], a: usize, b: usize, c: u8) -> (r: bool)
    requires
        a <= b <= bytes@.len(),
    ensures
        r == (bytes@.subrange(a as int, b as int) == seq![c]),
{
    if b - a == 1 && bytes[a] == c {
        assert(bytes@.subrange(a as int, b as int) =~= seq![c]);
        true
    } else {
        proof {
            let sub = bytes@.subrange(a as int, b as int);
            if sub =~= seq![c] {
                assert(sub.len() == 1);
                assert(b - a == 1);
                assert(sub[0] == bytes@[a as int]);
                assert(sub[0] == seq![c][0]);
            }
        }
        false
    }
}

/// Whether the castling field `bytes[a..b]` is `-` or castling letters only (see
/// `castling_field_ok`).
fn castling_ok_check(bytes: &[u8], a: usize, b: usize) -> (r: bool)
    requires
        a <= b <= bytes@.len(),
    ensures
        r == castling_field_ok(bytes@.subrange(a as int, b as int)),
{
    let ghost t = bytes@.subrange(a as int, b as int);
    if field_is(bytes, a, b, 45u8) {
        return true;
    }
    let mut i = a;
    while i < b
        invariant
            a <= i <= b <= bytes@.len(),
            t == bytes@.subrange(a as int, b as int),
            forall|k: int| 0 <= k < i - a ==> (#[trigger] castle_letter(t[k])).is_some(),
            t != seq![45u8],
        decreases b - i,
    {
        let c = bytes[i];
        assert(t[i - a] == c);
        if !(c == 75u8 || c == 81u8 || c == 107u8 || c == 113u8) {
            assert(castle_letter(t[i - a]).is_none());
            return false;
        }
        i = i + 1;
    }
    true
}

/// Whether `from_fen` can read `fen` (see `fen_ok`).
pub fn fen_ok_check(fen: &str) -> (r: bool)
    ensures
        r == fen_ok(fen.spec_bytes()),
{
    let bytes = fen.as_bytes();
    let spans = field_spans(bytes);
    let ghost s = bytes@;
    let ghost f = fields(s);
    proof {
        crate::fen::lemma_fields(s);
    }
    if spans.len() < 6 {
        return false;
    }
    proof {
        assert(f[0] == s.subrange(spans@[0].0 as int, spans@[0].1 as int));
        assert(f[1] == s.subrange(spans@[1].0 as int, spans@[1].1 as int));
        assert(f[2] == s.subrange(spans@[2].0 as int, spans@[2].1 as int));
        assert(f[3] == s.subrange(spans@[3].0 as int, spans@[3].1 as int));
        assert(f[4] == s.subrange(spans@[4].0 as int, spans@[4].1 as int));
        assert(f[5] == s.subrange(spans@[5].0 as int, spans@[5].1 as int));
    }
    let (p0, p1) = spans[0];
    if !placement_ok(bytes, p0, p1) {
        return false;
    }
    let (s0, s1) = spans[1];
    if !(field_is(bytes, s0, s1, 119u8) || field_is(bytes, s0, s1, 98u8)) {
        return false;
    }
    let (c0, c1) = spans[2];
    if !castling_ok_check(bytes, c0, c1) {
        return false;
    }
    let (e0, e1) = spans[3];
    let ep_ok = field_is(bytes, e0, e1, 45u8) || (e1 - e0 >= 2 && bytes[e0] >= 97 && 49 <= bytes[e0 + 1]
        && bytes[e0 + 1] <= 56);
    if !ep_ok {
        return false;
    }
    let (h0, h1) = spans[4];
    let (m0, m1) = spans[5];
    parse_unsigned(bytes, h0, h1, 255).is_some() && parse_unsigned(bytes, m0, m1, 65535).is_some()
}

/// The standard starting position in Forsyth-Edwards Notation.
pub const DEFAULT_FEN: &'static str = "rnbqkbnr/pppppppp/8/8/8/8/PPPPPPPP/RNBQKBNR w KQkq - 0 1";

/// The piece on file `f` of a back rank at the start: rook, knight, bishop, queen, king,
/// bishop, knight, rook.
pub open spec fn back_rank_piece(f: int) -> Piece {
    if f == 0 || f == 7 {
        Piece::Rook
    } else if f == 1 || f == 6 {
        Piece::Knight
    } else if f == 2 || f == 5 {
        Piece::Bishop
    } else if f == 3 {
        Piece::Queen
    } else {
        Piece::King
    }
}

/// What stands on square `i` in the starting position.
#[verifier::opaque]
pub open spec fn start_code(i: int) -> PieceCode {
    if i < 8 {
        PieceCode::of(Colour::White, back_rank_piece(i))
    } else if i < 16 {
        PieceCode::of(Colour::White, Piece::Pawn)
    } else if i < 48 {
        PieceCode::EMPTY
    } else if i < 56 {
        PieceCode::of(Colour::Black, Piece::Pawn)
    } else {
        PieceCode::of(Colour::Black, back_rank_piece(i - 56))
    }
}

/// The mailbox of the starting position.
#[verifier::opaque]
pub open spec fn start_mailbox() -> Seq<PieceCode> {
    Seq::new(64, |i: int| start_code(i))
}

/// The piece and colour on square `i` in the starting position, if any.
fn start_piece(i: u8) -> (r: Option<(Colour, Piece)>)
    requires
        i < 64,
    ensures
        match r {
            Some((c, p)) => start_code(i as int) == PieceCode::of(c, p),
            None => start_code(i as int) == PieceCode::EMPTY,
        },
{
    proof {
        reveal(start_code);
    }
    let back = if i < 8 {
        i
    } else if i >= 56 {
        i - 56
    } else {
        0
    };
    let bp = if back == 0 || back == 7 {
        Piece::Rook
    } else if back == 1 || back == 6 {
        Piece::Knight
    } else if back == 2 || back == 5 {
        Piece::Bishop
    } else if back == 3 {
        Piece::Queen
    } else {
        Piece::King
    };
    if i < 8 {
        Some((Colour::White, bp))
    } else if i < 16 {
        Some((Colour::White, Piece::Pawn))
    } else if i < 48 {
        None
    } else if i < 56 {
        Some((Colour::Black, Piece::Pawn))
    } else {
        Some((Colour::Black, bp))
    }
}

impl Position {
    /// An empty position, white to move, with the pieces of the starting position.
    fn start_board() -> (r: Position)
        ensures
            r.mailbox@ == start_mailbox(),
            r.board_ok(),
            r.white_king_square@ == 4,
            r.black_king_square@ == 60,
            r.side_to_move == Colour::White,
            r.ep_square == Square::NONE,
            r.halfmove_clock == 0,
    {
        let mut position = Position::new();
        let mut i: u8 = 0;
        while i < 64
            invariant
                i <= 64,
                position.mailbox@ == Seq::new(
                    64,
                    |j: int|
                        if j < i {
                            start_code(j)
                        } else {
                            PieceCode::EMPTY
                        },
                ),
                position.board_ok(),
                position.white_king_square@ == (if i > 4 {
                    4int
                } else {
                    64int
                }),
                position.black_king_square@ == (if i > 60 {
                    60int
                } else {
                    64int
                }),
                position.side_to_move == Colour::White,
                position.ep_square == Square::NONE,
                position.halfmove_clock == 0,
            decreases 64 - i,
        {
            let sq = Square::new(i);
            match start_piece(i) {
                Some((c, p)) => {
                    proof {
                        PieceCode::lemma_of(c, p);
                        PieceCode::lemma_of(Colour::White, Piece::King);
                        PieceCode::lemma_of(Colour::Black, Piece::King);
                    }
                    position.place_piece(c, p, sq);
                },
                None => {},
            }
            proof {
                Square::lemma_from_index_view(sq);
                reveal(start_code);
            }
            i = i + 1;
            assert(position.mailbox@ =~= Seq::new(
                64,
                |j: int|
                    if j < i {
                        start_code(j)
                    } else {
                        PieceCode::EMPTY
                    },
            ));
        }
        proof {
            reveal(start_mailbox);
        }
        assert(position.mailbox@ =~= start_mailbox());
        position
    }

    /// The standard starting position, white to move with all castling rights, no en passant
    /// square, halfmove clock 0 and move number 1; its key computed from scratch and its
    /// board, kings, pins and checkers consistent.
    pub fn default() -> (r: Position)
        ensures
            r.mailbox@ == start_mailbox(),
            r.side_to_move == Colour::White,
            r.castling_rights == Castling::DEFAULT,
            r.ep_square == Square::NONE,
            r.halfmove_clock == 0,
            r.fullmove_counter == 1,
            r.white_king_square@ == 4,
            r.black_king_square@ == 60,
            r.zkey.0 == zobrist::position_key(
                r.mailbox@,
                r.side_to_move,
                r.castling_rights@,
                r.ep_square@ as int,
            ),
            r.wf(),
    {
        let mut position = Position::start_board();
        let ghost p_start = position;
        position.castling_rights = Castling::DEFAULT;
        position.fullmove_counter = 1;
        position.zkey = ZKey::compute_zobrist_key(
            &position.mailbox,
            position.side_to_move,
            position.castling_rights,
            position.ep_square,
        );
        let ghost before = position;
        let bbs = crate::bitboard::bitboards();
        position.refresh(&bbs);
        proof {
            lemma_board_ok_frame(p_start, position);
            lemma_start_kings(position);
        }
        position
    }
}

/// The king squares of a position with the starting board name its kings.
proof fn lemma_start_kings(p: Position)
    requires
        p.mailbox@ == start_mailbox(),
        p.white_king_square@ == 4,
        p.black_king_square@ == 60,
    ensures
        p.kings_ok(),
{
    reveal(Position::kings_ok);
    reveal(start_code);
    reveal(start_mailbox);
    PieceCode::lemma_of(Colour::White, Piece::King);
    PieceCode::lemma_of(Colour::Black, Piece::King);
    assert forall|s: int|
        0 <= s < 64 && #[trigger] p.mailbox@[s] == PieceCode::WhiteKing implies p.white_king_square@
            == s by {
        PieceCode::lemma_of(Colour::White, back_rank_piece(s));
        PieceCode::lemma_of(Colour::Black, back_rank_piece(s - 56));
        PieceCode::lemma_of(Colour::White, Piece::Pawn);
        PieceCode::lemma_of(Colour::Black, Piece::Pawn);
    }
    assert forall|s: int|
        0 <= s < 64 && #[trigger] p.mailbox@[s] == PieceCode::BlackKing implies p.black_king_square@
            == s by {
        PieceCode::lemma_of(Colour::White, back_rank_piece(s));
        PieceCode::lemma_of(Colour::Black, back_rank_piece(s - 56));
        PieceCode::lemma_of(Colour::White, Piece::Pawn);
        PieceCode::lemma_of(Colour::Black, Piece::Pawn);
    }
}
/// Toggling the en passant and side keys out and back in.
proof fn lemma_xor_swap(b: u64, c: u64, e: u64, k: u64)
    by (bit_vector)
    ensures
        ((((b ^ c) ^ e) ^ k) ^ e) ^ k == ((b ^ c) ^ 0u64) ^ 0u64,
        ((((b ^ c) ^ e) ^ 0u64) ^ e) ^ k == ((b ^ c) ^ 0u64) ^ k,
{
}

} // verus!
