//! Zobrist hashing of positions.
//!
//! Keys follow the polyglot layout: a key for each (piece code, square) pair at index
//! `64 * code + square`, the four castling rights at 768..772, an en passant file at
//! 772..780 and the side to move (white) at 780. The key values are produced by the
//! splitmix64 generator from their index.
use vstd::prelude::*;
use vstd::wrapping::u64_specs::{wrapping_add, wrapping_mul};

use crate::types::{self, Castling, Colour, Mailbox, PieceCode, Square};

verus! {

/// The splitmix64 output for input `i`.
pub open spec fn random64(i: u64) -> u64 {
    let z0 = wrapping_mul(wrapping_add(i, 1), 0x9E3779B97F4A7C15u64);
    let z1 = wrapping_mul(z0 ^ (z0 >> 30u64), 0xBF58476D1CE4E5B9u64);
    let z2 = wrapping_mul(z1 ^ (z1 >> 27u64), 0x94D049BB133111EBu64);
    z2 ^ (z2 >> 31u64)
}

/// The key of index `i` of the key table.
pub fn random_key(i: u64) -> (r: u64)
    ensures
        r == random64(i),
{
    let z0 = i.wrapping_add(1).wrapping_mul(0x9E3779B97F4A7C15u64);
    let z1 = (z0 ^ (z0 >> 30)).wrapping_mul(0xBF58476D1CE4E5B9u64);
    let z2 = (z1 ^ (z1 >> 27)).wrapping_mul(0x94D049BB133111EBu64);
    z2 ^ (z2 >> 31)
}

/// The key of piece code `code` on square `sq`.
pub open spec fn piece_key(code: nat, sq: nat) -> u64 {
    random64((64 * code + sq) as u64)
}

/// The combined key of a set of castling rights (one key per right held).
pub open spec fn castling_key(bits: nat) -> u64 {
    (if (bits as u8) & 1u8 != 0 {
        random64(768)
    } else {
        0
    }) ^ (if (bits as u8) & 2u8 != 0 {
        random64(769)
    } else {
        0
    }) ^ (if (bits as u8) & 4u8 != 0 {
        random64(770)
    } else {
        0
    }) ^ (if (bits as u8) & 8u8 != 0 {
        random64(771)
    } else {
        0
    })
}

/// The key of an en passant file.
pub open spec fn ep_key(file: nat) -> u64 {
    random64((772 + file) as u64)
}

/// The key XORed in when white is to move.
pub open spec fn side_key() -> u64 {
    random64(780)
}

/// XOR of the keys of the pieces on the first `n` squares of `board`.
pub open spec fn board_key(board: Seq<PieceCode>, n: int) -> u64
    decreases n,
{
    if n <= 0 {
        0
    } else if board[n - 1] == PieceCode::EMPTY {
        board_key(board, n - 1)
    } else {
        board_key(board, n - 1) ^ piece_key(board[n - 1]@, (n - 1) as nat)
    }
}

/// Whether a pawn of `side` stands on square index `s`.
pub open spec fn pawn_of_at(board: Seq<PieceCode>, s: int, side: Colour) -> bool {
    0 <= s < 64 && board[s] == PieceCode::of(side, types::Piece::Pawn)
}

/// Whether `side` has a pawn that could capture en passant on square `ep`.
pub open spec fn ep_hashable_spec(board: Seq<PieceCode>, ep: int, side: Colour) -> bool {
    0 <= ep < 64 && ({
        let behind = if side == Colour::White {
            ep - 8
        } else {
            ep + 8
        };
        (types::file_of(ep) > 0 && pawn_of_at(board, behind - 1, side)) || (types::file_of(ep) < 7
            && pawn_of_at(board, behind + 1, side))
    })
}

/// The full key of a position.
pub open spec fn position_key(board: Seq<PieceCode>, side: Colour, castling: nat, ep: int) -> u64 {
    board_key(board, 64) ^ castling_key(castling) ^ (if ep_hashable_spec(board, ep, side) {
        ep_key(types::file_of(ep) as nat)
    } else {
        0
    }) ^ (if side == Colour::White {
        side_key()
    } else {
        0
    })
}

/// Whether `side` has a pawn next to the pawn that just made the double push over `ep_square`,
/// so that the en passant square changes the position key.
pub fn ep_hashable(mailbox: &Mailbox, ep_square: Square, side: Colour) -> (r: bool)
    ensures
        r == ep_hashable_spec(mailbox@, ep_square@ as int, side),
{
    if !ep_square.is_ok() {
        return false;
    }
    let ep = ep_square.u8() as i32;
    let behind: i32 = if side == Colour::White {
        ep - 8
    } else {
        ep + 8
    };
    let pawn = PieceCode::new(side, types::Piece::Pawn);
    let file = ep_square.file();
    if file > 0 {
        let s = behind - 1;
        if 0 <= s && s < 64 && mailbox.piece_code_at(Square::new(s as u8)) == pawn {
            return true;
        }
    }
    if file < 7 {
        let s = behind + 1;
        if 0 <= s && s < 64 && mailbox.piece_code_at(Square::new(s as u8)) == pawn {
            return true;
        }
    }
    false
}

/// A Zobrist key.
#[derive(Copy, Clone, Eq, PartialEq, Debug, Structural)]
pub struct ZKey(pub u64);

proof fn lemma_xor_twice(a: u64, b: u64)
    by (bit_vector)
    ensures
        (a ^ b) ^ b == a,
        a ^ 0u64 == a,
{
}

impl ZKey {
    /// Flips the side-to-move key.
    #[inline(always)]
    pub fn toggle_side(&mut self)
        ensures
            final(self).0 == old(self).0 ^ side_key(),
    {
        self.0 = self.0 ^ random_key(780);
    }

    /// Flips the key of the en passant file of `sq`.
    #[inline(always)]
    pub fn toggle_ep_file(&mut self, sq: Square)
        ensures
            final(self).0 == old(self).0 ^ ep_key(types::file_of(sq@ as int) as nat),
    {
        self.0 = self.0 ^ random_key(772 + sq.file() as u64);
    }

    /// Flips the keys of every right in `rights`.
    #[inline(always)]
    pub fn toggle_castling(&mut self, rights: Castling)
        ensures
            final(self).0 == old(self).0 ^ castling_key(rights@),
    {
        let b = rights.bits();
        let k0 = if b & 1 != 0 {
            random_key(768)
        } else {
            0
        };
        let k1 = if b & 2 != 0 {
            random_key(769)
        } else {
            0
        };
        let k2 = if b & 4 != 0 {
            random_key(770)
        } else {
            0
        };
        let k3 = if b & 8 != 0 {
            random_key(771)
        } else {
            0
        };
        let k = k0 ^ k1 ^ k2 ^ k3;
        self.0 = self.0 ^ k;
    }

    /// Flips the key of piece code `pc` on square `sq`.
    #[inline(always)]
    pub fn toggle_piece(&mut self, pc: PieceCode, sq: Square)
        requires
            pc != PieceCode::EMPTY,
            sq@ < 64,
        ensures
            final(self).0 == old(self).0 ^ piece_key(pc@, sq@),
    {
        proof {
            PieceCode::lemma_determined(pc);
        }
        self.0 = self.0 ^ random_key(64 * pc.idx() as u64 + sq.u8() as u64);
    }

    /// The key of a position, computed from scratch.
    pub fn compute_zobrist_key(
        mailbox: &Mailbox,
        side: Colour,
        castling: Castling,
        ep_square: Square,
    ) -> (r: ZKey)
        ensures
            r.0 == position_key(mailbox@, side, castling@, ep_square@ as int),
    {
        let mut key = ZKey(0);
        let mut i: u8 = 0;
        while i < 64
            invariant
                i <= 64,
                key.0 == board_key(mailbox@, i as int),
            decreases 64 - i,
        {
            let sq = Square::new(i);
            let pc = mailbox.piece_code_at(sq);
            if !pc.is_empty() {
                key.toggle_piece(pc, sq);
            }
            i = i + 1;
        }
        key.toggle_castling(castling);
        let h = ep_hashable(mailbox, ep_square, side);
        let ghost before_ep = key.0;
        if h {
            key.toggle_ep_file(ep_square);
        }
        let ghost before_side = key.0;
        if side == Colour::White {
            key.toggle_side();
        }
        proof {
            let e = if h {
                ep_key(types::file_of(ep_square@ as int) as nat)
            } else {
                0
            };
            let sk = if side == Colour::White {
                side_key()
            } else {
                0
            };
            lemma_xor_twice(before_ep, 0);
            lemma_xor_twice(before_side, 0);
            assert(key.0 == before_side ^ sk);
            assert(before_side == before_ep ^ e);
        }
        key
    }
}

/// Toggling the same key twice leaves a Zobrist key unchanged.
pub proof fn lemma_toggle_involution(k: u64, x: u64)
    ensures
        (k ^ x) ^ x == k,
{
    lemma_xor_twice(k, x);
}

} // verus!
