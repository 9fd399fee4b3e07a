//! Bitboards: sets of squares packed into a `u64`, bit `i` standing for square `i`.
use vstd::prelude::*;
use vstd::std_specs::bits::{
    u64_trailing_zeros, u64_leading_zeros, axiom_u64_trailing_zeros, axiom_u64_leading_zeros,
};
use vstd::std_specs::ops::{
    BitAndSpecImpl, BitOrSpecImpl, BitXorSpecImpl, NotSpecImpl, ShlSpecImpl, ShrSpecImpl,
    SubSpecImpl,
};

use crate::types::{self, Colour, Direction, Square};

verus! {

/// Whether square `i` is in the set `x`.
pub open spec fn bit_set(x: u64, i: int) -> bool {
    0 <= i < 64 && (x >> (i as u64)) & 1u64 == 1u64
}

/// The number of squares in the set `x`.
pub open spec fn popcount(x: u64) -> nat
    decreases x,
{
    if x == 0 {
        0
    } else {
        ((x % 2) + popcount(x / 2)) as nat
    }
}

/// The set `x` together with every square north of a square in it.
pub open spec fn north_fill_spec(x: u64) -> u64 {
    x | (x << 8u64) | (x << 16u64) | (x << 24u64) | (x << 32u64) | (x << 40u64) | (x << 48u64)
        | (x << 56u64)
}

/// The set `x` together with every square south of a square in it.
pub open spec fn south_fill_spec(x: u64) -> u64 {
    x | (x >> 8u64) | (x >> 16u64) | (x >> 24u64) | (x >> 32u64) | (x >> 40u64) | (x >> 48u64)
        | (x >> 56u64)
}

/// Every square of `x` moved one step in direction `d`; squares that would leave the
/// board (or wrap round an edge file) are dropped.
pub open spec fn shift_spec(x: u64, d: Direction) -> u64 {
    match d {
        Direction::North => x << 8u64,
        Direction::South => x >> 8u64,
        Direction::East => (x & !types::FILE_H) << 1u64,
        Direction::West => (x & !types::FILE_A) >> 1u64,
        Direction::NorthEast => (x & !types::FILE_H) << 9u64,
        Direction::NorthWest => (x & !types::FILE_A) << 7u64,
        Direction::SouthEast => (x & !types::FILE_H) >> 7u64,
        Direction::SouthWest => (x & !types::FILE_A) >> 9u64,
    }
}

proof fn lemma_popcount_le(x: u64)
    ensures
        popcount(x) <= x,
    decreases x,
{
    if x != 0 {
        lemma_popcount_le(x / 2);
    }
}

/// A set has at most 64 squares.
pub proof fn lemma_popcount_bound(x: u64)
    ensures
        popcount(x) <= 64,
{
    vstd::arithmetic::power2::lemma2_to64_rest();
    lemma_popcount_bound_k(x, 64);
}

proof fn lemma_popcount_bound_k(x: u64, k: nat)
    requires
        k <= 64,
        x as nat <= vstd::arithmetic::power2::pow2(k) - 1,
    ensures
        popcount(x) <= k,
    decreases k,
{
    if x != 0 {
        if k == 0 {
            vstd::arithmetic::power2::lemma2_to64();
        } else {
            vstd::arithmetic::power2::lemma_pow2_unfold(k);
            lemma_popcount_bound_k(x / 2, (k - 1) as nat);
        }
    }
}

/// Clearing the lowest square of a non-empty set removes exactly one square.
pub proof fn lemma_popcount_clear_lowest(x: u64)
    requires
        x != 0,
    ensures
        popcount(x & ((x - 1) as u64)) == popcount(x) - 1,
    decreases x,
{
    let y = x & ((x - 1) as u64);
    if x % 2 == 1 {
        let z = (x - 1) as u64;
        assert(y == z && z / 2 == x / 2 && z % 2 == 0) by (bit_vector)
            requires
                x % 2 == 1,
                y == x & ((x - 1) as u64),
                z == (x - 1) as u64,
        ;
    } else {
        let h = x / 2;
        assert(h != 0 && y / 2 == h & ((h - 1) as u64) && y % 2 == 0) by (bit_vector)
            requires
                x % 2 == 0,
                x != 0,
                h == x / 2,
                y == x & ((x - 1) as u64),
        ;
        lemma_popcount_clear_lowest(h);
    }
}

/// Facts about the empty set, or, xor and small flag masks that other proofs rely on.
pub proof fn lemma_bit_basics(x: u64, y: u64, z: u64, s: u64)
    by (bit_vector)
    ensures
        x | 0u64 == x,
        0u64 | x == x,
        x ^ 0u64 == x,
        0u64 ^ x == x,
        s < 64 ==> (0u64 >> s) & 1u64 == 0u64,
        (x | (y | z)) == (x | y) | z,
        2u8 & 4u8 == 0u8,
        3u8 & 4u8 == 0u8,
{
}

proof fn lemma_clear_lowest(x: u64, tz: u64)
    by (bit_vector)
    requires
        tz < 64,
        (x >> tz) & 1u64 == 1u64,
        x << ((64 - tz) as u64) == 0,
    ensures
        x & ((x - 1) as u64) == x ^ (1u64 << tz),
        x & ((x - 1) as u64) < x,
{
}

proof fn lemma_fills(x: u64)
    by (bit_vector)
    ensures
        ({
            let a = x | (x << 8u64);
            let b = a | (a << 16u64);
            b | (b << 32u64)
        }) == north_fill_spec(x),
        ({
            let a = x | (x >> 8u64);
            let b = a | (a >> 16u64);
            b | (b >> 32u64)
        }) == south_fill_spec(x),
{
}

proof fn lemma_and_one_is_mod(x: u64)
    by (bit_vector)
    ensures
        x & 1u64 == x % 2,
        x >> 1u64 == x / 2,
{
}

#[derive(Copy, Clone, Eq, PartialEq, Debug, Structural)]
pub struct Bitboard(pub u64);

impl Bitboard {
    #[inline(always)]
    pub fn new(bb: u64) -> (r: Bitboard)
        ensures
            r.0 == bb,
    {
        Bitboard(bb)
    }

    #[inline(always)]
    pub fn is_empty(self) -> (r: bool)
        ensures
            r == (self.0 == 0),
    {
        self.0 == 0
    }

    /// Adds a square to the set.
    #[inline(always)]
    pub fn set_square(&mut self, square: Square)
        requires
            square@ < 64,
        ensures
            final(self).0 == old(self).0 | (1u64 << (square@ as u64)),
    {
        self.0 = self.0 | (1u64 << (square.u8() as u64));
    }

    /// Removes a square from the set.
    #[inline(always)]
    pub fn clear_square(&mut self, square: Square)
        requires
            square@ < 64,
        ensures
            final(self).0 == old(self).0 & !(1u64 << (square@ as u64)),
    {
        self.0 = self.0 & !(1u64 << (square.u8() as u64));
    }

    #[inline(always)]
    pub fn u64(&self) -> (r: u64)
        ensures
            r == self.0,
    {
        self.0
    }

    /// The lowest square of a non-empty set.
    #[inline(always)]
    pub fn lsb(self) -> (r: Square)
        requires
            self.0 != 0,
        ensures
            r@ == u64_trailing_zeros(self.0),
            r@ < 64,
            bit_set(self.0, r@ as int),
            forall|j: int| 0 <= j < r@ ==> !bit_set(self.0, j),
    {
        proof {
            axiom_u64_trailing_zeros(self.0);
        }
        let tz = self.0.trailing_zeros();
        proof {
            assert forall|j: int| 0 <= j < tz implies !bit_set(self.0, j) by {
                assert((self.0 >> (j as u64)) & 1u64 == 0u64);
            }
        }
        Square::new(tz as u8)
    }

    /// Removes and returns the lowest square of a non-empty set.
    #[inline(always)]
    pub fn pop_lsb(&mut self) -> (r: Square)
        requires
            old(self).0 != 0,
        ensures
            r@ == u64_trailing_zeros(old(self).0),
            r@ < 64,
            bit_set(old(self).0, r@ as int),
            forall|j: int| 0 <= j < r@ ==> !bit_set(old(self).0, j),
            final(self).0 == old(self).0 ^ (1u64 << (r@ as u64)),
            final(self).0 == old(self).0 & ((old(self).0 - 1) as u64),
            final(self).0 < old(self).0,
    {
        let sq = self.lsb();
        proof {
            axiom_u64_trailing_zeros(self.0);
            lemma_clear_lowest(self.0, sq@ as u64);
        }
        self.0 = self.0 & (self.0 - 1);
        sq
    }

    /// The lowest bit of the set as a one-bit mask (0 for the empty set).
    #[inline(always)]
    pub fn lsb_bb(self) -> (r: u64)
        ensures
            r == self.0 & vstd::wrapping::u64_specs::wrapping_sub(0, self.0),
            self.0 == 0 ==> r == 0,
            self.0 != 0 ==> r == 1u64 << (u64_trailing_zeros(self.0) as u64),
    {
        let x = self.0;
        let n = 0u64.wrapping_sub(x);
        if x != 0 {
            proof {
                axiom_u64_trailing_zeros(x);
                let tz = u64_trailing_zeros(x) as u64;
                assert(x & n == 1u64 << tz) by (bit_vector)
                    requires
                        tz < 64,
                        (x >> tz) & 1u64 == 1u64,
                        x << ((64 - tz) as u64) == 0,
                        n == (if x == 0 { 0 } else { (0x1_0000_0000_0000_0000 - x) as u64 }),
                ;
            }
        } else {
            assert(x & n == 0) by (bit_vector)
                requires
                    x == 0,
            ;
        }
        x & n
    }

    /// The highest square of a non-empty set.
    #[inline(always)]
    pub fn msb(self) -> (r: Square)
        requires
            self.0 != 0,
        ensures
            r@ == 63 - u64_leading_zeros(self.0),
            bit_set(self.0, r@ as int),
            forall|j: int| r@ < j < 64 ==> !bit_set(self.0, j),
    {
        proof {
            axiom_u64_leading_zeros(self.0);
        }
        let lz = self.0.leading_zeros();
        proof {
            assert forall|j: int| 63 - lz < j < 64 implies !bit_set(self.0, j) by {
                assert((self.0 >> (j as u64)) & 1u64 == 0u64);
            }
            let i = self.0;
            let k = (63 - lz) as u64;
            assert((i >> k) & 1u64 != 0u64);
            assert((i >> k) & 1u64 == 1u64) by (bit_vector)
                requires
                    (i >> k) & 1u64 != 0u64,
            ;
        }
        Square::new((63 - lz) as u8)
    }

    /// The set with every square north of one of its squares added.
    #[inline(always)]
    pub fn north_fill(self) -> (r: Bitboard)
        ensures
            r.0 == north_fill_spec(self.0),
    {
        proof {
            lemma_fills(self.0);
        }
        let mut bb = self.0;
        bb = bb | (bb << 8);
        bb = bb | (bb << 16);
        bb = bb | (bb << 32);
        Bitboard(bb)
    }

    /// The set with every square south of one of its squares added.
    #[inline(always)]
    pub fn south_fill(self) -> (r: Bitboard)
        ensures
            r.0 == south_fill_spec(self.0),
    {
        proof {
            lemma_fills(self.0);
        }
        let mut bb = self.0;
        bb = bb | (bb >> 8);
        bb = bb | (bb >> 16);
        bb = bb | (bb >> 32);
        Bitboard(bb)
    }

    /// The fill towards the opponent's side for colour `c`.
    #[inline(always)]
    pub fn frontfill(self, c: Colour) -> (r: Bitboard)
        ensures
            r.0 == (if c == Colour::White {
                north_fill_spec(self.0)
            } else {
                south_fill_spec(self.0)
            }),
    {
        if c == Colour::White {
            self.north_fill()
        } else {
            self.south_fill()
        }
    }

    /// The fill towards colour `c`'s own side.
    #[inline(always)]
    pub fn backfill(self, c: Colour) -> (r: Bitboard)
        ensures
            r.0 == (if c == Colour::White {
                south_fill_spec(self.0)
            } else {
                north_fill_spec(self.0)
            }),
    {
        if c == Colour::White {
            self.south_fill()
        } else {
            self.north_fill()
        }
    }

    /// All squares of file `n` (0 is the a-file).
    #[inline(always)]
    pub fn file(n: u8) -> (r: Bitboard)
        requires
            n < 8,
        ensures
            r.0 == types::FILE_A << (n as u64),
    {
        Bitboard(types::FILE_A << (n as u64))
    }

    /// Whether the set has a square on file `file`.
    #[inline(always)]
    pub fn file_occupied(&self, file: u8) -> (r: bool)
        requires
            file < 8,
        ensures
            r == (self.0 & (types::FILE_A << (file as u64)) != 0),
    {
        let file_bb = Self::file(file);
        !(*self & file_bb).is_empty()
    }

    /// Every square moved one step in direction `d`, dropping those leaving the board.
    #[inline(always)]
    pub fn shift(self, d: Direction) -> (r: Bitboard)
        ensures
            r.0 == shift_spec(self.0, d),
    {
        let x = self.0;
        match d {
            Direction::North => Bitboard(x << 8),
            Direction::South => Bitboard(x >> 8),
            Direction::East => Bitboard((x & !types::FILE_H) << 1),
            Direction::West => Bitboard((x & !types::FILE_A) >> 1),
            Direction::NorthEast => Bitboard((x & !types::FILE_H) << 9),
            Direction::NorthWest => Bitboard((x & !types::FILE_A) << 7),
            Direction::SouthEast => Bitboard((x & !types::FILE_H) >> 7),
            Direction::SouthWest => Bitboard((x & !types::FILE_A) >> 9),
        }
    }

    /// The number of squares in the set.
    #[inline(always)]
    pub fn bit_count(self) -> (r: u32)
        ensures
            r == popcount(self.0),
            r <= 64,
    {
        let mut x = self.0;
        let mut c: u32 = 0;
        proof {
            lemma_popcount_bound(self.0);
        }
        while x != 0
            invariant
                c + popcount(x) == popcount(self.0),
                popcount(self.0) <= 64,
            decreases x,
        {
            proof {
                lemma_and_one_is_mod(x);
            }
            c = c + (x & 1) as u32;
            x = x >> 1;
        }
        c
    }
}

impl Default for Bitboard {
    fn default() -> (r: Bitboard)
        ensures
            r.0 == 0,
    {
        Bitboard(0)
    }
}

// bb & bb
impl core::ops::BitAnd for Bitboard {
    type Output = Bitboard;

    #[inline(always)]
    fn bitand(self, rhs: Bitboard) -> (r: Bitboard)
        ensures
            r.0 == self.0 & rhs.0,
    {
        Bitboard(self.0 & rhs.0)
    }
}

impl BitAndSpecImpl for Bitboard {
    open spec fn obeys_bitand_spec() -> bool {
        true
    }

    open spec fn bitand_req(self, rhs: Bitboard) -> bool {
        true
    }

    open spec fn bitand_spec(self, rhs: Bitboard) -> Bitboard {
        Bitboard(self.0 & rhs.0)
    }
}

impl core::ops::BitAndAssign for Bitboard {
    #[inline(always)]
    fn bitand_assign(&mut self, rhs: Bitboard)
        ensures
            final(self).0 == old(self).0 & rhs.0,
    {
        self.0 = self.0 & rhs.0;
    }
}

// bb | bb
impl core::ops::BitOr for Bitboard {
    type Output = Bitboard;

    #[inline(always)]
    fn bitor(self, rhs: Bitboard) -> (r: Bitboard)
        ensures
            r.0 == self.0 | rhs.0,
    {
        Bitboard(self.0 | rhs.0)
    }
}

impl BitOrSpecImpl for Bitboard {
    open spec fn obeys_bitor_spec() -> bool {
        true
    }

    open spec fn bitor_req(self, rhs: Bitboard) -> bool {
        true
    }

    open spec fn bitor_spec(self, rhs: Bitboard) -> Bitboard {
        Bitboard(self.0 | rhs.0)
    }
}

impl core::ops::BitOrAssign for Bitboard {
    #[inline(always)]
    fn bitor_assign(&mut self, rhs: Bitboard)
        ensures
            final(self).0 == old(self).0 | rhs.0,
    {
        self.0 = self.0 | rhs.0;
    }
}

// bb ^ bb
impl core::ops::BitXor for Bitboard {
    type Output = Bitboard;

    #[inline(always)]
    fn bitxor(self, rhs: Bitboard) -> (r: Bitboard)
        ensures
            r.0 == self.0 ^ rhs.0,
    {
        Bitboard(self.0 ^ rhs.0)
    }
}

impl BitXorSpecImpl for Bitboard {
    open spec fn obeys_bitxor_spec() -> bool {
        true
    }

    open spec fn bitxor_req(self, rhs: Bitboard) -> bool {
        true
    }

    open spec fn bitxor_spec(self, rhs: Bitboard) -> Bitboard {
        Bitboard(self.0 ^ rhs.0)
    }
}

impl core::ops::BitXorAssign for Bitboard {
    #[inline(always)]
    fn bitxor_assign(&mut self, rhs: Bitboard)
        ensures
            final(self).0 == old(self).0 ^ rhs.0,
    {
        self.0 = self.0 ^ rhs.0;
    }
}

// !bb
impl core::ops::Not for Bitboard {
    type Output = Bitboard;

    #[inline(always)]
    fn not(self) -> (r: Bitboard)
        ensures
            r.0 == !self.0,
    {
        Bitboard(!self.0)
    }
}

impl NotSpecImpl for Bitboard {
    open spec fn obeys_not_spec() -> bool {
        true
    }

    open spec fn not_req(self) -> bool {
        true
    }

    open spec fn not_spec(self) -> Bitboard {
        Bitboard(!self.0)
    }
}

// bb << n
impl core::ops::Shl<u8> for Bitboard {
    type Output = Bitboard;

    #[inline(always)]
    fn shl(self, rhs: u8) -> (r: Bitboard)
        ensures
            r.0 == self.0 << (rhs as u64),
    {
        Bitboard(self.0 << (rhs as u64))
    }
}

impl ShlSpecImpl<u8> for Bitboard {
    open spec fn obeys_shl_spec() -> bool {
        true
    }

    open spec fn shl_req(self, rhs: u8) -> bool {
        rhs < 64
    }

    open spec fn shl_spec(self, rhs: u8) -> Bitboard {
        Bitboard(self.0 << (rhs as u64))
    }
}

// bb >> n
impl core::ops::Shr<u8> for Bitboard {
    type Output = Bitboard;

    #[inline(always)]
    fn shr(self, rhs: u8) -> (r: Bitboard)
        ensures
            r.0 == self.0 >> (rhs as u64),
    {
        Bitboard(self.0 >> (rhs as u64))
    }
}

impl ShrSpecImpl<u8> for Bitboard {
    open spec fn obeys_shr_spec() -> bool {
        true
    }

    open spec fn shr_req(self, rhs: u8) -> bool {
        rhs < 64
    }

    open spec fn shr_spec(self, rhs: u8) -> Bitboard {
        Bitboard(self.0 >> (rhs as u64))
    }
}

// bb - bb, wrapping (the carry-rippler subset walk relies on it)
impl core::ops::Sub for Bitboard {
    type Output = Bitboard;

    #[inline(always)]
    fn sub(self, rhs: Bitboard) -> (r: Bitboard)
        ensures
            r.0 == vstd::wrapping::u64_specs::wrapping_sub(self.0, rhs.0),
    {
        Bitboard(self.0.wrapping_sub(rhs.0))
    }
}

impl SubSpecImpl for Bitboard {
    open spec fn obeys_sub_spec() -> bool {
        true
    }

    open spec fn sub_req(self, rhs: Bitboard) -> bool {
        true
    }

    open spec fn sub_spec(self, rhs: Bitboard) -> Bitboard {
        Bitboard(vstd::wrapping::u64_specs::wrapping_sub(self.0, rhs.0))
    }
}

/// `|x|`.
pub open spec fn abs_int(x: int) -> int {
    if x < 0 {
        -x
    } else {
        x
    }
}

/// The one-bit set of square `t` when stepping by `step` from square `s` stays on the board
/// without wrapping round an edge file (the file changes by at most 2); otherwise empty.
pub open spec fn dest_bits(s: int, step: int) -> u64 {
    let t = s + step;
    if 0 <= t < 64 && abs_int(types::file_of(s) - types::file_of(t)) <= 2 {
        1u64 << (t as u64)
    } else {
        0
    }
}

/// The squares a knight on `s` attacks.
pub open spec fn knight_attacks_spec(s: int) -> u64 {
    dest_bits(s, -17) | dest_bits(s, -15) | dest_bits(s, -10) | dest_bits(s, -6) | dest_bits(s, 6)
        | dest_bits(s, 10) | dest_bits(s, 15) | dest_bits(s, 17)
}

/// The squares a king on `s` attacks.
pub open spec fn king_attacks_spec(s: int) -> u64 {
    dest_bits(s, -9) | dest_bits(s, -8) | dest_bits(s, -7) | dest_bits(s, -1) | dest_bits(s, 1)
        | dest_bits(s, 7) | dest_bits(s, 8) | dest_bits(s, 9)
}

/// The squares attacked by pawns of colour `c` standing on the squares of `bb`.
pub open spec fn pawn_attacks_spec(bb: u64, c: Colour) -> u64 {
    match c {
        Colour::White => shift_spec(bb, Direction::NorthEast) | shift_spec(bb, Direction::NorthWest),
        Colour::Black => shift_spec(bb, Direction::SouthEast) | shift_spec(bb, Direction::SouthWest),
    }
}

/// The squares reached from `s` by repeated steps of `step`, up to and including the first
/// square that is in `occ`, taking at most `fuel` steps.
pub open spec fn ray_spec(s: int, step: int, occ: u64, fuel: nat) -> u64
    decreases fuel,
{
    if fuel == 0 || dest_bits(s, step) == 0 {
        0
    } else {
        let t = s + step;
        (1u64 << (t as u64)) | (if bit_set(occ, t) {
            0
        } else {
            ray_spec(t, step, occ, (fuel - 1) as nat)
        })
    }
}

/// The squares a bishop on `s` attacks when the squares of `occ` are occupied.
pub open spec fn bishop_attacks_spec(s: int, occ: u64) -> u64 {
    ray_spec(s, 9, occ, 7) | ray_spec(s, 7, occ, 7) | ray_spec(s, -7, occ, 7) | ray_spec(
        s,
        -9,
        occ,
        7,
    )
}

/// The squares a rook on `s` attacks when the squares of `occ` are occupied.
pub open spec fn rook_attacks_spec(s: int, occ: u64) -> u64 {
    ray_spec(s, 8, occ, 7) | ray_spec(s, -8, occ, 7) | ray_spec(s, 1, occ, 7) | ray_spec(
        s,
        -1,
        occ,
        7,
    )
}

/// The eight steps of the sliding pieces.
pub open spec fn ray_step(step: int) -> bool {
    step == 9 || step == 7 || step == -7 || step == -9 || step == 8 || step == -8 || step == 1
        || step == -1
}

/// `i` lies on the ray from `s` in the direction of `step`: diagonal steps change both file
/// and rank by the same distance, straight steps change exactly one of them.
pub open spec fn ray_dir(s: int, i: int, step: int) -> bool {
    let df = types::file_of(i) - types::file_of(s);
    let dr = types::rank_of(i) - types::rank_of(s);
    if step == 9 {
        df == dr && dr >= 1
    } else if step == 7 {
        -df == dr && dr >= 1
    } else if step == -7 {
        df == -dr && df >= 1
    } else if step == -9 {
        df == dr && dr <= -1
    } else if step == 8 {
        df == 0 && dr >= 1
    } else if step == -8 {
        df == 0 && dr <= -1
    } else if step == 1 {
        dr == 0 && df >= 1
    } else {
        dr == 0 && df <= -1
    }
}

/// A square of a one-square set is that square; of a union with one, that square or one of
/// the other set.
proof fn lemma_single_bit(x: u64, t: u64, s: u64)
    by (bit_vector)
    requires
        t < 64,
        s < 64,
    ensures
        (((1u64 << t) | x) >> s) & 1u64 == 1u64 ==> s == t || (x >> s) & 1u64 == 1u64,
{
}

/// One step of a slider that stays on the board goes in its direction.
proof fn lemma_one_step(s: int, step: int)
    requires
        0 <= s < 64,
        ray_step(step),
        0 <= s + step < 64,
        abs_int(types::file_of(s) - types::file_of(s + step)) <= 2,
    ensures
        ray_dir(s, s + step, step),
{
    let f = s % 8;
    let r = s / 8;
    assert(s == 8 * r + f);
    let t = s + step;
    assert(t % 8 == (f + step + 16) % 8 && t / 8 == r + (f + step + 16) / 8 - 2) by (nonlinear_arith)
        requires
            s == 8 * r + f,
            0 <= f < 8,
            t == s + step,
            -9 <= step <= 9,
            0 <= t,
    ;
}

/// Every square of a ray lies in the ray's direction.
pub proof fn lemma_ray_dir(s: int, step: int, occ: u64, fuel: nat, i: int)
    requires
        0 <= s < 64,
        ray_step(step),
        bit_set(ray_spec(s, step, occ, fuel), i),
    ensures
        ray_dir(s, i, step),
    decreases fuel,
{
    lemma_bit_basics(0, 0, 0, i as u64);
    if fuel == 0 || dest_bits(s, step) == 0 {
    } else {
        let t = s + step;
        let rest = if bit_set(occ, t) {
            0u64
        } else {
            ray_spec(t, step, occ, (fuel - 1) as nat)
        };
        lemma_single_bit(rest, t as u64, i as u64);
        lemma_one_step(s, step);
        if i != t {
            if !bit_set(occ, t) {
                lemma_ray_dir(t, step, occ, (fuel - 1) as nat, i);
            }
        }
    }
}

/// No square is both a bishop's and a rook's target from the same square.
pub proof fn lemma_diagonal_not_straight(s: int, occ: u64, i: int)
    requires
        0 <= s < 64,
        bit_set(bishop_attacks_spec(s, occ), i),
    ensures
        !bit_set(rook_attacks_spec(s, occ), i),
{
    let (a, b, c, d) = (ray_spec(s, 9, occ, 7), ray_spec(s, 7, occ, 7), ray_spec(s, -7, occ, 7), ray_spec(s, -9, occ, 7));
    lemma_or_bits(a | b | c, d, i);
    lemma_or_bits(a | b, c, i);
    lemma_or_bits(a, b, i);
    if bit_set(a, i) {
        lemma_ray_dir(s, 9, occ, 7, i);
    } else if bit_set(b, i) {
        lemma_ray_dir(s, 7, occ, 7, i);
    } else if bit_set(c, i) {
        lemma_ray_dir(s, -7, occ, 7, i);
    } else {
        lemma_ray_dir(s, -9, occ, 7, i);
    }
    let (e, f, g, h) = (ray_spec(s, 8, occ, 7), ray_spec(s, -8, occ, 7), ray_spec(s, 1, occ, 7), ray_spec(s, -1, occ, 7));
    lemma_or_bits(e | f | g, h, i);
    lemma_or_bits(e | f, g, i);
    lemma_or_bits(e, f, i);
    if bit_set(e, i) {
        lemma_ray_dir(s, 8, occ, 7, i);
    } else if bit_set(f, i) {
        lemma_ray_dir(s, -8, occ, 7, i);
    } else if bit_set(g, i) {
        lemma_ray_dir(s, 1, occ, 7, i);
    } else if bit_set(h, i) {
        lemma_ray_dir(s, -1, occ, 7, i);
    }
}

/// A square of a union is in one of its parts.
proof fn lemma_or_bits(x: u64, y: u64, i: int)
    ensures
        bit_set(x | y, i) ==> bit_set(x, i) || bit_set(y, i),
{
    if 0 <= i < 64 {
        lemma_single_or(x, y, i as u64);
    }
}

proof fn lemma_single_or(x: u64, y: u64, s: u64)
    by (bit_vector)
    requires
        s < 64,
    ensures
        ((x | y) >> s) & 1u64 == 1u64 ==> (x >> s) & 1u64 == 1u64 || (y >> s) & 1u64 == 1u64,
{
}

/// Whether two squares share a rank, a file or a diagonal.
pub open spec fn aligned(s1: int, s2: int) -> bool {
    types::rank_of(s1) == types::rank_of(s2) || types::file_of(s1) == types::file_of(s2)
        || abs_int(types::rank_of(s1) - types::rank_of(s2)) == abs_int(
        types::file_of(s1) - types::file_of(s2),
    )
}

/// The step (change of square index) leading from `s1` towards `s2`.
pub open spec fn step_between(s1: int, s2: int) -> int {
    (if types::rank_of(s2) > types::rank_of(s1) {
        8int
    } else if types::rank_of(s2) < types::rank_of(s1) {
        -8int
    } else {
        0int
    }) + (if types::file_of(s2) > types::file_of(s1) {
        1int
    } else if types::file_of(s2) < types::file_of(s1) {
        -1int
    } else {
        0int
    })
}

/// The squares strictly between `s` and `end`, walking by `step` for at most `fuel` steps.
pub open spec fn between_spec(s: int, end: int, step: int, fuel: nat) -> u64
    decreases fuel,
{
    let t = s + step;
    if fuel == 0 || t == end || !(0 <= t < 64) {
        0
    } else {
        (1u64 << (t as u64)) | between_spec(t, end, step, (fuel - 1) as nat)
    }
}

/// The squares a non-king piece may move to in order to answer a check from `s2` on a king on
/// `s1`: the squares strictly between them on their common line, and `s2` itself.
pub open spec fn evasion_mask_spec(s1: int, s2: int) -> u64 {
    if s1 == s2 {
        0
    } else if aligned(s1, s2) {
        between_spec(s1, s2, step_between(s1, s2), 8) | (1u64 << (s2 as u64))
    } else {
        1u64 << (s2 as u64)
    }
}

/// The whole line (edge to edge) through two distinct aligned squares, or the empty set.
pub open spec fn line_spec(s1: int, s2: int) -> u64 {
    if s1 == s2 || !aligned(s1, s2) {
        0
    } else if types::rank_of(s1) == types::rank_of(s2) || types::file_of(s1) == types::file_of(s2) {
        (rook_attacks_spec(s1, 0) & rook_attacks_spec(s2, 0)) | (1u64 << (s1 as u64)) | (1u64 << (
        s2 as u64))
    } else {
        (bishop_attacks_spec(s1, 0) & bishop_attacks_spec(s2, 0)) | (1u64 << (s1 as u64)) | (1u64
            << (s2 as u64))
    }
}

/// A relevance mask and table offset for one square's slider attacks; the attack sets
/// themselves are computed from the occupancy by walking the rays.
#[derive(Copy, Clone, Eq, PartialEq, Debug, Structural)]
pub struct Magic {
    pub offset: usize,
    pub mask: Bitboard,
}

impl Default for Magic {
    fn default() -> (r: Magic)
        ensures
            r.offset == 0,
            r.mask.0 == 0,
    {
        Magic { offset: 0, mask: Bitboard::new(0) }
    }
}

/// Precomputed attack and line tables.
pub struct Bitboards {
    evasion_masks: Vec<Bitboard>,
    line_bbs: Vec<Bitboard>,
    knight_attacks: Vec<Bitboard>,
    king_attacks: Vec<Bitboard>,
    pawn_attacks: Vec<Bitboard>,
}

/// The attack and line tables (they are computed on each call).
pub fn bitboards() -> (r: Bitboards)
    ensures
        r.wf(),
{
    Bitboards::init()
}

proof fn lemma_u8_file_diff(s: u8, t: u8)
    by (bit_vector)
    ensures
        s & 7u8 == s % 8,
        t & 7u8 == t % 8,
{
}

impl Bitboards {
    /// Every table entry holds the set that its specification names.
    pub closed spec fn wf(&self) -> bool {
        &&& self.evasion_masks@.len() == 4096
        &&& self.line_bbs@.len() == 4096
        &&& self.knight_attacks@.len() == 64
        &&& self.king_attacks@.len() == 64
        &&& self.pawn_attacks@.len() == 128
        &&& forall|a: int, b: int|
            0 <= a < 64 && 0 <= b < 64 ==> #[trigger] self.evasion_masks@[a * 64 + b].0
                == evasion_mask_spec(a, b)
        &&& forall|a: int, b: int|
            0 <= a < 64 && 0 <= b < 64 ==> #[trigger] self.line_bbs@[a * 64 + b].0 == line_spec(
                a,
                b,
            )
        &&& forall|a: int| 0 <= a < 64 ==> #[trigger] self.knight_attacks@[a].0 == knight_attacks_spec(a)
        &&& forall|a: int| 0 <= a < 64 ==> #[trigger] self.king_attacks@[a].0 == king_attacks_spec(a)
        &&& forall|a: int|
            0 <= a < 64 ==> #[trigger] self.pawn_attacks@[a].0 == pawn_attacks_spec(
                1u64 << (a as u64),
                Colour::White,
            )
        &&& forall|a: int|
            0 <= a < 64 ==> #[trigger] self.pawn_attacks@[64 + a].0 == pawn_attacks_spec(
                1u64 << (a as u64),
                Colour::Black,
            )
    }

    /// The one-square set reached by `step` from `sq`, or the empty set when that step leaves
    /// the board or wraps round an edge.
    fn safe_destination(sq: Square, step: i32) -> (r: Bitboard)
        requires
            sq@ < 64,
            -20 < step < 20,
        ensures
            r.0 == dest_bits(sq@ as int, step as int),
    {
        let t: i32 = sq.u8() as i32 + step;
        if 0 <= t && t < 64 {
            let to = Square::new(t as u8);
            let f1 = sq.file();
            let f2 = to.file();
            let diff = if f1 >= f2 {
                f1 - f2
            } else {
                f2 - f1
            };
            if diff <= 2 {
                return to.bitboard();
            }
        }
        Bitboard::new(0)
    }

    fn knight_attack(sq: Square) -> (r: Bitboard)
        requires
            sq@ < 64,
        ensures
            r.0 == knight_attacks_spec(sq@ as int),
    {
        let b = Self::safe_destination(sq, -17) | Self::safe_destination(sq, -15)
            | Self::safe_destination(sq, -10) | Self::safe_destination(sq, -6)
            | Self::safe_destination(sq, 6) | Self::safe_destination(sq, 10)
            | Self::safe_destination(sq, 15) | Self::safe_destination(sq, 17);
        b
    }

    fn king_attack(sq: Square) -> (r: Bitboard)
        requires
            sq@ < 64,
        ensures
            r.0 == king_attacks_spec(sq@ as int),
    {
        let b = Self::safe_destination(sq, -9) | Self::safe_destination(sq, -8)
            | Self::safe_destination(sq, -7) | Self::safe_destination(sq, -1)
            | Self::safe_destination(sq, 1) | Self::safe_destination(sq, 7)
            | Self::safe_destination(sq, 8) | Self::safe_destination(sq, 9);
        b
    }

    fn pawn_attack(bb: Bitboard, colour: Colour) -> (r: Bitboard)
        ensures
            r.0 == pawn_attacks_spec(bb.0, colour),
    {
        match colour {
            Colour::White => bb.shift(Direction::NorthEast) | bb.shift(Direction::NorthWest),
            Colour::Black => bb.shift(Direction::SouthEast) | bb.shift(Direction::SouthWest),
        }
    }

    /// The squares reached from `sq` stepping by `step` up to and including the first occupied
    /// square.
    fn ray_attack(sq: Square, step: i32, occ: Bitboard) -> (r: Bitboard)
        requires
            sq@ < 64,
            step == 9 || step == 7 || step == -7 || step == -9 || step == 8 || step == -8
                || step == 1 || step == -1,
        ensures
            r.0 == ray_spec(sq@ as int, step as int, occ.0, 7),
    {
        let mut attacks: u64 = 0;
        let mut s = sq;
        let mut fuel: u8 = 7;
        proof {
            let x = ray_spec(sq@ as int, step as int, occ.0, 7);
            lemma_bit_basics(x, 0, 0, 0);
        }
        while fuel > 0
            invariant
                s@ < 64,
                fuel <= 7,
                step == 9 || step == 7 || step == -7 || step == -9 || step == 8 || step == -8
                    || step == 1 || step == -1,
                attacks | ray_spec(s@ as int, step as int, occ.0, fuel as nat) == ray_spec(
                    sq@ as int,
                    step as int,
                    occ.0,
                    7,
                ),
            decreases fuel,
        {
            let d = Self::safe_destination(s, step);
            if d.is_empty() {
                proof {
                    let x = attacks;
                    lemma_bit_basics(x, 0, 0, 0);
                }
                return Bitboard::new(attacks);
            }
            let t = (s.u8() as i32 + step) as u8;
            let ghost old_attacks = attacks;
            let ghost old_s = s;
            s = Square::new(t);
            attacks = attacks | s.bit();
            proof {
                let a = old_attacks;
                let b = 1u64 << (s@ as u64);
                let c = ray_spec(s@ as int, step as int, occ.0, (fuel - 1) as nat);
                lemma_bit_basics(a, b, 0, 0);
                lemma_bit_basics(a, b, c, 0);
            }
            if !occ.is_empty() && (occ.0 >> (t as u64)) & 1 == 1 {
                proof {
                    let x = attacks;
                    lemma_bit_basics(x, 0, 0, 0);
                }
                return Bitboard::new(attacks);
            }
            proof {
                if occ.0 == 0 {
                    let tt = t as u64;
                    lemma_bit_basics(0, 0, 0, tt);
                }
            }
            fuel = fuel - 1;
        }
        proof {
            let x = attacks;
            lemma_bit_basics(x, 0, 0, 0);
        }
        Bitboard::new(attacks)
    }

    /// The squares a bishop on `sq` attacks with occupancy `occ`.
    fn bishop_attack(sq: Square, occ: Bitboard) -> (r: Bitboard)
        requires
            sq@ < 64,
        ensures
            r.0 == bishop_attacks_spec(sq@ as int, occ.0),
    {
        Self::ray_attack(sq, 9, occ) | Self::ray_attack(sq, 7, occ) | Self::ray_attack(sq, -7, occ)
            | Self::ray_attack(sq, -9, occ)
    }

    /// The squares a rook on `sq` attacks with occupancy `occ`.
    fn rook_attack(sq: Square, occ: Bitboard) -> (r: Bitboard)
        requires
            sq@ < 64,
        ensures
            r.0 == rook_attacks_spec(sq@ as int, occ.0),
    {
        Self::ray_attack(sq, 8, occ) | Self::ray_attack(sq, -8, occ) | Self::ray_attack(sq, 1, occ)
            | Self::ray_attack(sq, -1, occ)
    }
}

impl Bitboards {
    /// The step from `s1` towards `s2`.
    fn step_towards(s1: Square, s2: Square) -> (r: i32)
        requires
            s1@ < 64,
            s2@ < 64,
        ensures
            r == step_between(s1@ as int, s2@ as int),
            -9 <= r <= 9,
    {
        let mut step: i32 = if s2.rank() > s1.rank() {
            8
        } else if s2.rank() < s1.rank() {
            -8
        } else {
            0
        };
        step = step + if s2.file() > s1.file() {
            1
        } else if s2.file() < s1.file() {
            -1
        } else {
            0
        };
        step
    }

    /// The squares strictly between two distinct aligned squares.
    fn populate_path(s1: Square, s2: Square) -> (r: u64)
        requires
            s1@ < 64,
            s2@ < 64,
        ensures
            r == between_spec(s1@ as int, s2@ as int, step_between(s1@ as int, s2@ as int), 8),
    {
        let step = Self::step_towards(s1, s2);
        let end: i32 = s2.u8() as i32;
        let mut sq: i32 = s1.u8() as i32;
        let mut bits: u64 = 0;
        let mut fuel: u8 = 8;
        let ghost st = step_between(s1@ as int, s2@ as int);
        proof {
            let x = between_spec(s1@ as int, s2@ as int, st, 8);
            lemma_bit_basics(x, 0, 0, 0);
        }
        while fuel > 0
            invariant
                0 <= sq < 64,
                fuel <= 8,
                step == st,
                st == step_between(s1@ as int, s2@ as int),
                -9 <= step <= 9,
                end == s2@,
                bits | between_spec(sq as int, end as int, st, fuel as nat) == between_spec(
                    s1@ as int,
                    s2@ as int,
                    st,
                    8,
                ),
            decreases fuel,
        {
            let t = sq + step;
            if t == end || t < 0 || t >= 64 {
                proof {
                    assert(between_spec(sq as int, end as int, st, fuel as nat) == 0);
                    let x = bits;
                    lemma_bit_basics(x, 0, 0, 0);
                    assert(bits == between_spec(s1@ as int, s2@ as int, st, 8));
                }
                return bits;
            }
            let ghost old_bits = bits;
            bits = bits | (1u64 << (t as u64));
            proof {
                let a = old_bits;
                let b = 1u64 << (t as u64);
                let c = between_spec(t as int, end as int, st, (fuel - 1) as nat);
                lemma_bit_basics(a, b, c, 0);
            }
            sq = t;
            fuel = fuel - 1;
        }
        proof {
            let x = bits;
            lemma_bit_basics(x, 0, 0, 0);
        }
        bits
    }


    /// The evasion mask and line of a pair of squares, from the empty-board slider attacks.
    fn pair_masks(s1: Square, s2: Square, rook_empty: &Vec<u64>, bishop_empty: &Vec<u64>) -> (r: (
        u64,
        u64,
    ))
        requires
            s1@ < 64,
            s2@ < 64,
            rook_empty@.len() == 64,
            bishop_empty@.len() == 64,
            forall|x: int| 0 <= x < 64 ==> #[trigger] rook_empty@[x] == rook_attacks_spec(x, 0),
            forall|x: int| 0 <= x < 64 ==> #[trigger] bishop_empty@[x] == bishop_attacks_spec(x, 0),
        ensures
            r.0 == evasion_mask_spec(s1@ as int, s2@ as int),
            r.1 == line_spec(s1@ as int, s2@ as int),
    {
        let mut evasion: u64 = 0;
        let mut line: u64 = 0;
        if s1.u8() != s2.u8() {
            let same_rank = s1.rank() == s2.rank();
            let same_file = s1.file() == s2.file();
            let dr = if s1.rank() >= s2.rank() {
                s1.rank() - s2.rank()
            } else {
                s2.rank() - s1.rank()
            };
            let df = if s1.file() >= s2.file() {
                s1.file() - s2.file()
            } else {
                s2.file() - s1.file()
            };
            let same_diag = dr == df;
            if same_rank || same_file || same_diag {
                if same_rank || same_file {
                    line = (rook_empty[s1.idx()] & rook_empty[s2.idx()]) | s1.bit() | s2.bit();
                } else {
                    line = (bishop_empty[s1.idx()] & bishop_empty[s2.idx()]) | s1.bit() | s2.bit();
                }
                evasion = Self::populate_path(s1, s2);
            }
            evasion = evasion | s2.bit();
            proof {
                let x = 1u64 << (s2@ as u64);
                lemma_bit_basics(x, 0, 0, 0);
            }
        }
        (evasion, line)
    }

    /// Builds all the tables.
    pub fn init() -> (r: Bitboards)
        ensures
            r.wf(),
    {
        let mut knight_attacks: Vec<Bitboard> = Vec::new();
        let mut king_attacks: Vec<Bitboard> = Vec::new();
        let mut rook_empty: Vec<u64> = Vec::new();
        let mut bishop_empty: Vec<u64> = Vec::new();
        let mut i: u8 = 0;
        while i < 64
            invariant
                i <= 64,
                knight_attacks@.len() == i,
                king_attacks@.len() == i,
                rook_empty@.len() == i,
                bishop_empty@.len() == i,
                forall|a: int| 0 <= a < i ==> #[trigger] knight_attacks@[a].0 == knight_attacks_spec(a),
                forall|a: int| 0 <= a < i ==> #[trigger] king_attacks@[a].0 == king_attacks_spec(a),
                forall|a: int| 0 <= a < i ==> #[trigger] rook_empty@[a] == rook_attacks_spec(a, 0),
                forall|a: int| 0 <= a < i ==> #[trigger] bishop_empty@[a] == bishop_attacks_spec(a, 0),
            decreases 64 - i,
        {
            let sq = Square::new(i);
            knight_attacks.push(Self::knight_attack(sq));
            king_attacks.push(Self::king_attack(sq));
            rook_empty.push(Self::rook_attack(sq, Bitboard::new(0)).0);
            bishop_empty.push(Self::bishop_attack(sq, Bitboard::new(0)).0);
            i = i + 1;
        }
        let mut pawn_attacks: Vec<Bitboard> = Vec::new();
        let mut c: u8 = 0;
        while c < 2
            invariant
                c <= 2,
                pawn_attacks@.len() == c * 64,
                forall|a: int|
                    0 <= a < 64 && a < c * 64 ==> #[trigger] pawn_attacks@[a].0 == pawn_attacks_spec(
                        1u64 << (a as u64),
                        Colour::White,
                    ),
                forall|a: int|
                    0 <= a < 64 && 64 + a < c * 64 ==> #[trigger] pawn_attacks@[64 + a].0
                        == pawn_attacks_spec(1u64 << (a as u64), Colour::Black),
            decreases 2 - c,
        {
            let colour = if c == 0 {
                Colour::White
            } else {
                Colour::Black
            };
            let mut j: u8 = 0;
            while j < 64
                invariant
                    c < 2,
                    j <= 64,
                    colour == (if c == 0 {
                        Colour::White
                    } else {
                        Colour::Black
                    }),
                    pawn_attacks@.len() == c * 64 + j,
                    forall|a: int|
                        0 <= a < 64 && a < c * 64 + j ==> #[trigger] pawn_attacks@[a].0
                            == pawn_attacks_spec(1u64 << (a as u64), Colour::White),
                    forall|a: int|
                        0 <= a < 64 && 64 + a < c * 64 + j ==> #[trigger] pawn_attacks@[64 + a].0
                            == pawn_attacks_spec(1u64 << (a as u64), Colour::Black),
                decreases 64 - j,
            {
                let sq = Square::new(j);
                pawn_attacks.push(Self::pawn_attack(sq.bitboard(), colour));
                j = j + 1;
            }
            c = c + 1;
        }
        let mut evasion_masks: Vec<Bitboard> = Vec::new();
        let mut line_bbs: Vec<Bitboard> = Vec::new();
        let mut a: u8 = 0;
        while a < 64
            invariant
                a <= 64,
                rook_empty@.len() == 64,
                bishop_empty@.len() == 64,
                forall|x: int| 0 <= x < 64 ==> #[trigger] rook_empty@[x] == rook_attacks_spec(x, 0),
                forall|x: int| 0 <= x < 64 ==> #[trigger] bishop_empty@[x] == bishop_attacks_spec(x, 0),
                evasion_masks@.len() == a * 64,
                line_bbs@.len() == a * 64,
                forall|x: int, y: int|
                    0 <= x < a && 0 <= y < 64 ==> #[trigger] evasion_masks@[x * 64 + y].0
                        == evasion_mask_spec(x, y),
                forall|x: int, y: int|
                    0 <= x < a && 0 <= y < 64 ==> #[trigger] line_bbs@[x * 64 + y].0 == line_spec(x, y),
            decreases 64 - a,
        {
            let mut b: u8 = 0;
            while b < 64
                invariant
                    a < 64,
                    b <= 64,
                    rook_empty@.len() == 64,
                    bishop_empty@.len() == 64,
                    forall|x: int| 0 <= x < 64 ==> #[trigger] rook_empty@[x] == rook_attacks_spec(x, 0),
                    forall|x: int|
                        0 <= x < 64 ==> #[trigger] bishop_empty@[x] == bishop_attacks_spec(x, 0),
                    evasion_masks@.len() == a * 64 + b,
                    line_bbs@.len() == a * 64 + b,
                    forall|x: int, y: int|
                        0 <= x < 64 && 0 <= y < 64 && x * 64 + y < a * 64 + b
                            ==> #[trigger] evasion_masks@[x * 64 + y].0 == evasion_mask_spec(x, y),
                    forall|x: int, y: int|
                        0 <= x < 64 && 0 <= y < 64 && x * 64 + y < a * 64 + b
                            ==> #[trigger] line_bbs@[x * 64 + y].0 == line_spec(x, y),
                decreases 64 - b,
            {
                let (evasion, line) = Self::pair_masks(
                    Square::new(a),
                    Square::new(b),
                    &rook_empty,
                    &bishop_empty,
                );
                evasion_masks.push(Bitboard::new(evasion));
                line_bbs.push(Bitboard::new(line));
                b = b + 1;
            }
            a = a + 1;
        }
        Bitboards { evasion_masks, line_bbs, knight_attacks, king_attacks, pawn_attacks }
    }

    /// The whole line through `s1` and `s2` when they share a rank, file or diagonal;
    /// otherwise the empty set.
    #[inline(always)]
    pub fn line_bb(&self, s1: Square, s2: Square) -> (r: Bitboard)
        requires
            self.wf(),
            s1@ < 64,
            s2@ < 64,
        ensures
            r.0 == line_spec(s1@ as int, s2@ as int),
    {
        self.line_bbs[s1.idx() * 64 + s2.idx()]
    }

    /// The squares strictly between `s1` and `s2` on their common line, together with `s2`;
    /// just `s2` when they are not aligned.
    #[inline(always)]
    pub fn evasion_mask(&self, s1: Square, s2: Square) -> (r: Bitboard)
        requires
            self.wf(),
            s1@ < 64,
            s2@ < 64,
        ensures
            r.0 == evasion_mask_spec(s1@ as int, s2@ as int),
    {
        self.evasion_masks[s1.idx() * 64 + s2.idx()]
    }

    #[inline(always)]
    pub fn king_attacks(&self, sq: Square) -> (r: Bitboard)
        requires
            self.wf(),
            sq@ < 64,
        ensures
            r.0 == king_attacks_spec(sq@ as int),
    {
        self.king_attacks[sq.idx()]
    }

    #[inline(always)]
    pub fn knight_attacks(&self, sq: Square) -> (r: Bitboard)
        requires
            self.wf(),
            sq@ < 64,
        ensures
            r.0 == knight_attacks_spec(sq@ as int),
    {
        self.knight_attacks[sq.idx()]
    }

    /// The squares a pawn of `colour` on `sq` attacks.
    #[inline(always)]
    pub fn pawn_attacks(&self, sq: Square, colour: Colour) -> (r: Bitboard)
        requires
            self.wf(),
            sq@ < 64,
        ensures
            r.0 == pawn_attacks_spec(1u64 << (sq@ as u64), colour),
    {
        self.pawn_attacks[colour.idx() * 64 + sq.idx()]
    }

    /// The squares a bishop on `sq` attacks with occupancy `occ`.
    #[inline(always)]
    pub fn bishop_attacks(&self, sq: Square, occ: Bitboard) -> (r: Bitboard)
        requires
            sq@ < 64,
        ensures
            r.0 == bishop_attacks_spec(sq@ as int, occ.0),
    {
        Self::bishop_attack(sq, occ)
    }

    /// The squares a rook on `sq` attacks with occupancy `occ`.
    #[inline(always)]
    pub fn rook_attacks(&self, sq: Square, occ: Bitboard) -> (r: Bitboard)
        requires
            sq@ < 64,
        ensures
            r.0 == rook_attacks_spec(sq@ as int, occ.0),
    {
        Self::rook_attack(sq, occ)
    }
}

} // verus!
