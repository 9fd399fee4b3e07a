//! Board primitives: squares, colours, pieces, piece codes, the mailbox,
//! castling rights and packed moves.
use vstd::prelude::*;

use crate::bitboard::Bitboard;

verus! {

/// Index of the rank (0-based, rank 1 is 0) of a square index.
pub open spec fn rank_of(s: int) -> int {
    s / 8
}

/// Index of the file (0-based, file a is 0) of a square index.
pub open spec fn file_of(s: int) -> int {
    s % 8
}

proof fn lemma_u8_rank_file(x: u8)
    by (bit_vector)
    ensures
        x >> 3u8 == x / 8,
        x & 7u8 == x % 8,
{
}

proof fn lemma_u8_coords(rank: u8, file: u8)
    by (bit_vector)
    requires
        rank < 8,
    ensures
        (rank << 3u8) | (file & 7u8) == rank * 8 + file % 8,
        (rank << 3u8) | (file & 7u8) < 64,
{
}

#[allow(non_camel_case_types)]
#[derive(Copy, Clone, Eq, PartialEq, Debug, Structural)]
pub enum Square {
    A1, B1, C1, D1, E1, F1, G1, H1,
    A2, B2, C2, D2, E2, F2, G2, H2,
    A3, B3, C3, D3, E3, F3, G3, H3,
    A4, B4, C4, D4, E4, F4, G4, H4,
    A5, B5, C5, D5, E5, F5, G5, H5,
    A6, B6, C6, D6, E6, F6, G6, H6,
    A7, B7, C7, D7, E7, F7, G7, H7,
    A8, B8, C8, D8, E8, F8, G8, H8,
    NONE,
}

impl Square {
    /// The square's index: `0` for a1 up to `63` for h8, and `64` for `NONE`.
    pub open spec fn view(self) -> nat {
        match self {
            Square::A1 => 0,
            Square::B1 => 1,
            Square::C1 => 2,
            Square::D1 => 3,
            Square::E1 => 4,
            Square::F1 => 5,
            Square::G1 => 6,
            Square::H1 => 7,
            Square::A2 => 8,
            Square::B2 => 9,
            Square::C2 => 10,
            Square::D2 => 11,
            Square::E2 => 12,
            Square::F2 => 13,
            Square::G2 => 14,
            Square::H2 => 15,
            Square::A3 => 16,
            Square::B3 => 17,
            Square::C3 => 18,
            Square::D3 => 19,
            Square::E3 => 20,
            Square::F3 => 21,
            Square::G3 => 22,
            Square::H3 => 23,
            Square::A4 => 24,
            Square::B4 => 25,
            Square::C4 => 26,
            Square::D4 => 27,
            Square::E4 => 28,
            Square::F4 => 29,
            Square::G4 => 30,
            Square::H4 => 31,
            Square::A5 => 32,
            Square::B5 => 33,
            Square::C5 => 34,
            Square::D5 => 35,
            Square::E5 => 36,
            Square::F5 => 37,
            Square::G5 => 38,
            Square::H5 => 39,
            Square::A6 => 40,
            Square::B6 => 41,
            Square::C6 => 42,
            Square::D6 => 43,
            Square::E6 => 44,
            Square::F6 => 45,
            Square::G6 => 46,
            Square::H6 => 47,
            Square::A7 => 48,
            Square::B7 => 49,
            Square::C7 => 50,
            Square::D7 => 51,
            Square::E7 => 52,
            Square::F7 => 53,
            Square::G7 => 54,
            Square::H7 => 55,
            Square::A8 => 56,
            Square::B8 => 57,
            Square::C8 => 58,
            Square::D8 => 59,
            Square::E8 => 60,
            Square::F8 => 61,
            Square::G8 => 62,
            Square::H8 => 63,
            Square::NONE => 64,
        }
    }

    /// The square with the given index; indices past 63 give `NONE`.
    #[verifier::opaque]
    pub open spec fn from_index(n: int) -> Square {
        if n < 0 || n > 63 {
            Square::NONE
        }
        else if n == 0 {
            Square::A1
        }
        else if n == 1 {
            Square::B1
        }
        else if n == 2 {
            Square::C1
        }
        else if n == 3 {
            Square::D1
        }
        else if n == 4 {
            Square::E1
        }
        else if n == 5 {
            Square::F1
        }
        else if n == 6 {
            Square::G1
        }
        else if n == 7 {
            Square::H1
        }
        else if n == 8 {
            Square::A2
        }
        else if n == 9 {
            Square::B2
        }
        else if n == 10 {
            Square::C2
        }
        else if n == 11 {
            Square::D2
        }
        else if n == 12 {
            Square::E2
        }
        else if n == 13 {
            Square::F2
        }
        else if n == 14 {
            Square::G2
        }
        else if n == 15 {
            Square::H2
        }
        else if n == 16 {
            Square::A3
        }
        else if n == 17 {
            Square::B3
        }
        else if n == 18 {
            Square::C3
        }
        else if n == 19 {
            Square::D3
        }
        else if n == 20 {
            Square::E3
        }
        else if n == 21 {
            Square::F3
        }
        else if n == 22 {
            Square::G3
        }
        else if n == 23 {
            Square::H3
        }
        else if n == 24 {
            Square::A4
        }
        else if n == 25 {
            Square::B4
        }
        else if n == 26 {
            Square::C4
        }
        else if n == 27 {
            Square::D4
        }
        else if n == 28 {
            Square::E4
        }
        else if n == 29 {
            Square::F4
        }
        else if n == 30 {
            Square::G4
        }
        else if n == 31 {
            Square::H4
        }
        else if n == 32 {
            Square::A5
        }
        else if n == 33 {
            Square::B5
        }
        else if n == 34 {
            Square::C5
        }
        else if n == 35 {
            Square::D5
        }
        else if n == 36 {
            Square::E5
        }
        else if n == 37 {
            Square::F5
        }
        else if n == 38 {
            Square::G5
        }
        else if n == 39 {
            Square::H5
        }
        else if n == 40 {
            Square::A6
        }
        else if n == 41 {
            Square::B6
        }
        else if n == 42 {
            Square::C6
        }
        else if n == 43 {
            Square::D6
        }
        else if n == 44 {
            Square::E6
        }
        else if n == 45 {
            Square::F6
        }
        else if n == 46 {
            Square::G6
        }
        else if n == 47 {
            Square::H6
        }
        else if n == 48 {
            Square::A7
        }
        else if n == 49 {
            Square::B7
        }
        else if n == 50 {
            Square::C7
        }
        else if n == 51 {
            Square::D7
        }
        else if n == 52 {
            Square::E7
        }
        else if n == 53 {
            Square::F7
        }
        else if n == 54 {
            Square::G7
        }
        else if n == 55 {
            Square::H7
        }
        else if n == 56 {
            Square::A8
        }
        else if n == 57 {
            Square::B8
        }
        else if n == 58 {
            Square::C8
        }
        else if n == 59 {
            Square::D8
        }
        else if n == 60 {
            Square::E8
        }
        else if n == 61 {
            Square::F8
        }
        else if n == 62 {
            Square::G8
        }
        else if n == 63 {
            Square::H8
        }
        else {
            Square::NONE
        }
    }

    pub proof fn lemma_from_index_view(s: Square)
        ensures
            Square::from_index(s@ as int) == s,
            s@ <= 64,
    {
        reveal(Square::from_index);
    }

    /// The square with index `n` has index `n`; any other index gives `NONE`.
    pub proof fn lemma_from_index(n: int)
        ensures
            0 <= n <= 64 ==> Square::from_index(n)@ == n,
            !(0 <= n <= 64) ==> Square::from_index(n) == Square::NONE,
    {
        reveal(Square::from_index);
    }

    /// Builds a square from its index.
    #[verifier::rlimit(50)]
    pub fn new(sq: u8) -> (r: Square)
        requires
            sq <= 64,
        ensures
            r@ == sq,
            r == Square::from_index(sq as int),
    {
        proof {
            reveal(Square::from_index);
        }
        match sq {
            0u8 => Square::A1,
            1u8 => Square::B1,
            2u8 => Square::C1,
            3u8 => Square::D1,
            4u8 => Square::E1,
            5u8 => Square::F1,
            6u8 => Square::G1,
            7u8 => Square::H1,
            8u8 => Square::A2,
            9u8 => Square::B2,
            10u8 => Square::C2,
            11u8 => Square::D2,
            12u8 => Square::E2,
            13u8 => Square::F2,
            14u8 => Square::G2,
            15u8 => Square::H2,
            16u8 => Square::A3,
            17u8 => Square::B3,
            18u8 => Square::C3,
            19u8 => Square::D3,
            20u8 => Square::E3,
            21u8 => Square::F3,
            22u8 => Square::G3,
            23u8 => Square::H3,
            24u8 => Square::A4,
            25u8 => Square::B4,
            26u8 => Square::C4,
            27u8 => Square::D4,
            28u8 => Square::E4,
            29u8 => Square::F4,
            30u8 => Square::G4,
            31u8 => Square::H4,
            32u8 => Square::A5,
            33u8 => Square::B5,
            34u8 => Square::C5,
            35u8 => Square::D5,
            36u8 => Square::E5,
            37u8 => Square::F5,
            38u8 => Square::G5,
            39u8 => Square::H5,
            40u8 => Square::A6,
            41u8 => Square::B6,
            42u8 => Square::C6,
            43u8 => Square::D6,
            44u8 => Square::E6,
            45u8 => Square::F6,
            46u8 => Square::G6,
            47u8 => Square::H6,
            48u8 => Square::A7,
            49u8 => Square::B7,
            50u8 => Square::C7,
            51u8 => Square::D7,
            52u8 => Square::E7,
            53u8 => Square::F7,
            54u8 => Square::G7,
            55u8 => Square::H7,
            56u8 => Square::A8,
            57u8 => Square::B8,
            58u8 => Square::C8,
            59u8 => Square::D8,
            60u8 => Square::E8,
            61u8 => Square::F8,
            62u8 => Square::G8,
            63u8 => Square::H8,
            _ => Square::NONE,
        }
    }

    /// The square's index as a `u8`.
    #[verifier::rlimit(50)]
    pub fn u8(self) -> (r: u8)
        ensures
            r == self@,
    {
        match self {
            Square::A1 => 0u8,
            Square::B1 => 1u8,
            Square::C1 => 2u8,
            Square::D1 => 3u8,
            Square::E1 => 4u8,
            Square::F1 => 5u8,
            Square::G1 => 6u8,
            Square::H1 => 7u8,
            Square::A2 => 8u8,
            Square::B2 => 9u8,
            Square::C2 => 10u8,
            Square::D2 => 11u8,
            Square::E2 => 12u8,
            Square::F2 => 13u8,
            Square::G2 => 14u8,
            Square::H2 => 15u8,
            Square::A3 => 16u8,
            Square::B3 => 17u8,
            Square::C3 => 18u8,
            Square::D3 => 19u8,
            Square::E3 => 20u8,
            Square::F3 => 21u8,
            Square::G3 => 22u8,
            Square::H3 => 23u8,
            Square::A4 => 24u8,
            Square::B4 => 25u8,
            Square::C4 => 26u8,
            Square::D4 => 27u8,
            Square::E4 => 28u8,
            Square::F4 => 29u8,
            Square::G4 => 30u8,
            Square::H4 => 31u8,
            Square::A5 => 32u8,
            Square::B5 => 33u8,
            Square::C5 => 34u8,
            Square::D5 => 35u8,
            Square::E5 => 36u8,
            Square::F5 => 37u8,
            Square::G5 => 38u8,
            Square::H5 => 39u8,
            Square::A6 => 40u8,
            Square::B6 => 41u8,
            Square::C6 => 42u8,
            Square::D6 => 43u8,
            Square::E6 => 44u8,
            Square::F6 => 45u8,
            Square::G6 => 46u8,
            Square::H6 => 47u8,
            Square::A7 => 48u8,
            Square::B7 => 49u8,
            Square::C7 => 50u8,
            Square::D7 => 51u8,
            Square::E7 => 52u8,
            Square::F7 => 53u8,
            Square::G7 => 54u8,
            Square::H7 => 55u8,
            Square::A8 => 56u8,
            Square::B8 => 57u8,
            Square::C8 => 58u8,
            Square::D8 => 59u8,
            Square::E8 => 60u8,
            Square::F8 => 61u8,
            Square::G8 => 62u8,
            Square::H8 => 63u8,
            Square::NONE => 64u8,
        }
    }
}
impl Square {
    #[inline(always)]
    pub fn u16(self) -> (r: u16)
        ensures
            r == self@,
    {
        self.u8() as u16
    }

    #[inline(always)]
    pub fn idx(self) -> (r: usize)
        ensures
            r == self@,
    {
        self.u8() as usize
    }

    /// The rank index (`self / 8`); `NONE` gives 8.
    #[inline(always)]
    pub fn rank(self) -> (r: u8)
        ensures
            r == rank_of(self@ as int),
    {
        let x = self.u8();
        proof {
            lemma_u8_rank_file(x);
        }
        x >> 3
    }

    /// The file index (`self % 8`).
    #[inline(always)]
    pub fn file(self) -> (r: u8)
        ensures
            r == file_of(self@ as int),
            r < 8,
    {
        let x = self.u8();
        proof {
            lemma_u8_rank_file(x);
        }
        x & 7
    }

    /// The square on the given rank and file (the file is taken modulo 8).
    #[inline(always)]
    pub fn from_coords(rank: u8, file: u8) -> (r: Square)
        requires
            rank < 8,
        ensures
            r@ == rank * 8 + file % 8,
            r@ < 64,
    {
        proof {
            lemma_u8_coords(rank, file);
        }
        Square::new((rank << 3) | (file & 7))
    }

    #[inline(always)]
    pub fn is_none(self) -> (r: bool)
        ensures
            r == (self@ == 64),
            r == (self == Square::NONE),
    {
        proof {
            Square::lemma_from_index_view(self);
        }
        self.u8() == 64
    }

    /// The one-bit mask of the square.
    #[inline(always)]
    pub fn bit(self) -> (r: u64)
        requires
            self@ < 64,
        ensures
            r == 1u64 << (self@ as u64),
    {
        1u64 << (self.u8() as u64)
    }

    #[inline(always)]
    pub fn bitboard(self) -> (r: Bitboard)
        requires
            self@ < 64,
        ensures
            r.0 == 1u64 << (self@ as u64),
    {
        Bitboard::new(self.bit())
    }

    /// Whether the square is on the board (not `NONE`).
    #[inline(always)]
    pub fn is_ok(self) -> (r: bool)
        ensures
            r == (self@ < 64),
    {
        self.u8() <= 63
    }

    /// All squares on this square's rank.
    #[inline(always)]
    pub fn rank_bb(self) -> (r: Bitboard)
        requires
            self@ < 64,
        ensures
            r.0 == RANK_1 << ((rank_of(self@ as int) * 8) as u64),
    {
        let rk = self.rank();
        Bitboard::new(RANK_1 << ((rk * 8) as u64))
    }

    /// All squares on this square's file.
    #[inline(always)]
    pub fn file_bb(self) -> (r: Bitboard)
        ensures
            r.0 == FILE_A << (file_of(self@ as int) as u64),
    {
        Bitboard::new(FILE_A << (self.file() as u64))
    }

    /// Colour of the square on the board: a1 is dark (`Black`), h1 is light (`White`).
    #[inline(always)]
    pub fn colour(self) -> (r: Colour)
        ensures
            r == square_colour(self@ as int),
    {
        let f = self.file();
        let rk = self.rank();
        if (f + rk + 1) % 2 == 0 {
            Colour::White
        } else {
            Colour::Black
        }
    }
}

/// The colour of the square with index `s`: light squares (odd rank + file sum) are `White`.
pub open spec fn square_colour(s: int) -> Colour {
    if (file_of(s) + rank_of(s) + 1) % 2 == 0 {
        Colour::White
    } else {
        Colour::Black
    }
}

impl Default for Square {
    fn default() -> (r: Square)
        ensures
            r == Square::NONE,
    {
        Square::NONE
    }
}

// --- Board info ---
#[derive(Copy, Clone, Eq, PartialEq, Debug, Structural)]
pub enum Direction {
    North,
    East,
    South,
    West,
    NorthEast,
    NorthWest,
    SouthEast,
    SouthWest,
}

impl Direction {
    /// The change of square index that one step in this direction makes.
    pub open spec fn offset(self) -> int {
        match self {
            Direction::North => 8,
            Direction::East => 1,
            Direction::South => -8,
            Direction::West => -1,
            Direction::NorthEast => 9,
            Direction::NorthWest => 7,
            Direction::SouthEast => -7,
            Direction::SouthWest => -9,
        }
    }

    pub fn value(self) -> (r: i8)
        ensures
            r == self.offset(),
    {
        match self {
            Direction::North => 8,
            Direction::East => 1,
            Direction::South => -8,
            Direction::West => -1,
            Direction::NorthEast => 9,
            Direction::NorthWest => 7,
            Direction::SouthEast => -7,
            Direction::SouthWest => -9,
        }
    }
}

pub const FILE_A: u64 = 0x0101010101010101;
pub const FILE_B: u64 = FILE_A << 1;
pub const FILE_C: u64 = FILE_A << 2;
pub const FILE_D: u64 = FILE_A << 3;
pub const FILE_E: u64 = FILE_A << 4;
pub const FILE_F: u64 = FILE_A << 5;
pub const FILE_G: u64 = FILE_A << 6;
pub const FILE_H: u64 = FILE_A << 7;

pub const RANK_1: u64 = 0xFF;
pub const RANK_2: u64 = RANK_1 << 8;
pub const RANK_3: u64 = RANK_1 << 16;
pub const RANK_4: u64 = RANK_1 << 24;
pub const RANK_5: u64 = RANK_1 << 32;
pub const RANK_6: u64 = RANK_1 << 40;
pub const RANK_7: u64 = RANK_1 << 48;
pub const RANK_8: u64 = RANK_1 << 56;

// --- Pieces ---
#[derive(Copy, Clone, Eq, PartialEq, Debug, Structural)]
pub enum Colour {
    White,
    Black,
}

impl Colour {
    /// `0` for white, `1` for black.
    pub open spec fn view(self) -> nat {
        match self {
            Colour::White => 0,
            Colour::Black => 1,
        }
    }

    pub open spec fn other(self) -> Colour {
        match self {
            Colour::White => Colour::Black,
            Colour::Black => Colour::White,
        }
    }

    #[inline(always)]
    pub fn idx(self) -> (r: usize)
        ensures
            r == self@,
    {
        match self {
            Colour::White => 0,
            Colour::Black => 1,
        }
    }

    #[inline(always)]
    pub fn opposite(self) -> (r: Colour)
        ensures
            r == self.other(),
    {
        match self {
            Colour::White => Colour::Black,
            Colour::Black => Colour::White,
        }
    }
}

#[derive(Copy, Clone, Eq, PartialEq, Debug, Structural)]
pub enum Piece {
    Pawn,
    Knight,
    Bishop,
    Rook,
    Queen,
    King,
}

impl Piece {
    /// `0` for pawns up to `5` for kings.
    pub open spec fn view(self) -> nat {
        match self {
            Piece::Pawn => 0,
            Piece::Knight => 1,
            Piece::Bishop => 2,
            Piece::Rook => 3,
            Piece::Queen => 4,
            Piece::King => 5,
        }
    }

    pub open spec fn from_index(i: int) -> Piece {
        if i == 0 {
            Piece::Pawn
        } else if i == 1 {
            Piece::Knight
        } else if i == 2 {
            Piece::Bishop
        } else if i == 3 {
            Piece::Rook
        } else if i == 4 {
            Piece::Queen
        } else {
            Piece::King
        }
    }

    pub fn idx(self) -> (r: usize)
        ensures
            r == self@,
    {
        match self {
            Piece::Pawn => 0,
            Piece::Knight => 1,
            Piece::Bishop => 2,
            Piece::Rook => 3,
            Piece::Queen => 4,
            Piece::King => 5,
        }
    }
}

/// A coloured piece, numbered as in the polyglot book format: bits 1-3 hold the piece
/// type and bit 0 is set for white; `EMPTY` (12) marks an empty square.
#[derive(Copy, Clone, Eq, PartialEq, Debug, Structural)]
pub enum PieceCode {
    BlackPawn,
    WhitePawn,
    BlackKnight,
    WhiteKnight,
    BlackBishop,
    WhiteBishop,
    BlackRook,
    WhiteRook,
    BlackQueen,
    WhiteQueen,
    BlackKing,
    WhiteKing,
    EMPTY,
}

/// The code of a coloured piece: `2 * piece + 1` for white, `2 * piece` for black.
pub open spec fn code_of(c: Colour, p: Piece) -> nat {
    (p@ * 2 + (1 - c@)) as nat
}

impl PieceCode {
    pub open spec fn view(self) -> nat {
        match self {
            PieceCode::BlackPawn => 0,
            PieceCode::WhitePawn => 1,
            PieceCode::BlackKnight => 2,
            PieceCode::WhiteKnight => 3,
            PieceCode::BlackBishop => 4,
            PieceCode::WhiteBishop => 5,
            PieceCode::BlackRook => 6,
            PieceCode::WhiteRook => 7,
            PieceCode::BlackQueen => 8,
            PieceCode::WhiteQueen => 9,
            PieceCode::BlackKing => 10,
            PieceCode::WhiteKing => 11,
            PieceCode::EMPTY => 12,
        }
    }

    /// The code of `piece` in colour `colour`.
    pub open spec fn of(colour: Colour, piece: Piece) -> PieceCode {
        match (colour, piece) {
            (Colour::Black, Piece::Pawn) => PieceCode::BlackPawn,
            (Colour::White, Piece::Pawn) => PieceCode::WhitePawn,
            (Colour::Black, Piece::Knight) => PieceCode::BlackKnight,
            (Colour::White, Piece::Knight) => PieceCode::WhiteKnight,
            (Colour::Black, Piece::Bishop) => PieceCode::BlackBishop,
            (Colour::White, Piece::Bishop) => PieceCode::WhiteBishop,
            (Colour::Black, Piece::Rook) => PieceCode::BlackRook,
            (Colour::White, Piece::Rook) => PieceCode::WhiteRook,
            (Colour::Black, Piece::Queen) => PieceCode::BlackQueen,
            (Colour::White, Piece::Queen) => PieceCode::WhiteQueen,
            (Colour::Black, Piece::King) => PieceCode::BlackKing,
            (Colour::White, Piece::King) => PieceCode::WhiteKing,
        }
    }

    pub open spec fn colour_of(self) -> Option<Colour> {
        if self@ == 12 {
            None
        } else if self@ % 2 == 1 {
            Some(Colour::White)
        } else {
            Some(Colour::Black)
        }
    }

    pub open spec fn piece_of(self) -> Option<Piece> {
        if self@ == 12 {
            None
        } else {
            Some(Piece::from_index((self@ / 2) as int))
        }
    }

    pub proof fn lemma_of(colour: Colour, piece: Piece)
        ensures
            PieceCode::of(colour, piece)@ == code_of(colour, piece),
            PieceCode::of(colour, piece).colour_of() == Some(colour),
            PieceCode::of(colour, piece).piece_of() == Some(piece),
            PieceCode::of(colour, piece) != PieceCode::EMPTY,
    {
    }

    /// Codes with the same colour and piece are the same code.
    pub proof fn lemma_determined(a: PieceCode)
        ensures
            a != PieceCode::EMPTY ==> a == PieceCode::of(
                a.colour_of().unwrap(),
                a.piece_of().unwrap(),
            ),
            a@ <= 12,
    {
    }

    pub fn new(colour: Colour, piece: Piece) -> (r: PieceCode)
        ensures
            r == PieceCode::of(colour, piece),
            r@ == code_of(colour, piece),
    {
        proof {
            PieceCode::lemma_of(colour, piece);
        }
        match (colour, piece) {
            (Colour::Black, Piece::Pawn) => PieceCode::BlackPawn,
            (Colour::White, Piece::Pawn) => PieceCode::WhitePawn,
            (Colour::Black, Piece::Knight) => PieceCode::BlackKnight,
            (Colour::White, Piece::Knight) => PieceCode::WhiteKnight,
            (Colour::Black, Piece::Bishop) => PieceCode::BlackBishop,
            (Colour::White, Piece::Bishop) => PieceCode::WhiteBishop,
            (Colour::Black, Piece::Rook) => PieceCode::BlackRook,
            (Colour::White, Piece::Rook) => PieceCode::WhiteRook,
            (Colour::Black, Piece::Queen) => PieceCode::BlackQueen,
            (Colour::White, Piece::Queen) => PieceCode::WhiteQueen,
            (Colour::Black, Piece::King) => PieceCode::BlackKing,
            (Colour::White, Piece::King) => PieceCode::WhiteKing,
        }
    }

    #[inline(always)]
    pub fn idx(self) -> (r: usize)
        ensures
            r == self@,
    {
        match self {
            PieceCode::BlackPawn => 0,
            PieceCode::WhitePawn => 1,
            PieceCode::BlackKnight => 2,
            PieceCode::WhiteKnight => 3,
            PieceCode::BlackBishop => 4,
            PieceCode::WhiteBishop => 5,
            PieceCode::BlackRook => 6,
            PieceCode::WhiteRook => 7,
            PieceCode::BlackQueen => 8,
            PieceCode::WhiteQueen => 9,
            PieceCode::BlackKing => 10,
            PieceCode::WhiteKing => 11,
            PieceCode::EMPTY => 12,
        }
    }

    #[inline(always)]
    pub fn is_empty(self) -> (r: bool)
        ensures
            r == (self == PieceCode::EMPTY),
            r == (self@ == 12),
    {
        match self {
            PieceCode::EMPTY => true,
            _ => false,
        }
    }

    /// The colour of the piece, or `None` for an empty square.
    #[inline(always)]
    pub fn colour(self) -> (r: Option<Colour>)
        ensures
            r == self.colour_of(),
    {
        if self.is_empty() {
            return None;
        }
        if self.idx() % 2 == 1 {
            Some(Colour::White)
        } else {
            Some(Colour::Black)
        }
    }

    /// The piece type, or `None` for an empty square.
    #[inline(always)]
    pub fn piece(self) -> (r: Option<Piece>)
        ensures
            r == self.piece_of(),
    {
        if self.is_empty() {
            return None;
        }
        match self.idx() / 2 {
            0 => Some(Piece::Pawn),
            1 => Some(Piece::Knight),
            2 => Some(Piece::Bishop),
            3 => Some(Piece::Rook),
            4 => Some(Piece::Queen),
            _ => Some(Piece::King),
        }
    }

    /// The code of a FEN piece letter: upper case for white, lower case for black.
    pub fn from_char(c: char) -> (r: Option<PieceCode>)
        ensures
            r == piece_code_of_char(c),
    {
        match c {
            'P' => Some(PieceCode::WhitePawn),
            'N' => Some(PieceCode::WhiteKnight),
            'B' => Some(PieceCode::WhiteBishop),
            'R' => Some(PieceCode::WhiteRook),
            'Q' => Some(PieceCode::WhiteQueen),
            'K' => Some(PieceCode::WhiteKing),
            'p' => Some(PieceCode::BlackPawn),
            'n' => Some(PieceCode::BlackKnight),
            'b' => Some(PieceCode::BlackBishop),
            'r' => Some(PieceCode::BlackRook),
            'q' => Some(PieceCode::BlackQueen),
            'k' => Some(PieceCode::BlackKing),
            _ => None,
        }
    }

    /// The FEN letter of a piece code.
    pub fn to_char(self) -> (r: char)
        requires
            self != PieceCode::EMPTY,
        ensures
            piece_code_of_char(r) == Some(self),
    {
        match self {
            PieceCode::WhitePawn => 'P',
            PieceCode::WhiteKnight => 'N',
            PieceCode::WhiteBishop => 'B',
            PieceCode::WhiteRook => 'R',
            PieceCode::WhiteQueen => 'Q',
            PieceCode::WhiteKing => 'K',
            PieceCode::BlackPawn => 'p',
            PieceCode::BlackKnight => 'n',
            PieceCode::BlackBishop => 'b',
            PieceCode::BlackRook => 'r',
            PieceCode::BlackQueen => 'q',
            _ => 'k',
        }
    }
}

/// The piece code named by a FEN letter (`PNBRQK` white, `pnbrqk` black).
pub open spec fn piece_code_of_char(c: char) -> Option<PieceCode> {
    if c == 'P' {
        Some(PieceCode::of(Colour::White, Piece::Pawn))
    } else if c == 'N' {
        Some(PieceCode::of(Colour::White, Piece::Knight))
    } else if c == 'B' {
        Some(PieceCode::of(Colour::White, Piece::Bishop))
    } else if c == 'R' {
        Some(PieceCode::of(Colour::White, Piece::Rook))
    } else if c == 'Q' {
        Some(PieceCode::of(Colour::White, Piece::Queen))
    } else if c == 'K' {
        Some(PieceCode::of(Colour::White, Piece::King))
    } else if c == 'p' {
        Some(PieceCode::of(Colour::Black, Piece::Pawn))
    } else if c == 'n' {
        Some(PieceCode::of(Colour::Black, Piece::Knight))
    } else if c == 'b' {
        Some(PieceCode::of(Colour::Black, Piece::Bishop))
    } else if c == 'r' {
        Some(PieceCode::of(Colour::Black, Piece::Rook))
    } else if c == 'q' {
        Some(PieceCode::of(Colour::Black, Piece::Queen))
    } else if c == 'k' {
        Some(PieceCode::of(Colour::Black, Piece::King))
    } else {
        None
    }
}

// --- Mailbox ---
/// The piece code on each of the 64 squares.
#[derive(Copy, Clone, Eq, PartialEq, Debug)]
pub struct Mailbox(pub [PieceCode; 64]);

impl Mailbox {
    pub open spec fn view(&self) -> Seq<PieceCode> {
        self.0@
    }

    /// The empty board.
    pub fn new() -> (r: Mailbox)
        ensures
            r@ == Seq::new(64, |i: int| PieceCode::EMPTY),
    {
        let r = Mailbox([PieceCode::EMPTY; 64]);
        assert(r@ =~= Seq::new(64, |i: int| PieceCode::EMPTY));
        r
    }

    #[inline(always)]
    pub fn set_square(&mut self, square: Square, pc: PieceCode)
        requires
            square@ < 64,
        ensures
            final(self)@ == old(self)@.update(square@ as int, pc),
    {
        self.0[square.idx()] = pc;
    }

    #[inline(always)]
    pub fn clear_square(&mut self, square: Square)
        requires
            square@ < 64,
        ensures
            final(self)@ == old(self)@.update(square@ as int, PieceCode::EMPTY),
    {
        self.0[square.idx()] = PieceCode::EMPTY;
    }

    #[inline(always)]
    pub fn piece_code_at(&self, square: Square) -> (r: PieceCode)
        requires
            square@ < 64,
        ensures
            r == self@[square@ as int],
    {
        self.0[square.idx()]
    }

    #[inline(always)]
    pub fn piece_at(&self, square: Square) -> (r: Option<Piece>)
        requires
            square@ < 64,
        ensures
            r == self@[square@ as int].piece_of(),
    {
        self.piece_code_at(square).piece()
    }

    /// Every square with its piece code, in square order.
    pub fn iter(&self) -> (r: Vec<(Square, PieceCode)>)
        ensures
            r@.len() == 64,
            forall|i: int| 0 <= i < 64 ==> #[trigger] r@[i] == (Square::from_index(i), self@[i]),
    {
        let mut out: Vec<(Square, PieceCode)> = Vec::new();
        let mut i: u8 = 0;
        while i < 64
            invariant
                i <= 64,
                out@.len() == i,
                forall|j: int| 0 <= j < i ==> #[trigger] out@[j] == (Square::from_index(j), self@[j]),
            decreases 64 - i,
        {
            let sq = Square::new(i);
            out.push((sq, self.0[i as usize]));
            i = i + 1;
        }
        out
    }

    /// The occupied squares with their piece codes, in square order.
    pub fn iter_occupied(&self) -> (r: Vec<(Square, PieceCode)>)
        ensures
            r@ == self.iter_spec(64),
    {
        let mut out: Vec<(Square, PieceCode)> = Vec::new();
        let mut i: u8 = 0;
        while i < 64
            invariant
                i <= 64,
                out@ == self.iter_spec(i as int),
            decreases 64 - i,
        {
            let pc = self.0[i as usize];
            if !pc.is_empty() {
                out.push((Square::new(i), pc));
            }
            i = i + 1;
        }
        out
    }

    /// The occupied squares below index `n` with their codes, in square order.
    pub open spec fn iter_spec(&self, n: int) -> Seq<(Square, PieceCode)>
        decreases n,
    {
        if n <= 0 {
            Seq::empty()
        } else if self@[n - 1] == PieceCode::EMPTY {
            self.iter_spec(n - 1)
        } else {
            self.iter_spec(n - 1).push((Square::from_index(n - 1), self@[n - 1]))
        }
    }
}

// --- Castling ---
#[derive(Copy, Clone, Eq, PartialEq, Debug, Structural)]
pub enum CastlingType {
    Kingside,
    Queenside,
}

/// The rights that survive a move touching square `sq`: moving the king or a rook from
/// its home square, or capturing a rook there, drops the matching rights.
pub open spec fn castling_mask(sq: int) -> nat {
    if sq == 0 {
        13
    } else if sq == 7 {
        14
    } else if sq == 4 {
        12
    } else if sq == 56 {
        7
    } else if sq == 63 {
        11
    } else if sq == 60 {
        3
    } else {
        15
    }
}

fn castling_mask_of(sq: Square) -> (r: u8)
    ensures
        r == castling_mask(sq@ as int),
{
    match sq.u8() {
        0 => 13,
        7 => 14,
        4 => 12,
        56 => 7,
        63 => 11,
        60 => 3,
        _ => 15,
    }
}

#[allow(non_camel_case_types)]
#[derive(Copy, Clone, Eq, PartialEq, Debug, Structural)]
pub enum Castling {
    NONE,
    WHITE_OO,
    WHITE_OOO,
    WHITE_CASTLING,
    BLACK_OO,
    KINGSIDE,
    WHITE_OOO_BLACK_OO,
    WHITE_CASTLING_BLACK_OO,
    BLACK_OOO,
    WHITE_OO_BLACK_OOO,
    QUEENSIDE,
    WHITE_CASTLING_BLACK_OOO,
    BLACK_CASTLING,
    WHITE_OO_BLACK_CASTLING,
    WHITE_OOO_BLACK_CASTLING,
    DEFAULT,
}

impl Castling {
    /// The rights as a 4-bit set: bit 0 white kingside, bit 1 white queenside,
    /// bit 2 black kingside, bit 3 black queenside.
    pub open spec fn view(self) -> nat {
        match self {
            Castling::NONE => 0,
            Castling::WHITE_OO => 1,
            Castling::WHITE_OOO => 2,
            Castling::WHITE_CASTLING => 3,
            Castling::BLACK_OO => 4,
            Castling::KINGSIDE => 5,
            Castling::WHITE_OOO_BLACK_OO => 6,
            Castling::WHITE_CASTLING_BLACK_OO => 7,
            Castling::BLACK_OOO => 8,
            Castling::WHITE_OO_BLACK_OOO => 9,
            Castling::QUEENSIDE => 10,
            Castling::WHITE_CASTLING_BLACK_OOO => 11,
            Castling::BLACK_CASTLING => 12,
            Castling::WHITE_OO_BLACK_CASTLING => 13,
            Castling::WHITE_OOO_BLACK_CASTLING => 14,
            Castling::DEFAULT => 15,
        }
    }

    pub open spec fn from_bits_spec(b: int) -> Castling {
        if b == 0 {
            Castling::NONE
        }
        else if b == 1 {
            Castling::WHITE_OO
        }
        else if b == 2 {
            Castling::WHITE_OOO
        }
        else if b == 3 {
            Castling::WHITE_CASTLING
        }
        else if b == 4 {
            Castling::BLACK_OO
        }
        else if b == 5 {
            Castling::KINGSIDE
        }
        else if b == 6 {
            Castling::WHITE_OOO_BLACK_OO
        }
        else if b == 7 {
            Castling::WHITE_CASTLING_BLACK_OO
        }
        else if b == 8 {
            Castling::BLACK_OOO
        }
        else if b == 9 {
            Castling::WHITE_OO_BLACK_OOO
        }
        else if b == 10 {
            Castling::QUEENSIDE
        }
        else if b == 11 {
            Castling::WHITE_CASTLING_BLACK_OOO
        }
        else if b == 12 {
            Castling::BLACK_CASTLING
        }
        else if b == 13 {
            Castling::WHITE_OO_BLACK_CASTLING
        }
        else if b == 14 {
            Castling::WHITE_OOO_BLACK_CASTLING
        }
        else {
            Castling::DEFAULT
        }
    }

    /// The rights with the given bits.
    pub fn new(bits: u8) -> (r: Castling)
        requires
            bits < 16,
        ensures
            r@ == bits,
            r == Castling::from_bits_spec(bits as int),
    {
        match bits {
            0u8 => Castling::NONE,
            1u8 => Castling::WHITE_OO,
            2u8 => Castling::WHITE_OOO,
            3u8 => Castling::WHITE_CASTLING,
            4u8 => Castling::BLACK_OO,
            5u8 => Castling::KINGSIDE,
            6u8 => Castling::WHITE_OOO_BLACK_OO,
            7u8 => Castling::WHITE_CASTLING_BLACK_OO,
            8u8 => Castling::BLACK_OOO,
            9u8 => Castling::WHITE_OO_BLACK_OOO,
            10u8 => Castling::QUEENSIDE,
            11u8 => Castling::WHITE_CASTLING_BLACK_OOO,
            12u8 => Castling::BLACK_CASTLING,
            13u8 => Castling::WHITE_OO_BLACK_CASTLING,
            14u8 => Castling::WHITE_OOO_BLACK_CASTLING,
            _ => Castling::DEFAULT,
        }
    }

    /// The rights as bits.
    pub fn bits(self) -> (r: u8)
        ensures
            r == self@,
    {
        match self {
            Castling::NONE => 0u8,
            Castling::WHITE_OO => 1u8,
            Castling::WHITE_OOO => 2u8,
            Castling::WHITE_CASTLING => 3u8,
            Castling::BLACK_OO => 4u8,
            Castling::KINGSIDE => 5u8,
            Castling::WHITE_OOO_BLACK_OO => 6u8,
            Castling::WHITE_CASTLING_BLACK_OO => 7u8,
            Castling::BLACK_OOO => 8u8,
            Castling::WHITE_OO_BLACK_OOO => 9u8,
            Castling::QUEENSIDE => 10u8,
            Castling::WHITE_CASTLING_BLACK_OOO => 11u8,
            Castling::BLACK_CASTLING => 12u8,
            Castling::WHITE_OO_BLACK_CASTLING => 13u8,
            Castling::WHITE_OOO_BLACK_CASTLING => 14u8,
            Castling::DEFAULT => 15u8,
        }
    }

    pub proof fn lemma_from_bits_view(c: Castling)
        ensures
            Castling::from_bits_spec(c@ as int) == c,
            c@ < 16,
    {
    }

    #[inline(always)]
    pub fn without(self, other: Castling) -> (r: Castling)
        ensures
            r@ == (self@ as u8) & !(other@ as u8),
    {
        let sb = self.bits();
        let ob = other.bits();
        let b = sb & !ob;
        assert(b < 16) by (bit_vector)
            requires
                b == sb & !ob,
                sb < 16,
        ;
        Castling::new(b)
    }

    /// The union of two sets of rights.
    #[inline(always)]
    pub fn union(self, other: Castling) -> (r: Castling)
        ensures
            r@ == (self@ as u8) | (other@ as u8),
    {
        let sb = self.bits();
        let ob = other.bits();
        let b = sb | ob;
        assert(b < 16) by (bit_vector)
            requires
                b == sb | ob,
                sb < 16,
                ob < 16,
        ;
        Castling::new(b)
    }

    /// Whether every right in `other` is held.
    #[inline(always)]
    pub fn contains(self, other: Castling) -> (r: bool)
        ensures
            r == ((self@ as u8) & (other@ as u8) == (other@ as u8)),
    {
        self.bits() & other.bits() == other.bits()
    }

    /// Drops the rights lost by a move from `from` to `to`: a king or rook leaving its
    /// home square, or a rook captured on its home square.
    #[inline(always)]
    pub fn update(&mut self, from: Square, to: Square)
        ensures
            final(self)@ == (old(self)@ as u8) & (castling_mask(from@ as int) as u8) & (
            castling_mask(to@ as int) as u8),
    {
        let sb = self.bits();
        let mf = castling_mask_of(from);
        let mt = castling_mask_of(to);
        let b = sb & (mf & mt);
        assert(b < 16 && b == sb & mf & mt) by (bit_vector)
            requires
                b == sb & (mf & mt),
                sb < 16,
        ;
        *self = Castling::new(b);
    }

    /// The rook's move (from, to) for a castle of the given colour and side.
    #[inline(always)]
    pub fn get_rook_squares_from_castle(colour: Colour, side: CastlingType) -> (r: (
        Square,
        Square,
    ))
        ensures
            r == rook_castle_squares(colour, side),
    {
        match (colour, side) {
            (Colour::White, CastlingType::Kingside) => (Square::H1, Square::F1),
            (Colour::White, CastlingType::Queenside) => (Square::A1, Square::D1),
            (Colour::Black, CastlingType::Kingside) => (Square::H8, Square::F8),
            (Colour::Black, CastlingType::Queenside) => (Square::A8, Square::D8),
        }
    }

    #[inline(always)]
    pub fn can_white_ks(self) -> (r: bool)
        ensures
            r == ((self@ as u8) & 1u8 == 1u8),
    {
        self.contains(Castling::WHITE_OO)
    }

    #[inline(always)]
    pub fn can_white_qs(self) -> (r: bool)
        ensures
            r == ((self@ as u8) & 2u8 == 2u8),
    {
        self.contains(Castling::WHITE_OOO)
    }

    #[inline(always)]
    pub fn can_black_ks(self) -> (r: bool)
        ensures
            r == ((self@ as u8) & 4u8 == 4u8),
    {
        self.contains(Castling::BLACK_OO)
    }

    #[inline(always)]
    pub fn can_black_qs(self) -> (r: bool)
        ensures
            r == ((self@ as u8) & 8u8 == 8u8),
    {
        self.contains(Castling::BLACK_OOO)
    }
}

/// Where the rook goes from and to when `colour` castles on `side`.
pub open spec fn rook_castle_squares(colour: Colour, side: CastlingType) -> (Square, Square) {
    match (colour, side) {
        (Colour::White, CastlingType::Kingside) => (Square::H1, Square::F1),
        (Colour::White, CastlingType::Queenside) => (Square::A1, Square::D1),
        (Colour::Black, CastlingType::Kingside) => (Square::H8, Square::F8),
        (Colour::Black, CastlingType::Queenside) => (Square::A8, Square::D8),
    }
}

impl Default for Castling {
    fn default() -> (r: Castling)
        ensures
            r == Castling::DEFAULT,
    {
        Castling::DEFAULT
    }
}

// --- Moves ---
/// The 4-bit kind of a move: bit 2 marks captures, bit 3 promotions, and the low two bits
/// name the promotion piece (knight, bishop, rook, queen).
#[derive(Copy, Clone, Eq, PartialEq, Debug, Structural)]
pub enum MoveFlag {
    Quiet,
    DoublePush,
    KingCastle,
    QueenCastle,
    Capture,
    EpCapture,
    PromoN,
    PromoB,
    PromoR,
    PromoQ,
    PromoCaptureN,
    PromoCaptureB,
    PromoCaptureR,
    PromoCaptureQ,
}

/// Whether `b` is the bit pattern of a move flag (every 4-bit value but 6 and 7).
pub open spec fn valid_flag_bits(b: int) -> bool {
    0 <= b < 16 && b != 6 && b != 7
}

impl MoveFlag {
    pub open spec fn view(self) -> nat {
        match self {
            MoveFlag::Quiet => 0,
            MoveFlag::DoublePush => 1,
            MoveFlag::KingCastle => 2,
            MoveFlag::QueenCastle => 3,
            MoveFlag::Capture => 4,
            MoveFlag::EpCapture => 5,
            MoveFlag::PromoN => 8,
            MoveFlag::PromoB => 9,
            MoveFlag::PromoR => 10,
            MoveFlag::PromoQ => 11,
            MoveFlag::PromoCaptureN => 12,
            MoveFlag::PromoCaptureB => 13,
            MoveFlag::PromoCaptureR => 14,
            MoveFlag::PromoCaptureQ => 15,
        }
    }

    pub open spec fn from_bits_spec(b: int) -> MoveFlag {
        if b == 1 {
            MoveFlag::DoublePush
        } else if b == 2 {
            MoveFlag::KingCastle
        } else if b == 3 {
            MoveFlag::QueenCastle
        } else if b == 4 {
            MoveFlag::Capture
        } else if b == 5 {
            MoveFlag::EpCapture
        } else if b == 8 {
            MoveFlag::PromoN
        } else if b == 9 {
            MoveFlag::PromoB
        } else if b == 10 {
            MoveFlag::PromoR
        } else if b == 11 {
            MoveFlag::PromoQ
        } else if b == 12 {
            MoveFlag::PromoCaptureN
        } else if b == 13 {
            MoveFlag::PromoCaptureB
        } else if b == 14 {
            MoveFlag::PromoCaptureR
        } else if b == 15 {
            MoveFlag::PromoCaptureQ
        } else {
            MoveFlag::Quiet
        }
    }

    pub proof fn lemma_view(f: MoveFlag)
        ensures
            valid_flag_bits(f@ as int),
            MoveFlag::from_bits_spec(f@ as int) == f,
    {
    }

    /// The flag with the given bits.
    pub fn from_bits(b: u8) -> (r: MoveFlag)
        requires
            valid_flag_bits(b as int),
        ensures
            r@ == b,
            r == MoveFlag::from_bits_spec(b as int),
    {
        match b {
            1 => MoveFlag::DoublePush,
            2 => MoveFlag::KingCastle,
            3 => MoveFlag::QueenCastle,
            4 => MoveFlag::Capture,
            5 => MoveFlag::EpCapture,
            8 => MoveFlag::PromoN,
            9 => MoveFlag::PromoB,
            10 => MoveFlag::PromoR,
            11 => MoveFlag::PromoQ,
            12 => MoveFlag::PromoCaptureN,
            13 => MoveFlag::PromoCaptureB,
            14 => MoveFlag::PromoCaptureR,
            15 => MoveFlag::PromoCaptureQ,
            _ => MoveFlag::Quiet,
        }
    }

    pub fn bits(self) -> (r: u8)
        ensures
            r == self@,
    {
        match self {
            MoveFlag::Quiet => 0,
            MoveFlag::DoublePush => 1,
            MoveFlag::KingCastle => 2,
            MoveFlag::QueenCastle => 3,
            MoveFlag::Capture => 4,
            MoveFlag::EpCapture => 5,
            MoveFlag::PromoN => 8,
            MoveFlag::PromoB => 9,
            MoveFlag::PromoR => 10,
            MoveFlag::PromoQ => 11,
            MoveFlag::PromoCaptureN => 12,
            MoveFlag::PromoCaptureB => 13,
            MoveFlag::PromoCaptureR => 14,
            MoveFlag::PromoCaptureQ => 15,
        }
    }

    #[inline(always)]
    pub fn u16(self) -> (r: u16)
        ensures
            r == self@,
    {
        self.bits() as u16
    }

    /// Whether every bit of `other` is set in this flag.
    pub fn contains(self, other: MoveFlag) -> (r: bool)
        ensures
            r == ((self@ as u8) & (other@ as u8) == (other@ as u8)),
    {
        self.bits() & other.bits() == other.bits()
    }

    /// The flag with the bits of both flags; a promotion flag joined with `Capture`
    /// gives the matching capturing promotion.
    pub fn union(self, other: MoveFlag) -> (r: MoveFlag)
        requires
            valid_flag_bits(((self@ as u8) | (other@ as u8)) as int),
        ensures
            r@ == (self@ as u8) | (other@ as u8),
    {
        MoveFlag::from_bits(self.bits() | other.bits())
    }
}

/// Bits 0-5: source square, bits 6-11: destination square, bits 12-15: flag.
#[derive(Copy, Clone, Eq, PartialEq, Debug, Structural)]
pub struct Move(u16);

impl Move {
    /// The packed value of the move.
    pub closed spec fn bits(self) -> nat {
        self.0 as nat
    }

    /// The move whose packed value is `code`.
    pub closed spec fn of_code(code: u16) -> Move {
        Move(code)
    }

    /// Every move is the move of its packed value, which fits in 16 bits.
    pub proof fn lemma_code(m: Move)
        ensures
            m.bits() < 65536,
            Move::of_code(m.bits() as u16) == m,
    {
    }

    #[verifier::type_invariant]
    spec fn inv(self) -> bool {
        valid_flag_bits((self.0 / 4096) as int)
    }

    pub closed spec fn from_index(self) -> nat {
        self.bits() % 64
    }

    pub closed spec fn to_index(self) -> nat {
        (self.bits() / 64) % 64
    }

    pub closed spec fn flag_of(self) -> MoveFlag {
        MoveFlag::from_bits_spec((self.bits() / 4096) as int)
    }

    /// Whether the packed value is the one its squares and flag give; true of every move.
    pub open spec fn canonical(self) -> bool {
        self.bits() == Move::packed(self.from_index(), self.to_index(), self.flag_of())
    }

    /// Canonical moves with the same squares and flag are the same move.
    pub proof fn lemma_canonical_eq(a: Move, b: Move)
        requires
            a.canonical(),
            b.canonical(),
            a.from_index() == b.from_index(),
            a.to_index() == b.to_index(),
            a.flag_of() == b.flag_of(),
        ensures
            a == b,
    {
    }

    /// The squares of a move are board squares.
    pub proof fn lemma_indices(m: Move)
        ensures
            m.from_index() < 64,
            m.to_index() < 64,
    {
    }

    /// The packed value of a move from `from` to `to` with flag `flag`.
    pub open spec fn packed(from: nat, to: nat, flag: MoveFlag) -> nat {
        from + to * 64 + flag@ * 4096
    }

    /// Moves with the same packed value are the same move.
    pub proof fn lemma_bits_injective(a: Move, b: Move)
        ensures
            a.bits() == b.bits() ==> a == b,
            a.bits() < 65536,
    {
    }

    pub proof fn lemma_packed(from: nat, to: nat, flag: MoveFlag)
        requires
            from < 64,
            to < 64,
        ensures
            Move::packed(from, to, flag) % 64 == from,
            (Move::packed(from, to, flag) / 64) % 64 == to,
            MoveFlag::from_bits_spec((Move::packed(from, to, flag) / 4096) as int) == flag,
            Move::packed(from, to, flag) < 65536,
    {
        MoveFlag::lemma_view(flag);
        let p = Move::packed(from, to, flag);
        assert(p / 4096 == flag@) by (nonlinear_arith)
            requires
                p == from + to * 64 + flag@ * 4096,
                from < 64,
                to < 64,
        ;
        assert(p % 64 == from && (p / 64) % 64 == to) by (nonlinear_arith)
            requires
                p == from + to * 64 + flag@ * 4096,
                from < 64,
                to < 64,
        ;
    }

    /// The move from `from` to `to` with flag `flag`.
    #[inline(always)]
    pub fn new(from: Square, to: Square, flag: MoveFlag) -> (r: Move)
        requires
            from@ < 64,
            to@ < 64,
        ensures
            r.bits() == Move::packed(from@, to@, flag),
            r.from_index() == from@,
            r.to_index() == to@,
            r.flag_of() == flag,
            r.canonical(),
    {
        let f = from.u16();
        let t = to.u16();
        let fl = flag.u16();
        assert(f | t << 6u16 | fl << 12u16 == f + t * 64 + fl * 4096) by (bit_vector)
            requires
                f < 64,
                t < 64,
                fl < 16,
        ;
        proof {
            Move::lemma_packed(from@, to@, flag);
            MoveFlag::lemma_view(flag);
        }
        Move(f | t << 6 | fl << 12)
    }

    /// The null move as a value.
    pub closed spec fn null_spec() -> Move {
        Move(0)
    }

    /// The null move (a1 to a1, quiet).
    pub fn null() -> (r: Move)
        ensures
            r.bits() == 0,
            r == Move::null_spec(),
    {
        Move(0)
    }

    #[inline(always)]
    pub fn from(self) -> (r: Square)
        ensures
            r@ == self.from_index(),
            r@ < 64,
    {
        let x = self.0;
        assert(x & 0x3Fu16 == x % 64) by (bit_vector);
        Square::new((x & 0x3F) as u8)
    }

    #[inline(always)]
    pub fn to(self) -> (r: Square)
        ensures
            r@ == self.to_index(),
            r@ < 64,
    {
        let x = self.0;
        assert((x >> 6u16) & 0x3Fu16 == (x / 64) % 64) by (bit_vector);
        Square::new(((x >> 6) & 0x3F) as u8)
    }

    #[inline(always)]
    pub fn flag(self) -> (r: MoveFlag)
        ensures
            r == self.flag_of(),
    {
        proof {
            use_type_invariant(&self);
        }
        let x = self.0;
        assert(x >> 12u16 == x / 4096) by (bit_vector);
        MoveFlag::from_bits((x >> 12) as u8)
    }

    #[inline(always)]
    pub fn is_capture(self) -> (r: bool)
        ensures
            r == self.flag_of().is_capture(),
    {
        self.flag().contains(MoveFlag::Capture)
    }

    #[inline(always)]
    pub fn is_ep_capture(self) -> (r: bool)
        ensures
            r == (self.flag_of() == MoveFlag::EpCapture),
    {
        self.flag() == MoveFlag::EpCapture
    }

    /// The square of the pawn taken by an en passant capture landing on rank 6 or 3.
    #[inline(always)]
    pub fn get_ep_pawn_square(self) -> (r: Square)
        requires
            rank_of(self.to_index() as int) == 5 || rank_of(self.to_index() as int) == 2,
        ensures
            r@ == ep_pawn_index(self.to_index() as int),
    {
        let to = self.to();
        if to.rank() == 5 {
            Square::new(to.u8() - 8)
        } else {
            Square::new(to.u8() + 8)
        }
    }

    #[inline(always)]
    pub fn is_promotion(self) -> (r: bool)
        ensures
            r == self.flag_of().is_promotion(),
    {
        self.flag().bits() & 8 != 0
    }

    #[inline(always)]
    pub fn promotion_piece(self) -> (r: Option<Piece>)
        ensures
            r == self.flag_of().promotion(),
    {
        if !self.is_promotion() {
            return None;
        }
        match self.flag().bits() & 3 {
            0 => Some(Piece::Knight),
            1 => Some(Piece::Bishop),
            2 => Some(Piece::Rook),
            _ => Some(Piece::Queen),
        }
    }

    #[inline(always)]
    pub fn is_castle(self) -> (r: bool)
        ensures
            r == self.flag_of().castle().is_some(),
    {
        self.castle_type().is_some()
    }

    #[inline(always)]
    pub fn castle_type(self) -> (r: Option<CastlingType>)
        ensures
            r == self.flag_of().castle(),
    {
        match self.flag() {
            MoveFlag::KingCastle => Some(CastlingType::Kingside),
            MoveFlag::QueenCastle => Some(CastlingType::Queenside),
            _ => None,
        }
    }

    #[inline(always)]
    pub fn is_double_push(self) -> (r: bool)
        ensures
            r == (self.flag_of() == MoveFlag::DoublePush),
    {
        self.flag() == MoveFlag::DoublePush
    }

    #[inline(always)]
    pub fn is_quiet(self) -> (r: bool)
        ensures
            r == (self.flag_of() == MoveFlag::Quiet),
    {
        self.flag() == MoveFlag::Quiet
    }

    #[inline(always)]
    pub fn is_null(self) -> (r: bool)
        ensures
            r == (self.bits() == 0),
            r == (self == Move::null_spec()),
    {
        self.0 == 0
    }
}

impl Default for Move {
    fn default() -> (r: Move)
        ensures
            r.bits() == 0,
    {
        Move(0)
    }
}

/// The square of the pawn taken en passant when the capturing pawn lands on `to`.
pub open spec fn ep_pawn_index(to: int) -> int {
    if rank_of(to) == 5 {
        to - 8
    } else {
        to + 8
    }
}

impl MoveFlag {
    pub open spec fn is_capture(self) -> bool {
        (self@ as u8) & 4u8 == 4u8
    }

    pub open spec fn is_promotion(self) -> bool {
        (self@ as u8) & 8u8 != 0u8
    }

    pub open spec fn promotion(self) -> Option<Piece> {
        if !self.is_promotion() {
            None
        } else if (self@ as u8) & 3u8 == 0u8 {
            Some(Piece::Knight)
        } else if (self@ as u8) & 3u8 == 1u8 {
            Some(Piece::Bishop)
        } else if (self@ as u8) & 3u8 == 2u8 {
            Some(Piece::Rook)
        } else {
            Some(Piece::Queen)
        }
    }

    pub open spec fn castle(self) -> Option<CastlingType> {
        match self {
            MoveFlag::KingCastle => Some(CastlingType::Kingside),
            MoveFlag::QueenCastle => Some(CastlingType::Queenside),
            _ => None,
        }
    }
}


/// The name of a square: its file letter and rank digit (`e4`).
pub open spec fn square_text(s: int) -> Seq<u8> {
    seq![(97 + file_of(s)) as u8, (49 + rank_of(s)) as u8]
}

/// The lowercase letter of a promotion piece.
pub open spec fn promo_letter(p: Piece) -> u8 {
    match p {
        Piece::Knight => 110,
        Piece::Bishop => 98,
        Piece::Rook => 114,
        _ => 113,
    }
}

/// A move in long algebraic notation: source and destination square, and the promotion
/// piece's letter when it promotes (`e7e8q`).
pub open spec fn uci_text(m: Move) -> Seq<u8> {
    square_text(m.from_index() as int) + square_text(m.to_index() as int) + match m.flag_of().promotion() {
        Some(p) => seq![promo_letter(p)],
        None => Seq::empty(),
    }
}

impl Square {
    /// Appends the name of the square (on the board) to `out`.
    pub fn push_name(self, out: &mut Vec<u8>)
        requires
            self@ < 64,
        ensures
            final(out)@ == old(out)@ + square_text(self@ as int),
    {
        let f = self.file();
        let r = self.rank();
        proof {
            assert(r < 8) by {
                assert(rank_of(self@ as int) == self@ / 8);
            }
        }
        out.push(97 + f);
        out.push(49 + r);
    }
}

impl Move {
    /// The move in long algebraic notation; see `uci_text`.
    pub fn uci_bytes(self) -> (r: Vec<u8>)
        ensures
            r@ == uci_text(self),
    {
        let mut out: Vec<u8> = Vec::new();
        self.from().push_name(&mut out);
        self.to().push_name(&mut out);
        match self.promotion_piece() {
            Some(p) => {
                let c: u8 = match p {
                    Piece::Knight => 110,
                    Piece::Bishop => 98,
                    Piece::Rook => 114,
                    _ => 113,
                };
                out.push(c);
            },
            None => {},
        }
        assert(out@ =~= uci_text(self));
        out
    }
}
} // verus!
