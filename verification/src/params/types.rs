//! The evaluation parameters: the full set the evaluation reads and tunes, and the material
//! and piece-square subset of the lazy evaluation.
use vstd::prelude::*;

use crate::evaluate::Score;

verus! {

/// Every weight of the evaluation: piece-square tables, material, and the positional terms.
#[derive(Copy, Clone, Debug)]
pub struct Params {
    pub pawn_pst: [Score; 64],
    pub knight_pst: [Score; 64],
    pub bishop_pst: [Score; 64],
    pub rook_pst: [Score; 64],
    pub queen_pst: [Score; 64],
    pub king_pst: [Score; 64],
    pub pawn_value: Score,
    pub knight_value: Score,
    pub bishop_value: Score,
    pub rook_value: Score,
    pub queen_value: Score,
    pub knight_outpost: Score,
    pub defended_knight_outpost: Score,
    pub bishop_pair: Score,
    pub bishop_same_colour_pawns: [Score; 9],
    pub fianchetto: Score,
    pub bishop_outpost: Score,
    pub defended_bishop_outpost: Score,
    pub rook_open_file: Score,
    pub rook_semi_open_file: Score,
    pub rook_on_seventh: Score,
    pub rook_on_queen_file: Score,
    pub connected_doubled_rooks: Score,
    pub queen_undeveloped_piece_punishment: Score,
    pub queen_unmoved_king_punishment: Score,
    pub pawn_threat_minor: Score,
    pub pawn_threat_major: Score,
    pub hanging_minor: Score,
    pub hanging_rook: Score,
    pub hanging_queen: Score,
    pub minor_threat_queen: Score,
    pub rook_threat_queen: Score,
    pub doubled_pawns: Score,
    pub tripled_pawns: Score,
    pub quadrupled_pawns: Score,
    pub isolated_pawn: [Score; 4],
    pub backward_pawn: [Score; 4],
    pub weak_unopposed: Score,
    pub candidate_passer: [Score; 6],
    pub connected_bonus: [Score; 6],
    pub supported_bonus: [Score; 3],
    pub passed_pawn: [Score; 6],
    pub king_on_open_file: Score,
    pub king_on_semi_open_file: Score,
    pub king_shield_missing_pawn: Score,
    pub king_pawn_shield_distance: [Score; 4],
    pub enemy_pawn_distance_from_backrank: [Score; 4],
    pub king_ring_pawn_weight: Score,
    pub king_ring_knight_weight: Score,
    pub king_ring_bishop_weight: Score,
    pub king_ring_rook_weight: Score,
    pub king_ring_queen_weight: Score,
    pub king_ring_attacks: [Score; 24],
    pub knight_adj: [Score; 9],
    pub rook_adj: [Score; 9],
    pub knight_mobility: [Score; 9],
    pub bishop_mobility: [Score; 14],
    pub rook_mobility: [Score; 15],
    pub queen_mobility: [Score; 28],
}

/// The weights of the lazy evaluation: material and piece-square tables.
#[derive(Copy, Clone, Debug)]
pub struct LazyParams {
    pub pawn_pst: [Score; 64],
    pub knight_pst: [Score; 64],
    pub bishop_pst: [Score; 64],
    pub rook_pst: [Score; 64],
    pub queen_pst: [Score; 64],
    pub king_pst: [Score; 64],
    pub pawn_value: Score,
    pub knight_value: Score,
    pub bishop_value: Score,
    pub rook_value: Score,
    pub queen_value: Score,
}

} // verus!
