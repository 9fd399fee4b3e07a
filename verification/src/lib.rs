pub mod bitboard;
pub mod book;
pub mod display;
pub mod endgame;
pub mod evaluate;
pub mod fen;
pub mod movegen;
pub mod movepick;
pub mod params;
pub mod position;
pub mod search;
pub mod tt;
pub mod tuning;
pub mod types;
pub mod uci;
pub mod zobrist;
