//! A Pijersi game engine: board representation, rules, move generation,
//! notation and search, with their behaviour stated in contracts.
pub mod bitboard;
pub mod board;
pub mod errors;
pub mod game;
pub mod hash;
pub mod piece;
pub mod logic;
pub mod search;
pub mod ugi;
pub mod utils;
