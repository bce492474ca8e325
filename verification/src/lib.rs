//! A verified chess rules engine: board state, position parsing, attack and
//! move generation, legality filtering, move execution and perft counting.

pub mod attacks;
pub mod dump;
pub mod fen;
pub mod laws;
pub mod movegen;
pub mod moves;
pub mod perft;
pub mod state;
