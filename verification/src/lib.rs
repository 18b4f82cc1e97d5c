//! A chess engine core: board representation, legal-move generation,
//! game-state detection and an alpha-beta search agent.

pub mod agent;
pub mod apply;
pub mod ascii;
pub mod board;
pub mod book;
pub mod eval;
pub mod fen;
pub mod loc;
pub mod movegen;
pub mod piece;
