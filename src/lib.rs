//! Rules engine of a chess variant: pieces with internal state (Skibidi phases, Goblin
//! cargo, Bus passengers), squares with terrain and conditions, legal-move generation,
//! move execution with post-move effects and Brainrot, and a FEN-like notation.
//!
//! Every function states its result over mathematical models of the board
//! (`board::BoardModel`) and of pieces (`pieces::PieceModel`).

pub mod board;
pub mod pieces;
pub mod movegen;
pub mod execute;
pub mod codec;
pub mod decode;
pub mod roundtrip;
pub mod laws;
pub mod api;
