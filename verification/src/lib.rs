//! A checkers (draughts) rules engine.
//!
//! The engine keeps the whole board in four 64-bit square sets (white men,
//! black men, white kings, black kings) and derives every rule of the game
//! from masked shifts over those sets: diagonal movement, forced captures,
//! chained jumps, promotion and terminal-state detection.  The central
//! correctness concern is edge wraparound: a shift that is not masked first
//! bleeds moves across the board edges, so every directional operation here
//! is proved against a per-square geometric description of the move it
//! implements.

pub mod bitboard;
pub mod game;
pub mod moves;
pub mod session;
