//! A terminal puzzle game of the "Tower of Hanoi" family: differently sized
//! pancakes are moved between plates, one at a time, a larger one never
//! resting on a smaller one, until the whole stack sits on the last plate.
//!
//! This crate is the game's core: the board, the cursor, and the move
//! engine (pickup, carry, drop, win detection), all verified. Terminal
//! input and drawing are left to a thin presentation layer outside it.

pub mod board;
pub mod cursor;
pub mod engine;
pub mod laws;
pub mod pancake;
pub mod view;
