//! The engine of a falling-block puzzle: piece geometry with its per-shape
//! rotations, the row-indexed stack of settled cells with row clearing, the
//! ranking order of finished games, and the tick-driven game state machine.

pub mod block_stack;
pub mod blocks;
pub mod colours;
pub mod game;
pub mod highscore;
pub mod objects;
