use vstd::prelude::*;

use crate::block_stack::BlockStack;
use crate::blocks::Block;

verus! {

/// A cell coordinate on the board; `y` grows downward, `x` grows rightward.
#[derive(Copy, Clone, Debug, PartialEq, Eq, Structural)]
pub struct Point {
    pub x: i32,
    pub y: i32,
}

/// The movement requested by the latched player input.
#[derive(Copy, Clone, Debug, PartialEq, Eq, Structural)]
pub enum Movement {
    NONE,
    LEFT,
    RIGHT,
    RotateLeft,
    RotateRight,
}

/// What a renderer needs to draw one frame.
pub struct DrawState<'draw_run> {
    pub current_block: &'draw_run Block,
    pub next_block: &'draw_run Block,
    pub block_stack: &'draw_run BlockStack,
}

} // verus!
