use vstd::prelude::*;

use crate::colours::{colours_for_level, palette_entry, palette_index};
use crate::game::GAME_WIDTH;
use crate::objects::Point;

verus! {

/// The shape of a piece. `DefaultBlock` is the empty placeholder and
/// `StackBlock` a single settled cell.
#[derive(Copy, Clone, Debug, PartialEq, Eq, Structural)]
pub enum BlockType {
    DefaultBlock,
    StackBlock,
    Long,
    Tee,
    Quad,
    StepLeft,
    StepRight,
    LLeft,
    LRight,
}

/// A piece: its cells in a fixed order (cell 1 is the pivot), its two colours
/// and its shape.
#[derive(Clone, Debug)]
pub struct Block {
    pieces: Vec<Point>,
    colour_1: &'static str,
    colour_2: &'static str,
    block_type: BlockType,
}

/// Column of the horizontal middle of the board (half of `GAME_WIDTH`),
/// around which pieces spawn.
pub const HALF_WIDTH: i32 = 8;

/// The point at offset `(dx, dy)` from `p`.
pub open spec fn at(p: Point, dx: int, dy: int) -> Point {
    Point { x: (p.x + dx) as i32, y: (p.y + dy) as i32 }
}

/// The point `(x, y)`.
pub open spec fn pt(x: int, y: int) -> Point {
    Point { x: x as i32, y: y as i32 }
}

/// Whether every offset the rotations apply to the pivot of `c` stays in `i32`.
pub open spec fn pivot_fits(c: Seq<Point>) -> bool {
    c.len() > 1 ==> {
        &&& i32::MIN + 1 <= c[1].x <= i32::MAX - 2
        &&& i32::MIN + 1 <= c[1].y <= i32::MAX - 2
    }
}

/// Number of cells a piece of shape `k` has.
pub open spec fn cell_count(k: BlockType) -> nat {
    match k {
        BlockType::DefaultBlock => 0,
        BlockType::StackBlock => 1,
        _ => 4,
    }
}

/// Whether `k` is one of the seven four-cell shapes.
pub open spec fn is_shape(k: BlockType) -> bool {
    cell_count(k) == 4
}

/// Long: toggles between a horizontal and a vertical line through the pivot.
pub open spec fn long_turn(c: Seq<Point>) -> Seq<Point> {
    let p = c[1];
    if c[0].x == p.x {
        seq![at(p, -1, 0), at(p, 0, 0), at(p, 1, 0), at(p, 2, 0)]
    } else {
        seq![at(p, 0, -1), at(p, 0, 0), at(p, 0, 1), at(p, 0, 2)]
    }
}

/// A bar of three through the pivot plus one extension cell. A horizontal
/// piece (cell 0 level with the pivot) becomes a vertical bar whose extension
/// sits at `below` when the current extension lies below the pivot and at
/// `above` otherwise; a vertical piece becomes a horizontal bar whose extension
/// sits at `right` when the current extension lies right of the pivot and at
/// `left` otherwise. Offsets are relative to the pivot.
pub open spec fn bar_turn(
    c: Seq<Point>,
    below: (int, int),
    above: (int, int),
    right: (int, int),
    left: (int, int),
) -> Seq<Point> {
    let p = c[1];
    let e = c[3];
    if c[0].y == p.y {
        let x = if e.y > p.y { below } else { above };
        seq![at(p, 0, -1), at(p, 0, 0), at(p, 0, 1), at(p, x.0, x.1)]
    } else {
        let x = if e.x > p.x { right } else { left };
        seq![at(p, -1, 0), at(p, 0, 0), at(p, 1, 0), at(p, x.0, x.1)]
    }
}

/// StepLeft: toggles between its horizontal and vertical orientation.
pub open spec fn step_left_turn(c: Seq<Point>) -> Seq<Point> {
    let p = c[1];
    if c[0].y == p.y {
        seq![at(p, 0, 1), at(p, 0, 0), at(p, 1, 0), at(p, 1, -1)]
    } else {
        seq![at(p, 1, 0), at(p, 0, 0), at(p, 0, -1), at(p, -1, -1)]
    }
}

/// StepRight: toggles between its horizontal and vertical orientation.
pub open spec fn step_right_turn(c: Seq<Point>) -> Seq<Point> {
    let p = c[1];
    if c[0].y == p.y {
        seq![at(p, 0, 1), at(p, 0, 0), at(p, -1, 0), at(p, -1, -1)]
    } else {
        seq![at(p, 1, 0), at(p, 0, 0), at(p, 1, -1), at(p, 2, -1)]
    }
}

/// The cells of a piece of shape `k` with cells `c` after turning left.
pub open spec fn rotated_left(k: BlockType, c: Seq<Point>) -> Seq<Point> {
    match k {
        BlockType::Long => long_turn(c),
        BlockType::Tee => bar_turn(c, (1, 0), (-1, 0), (0, -1), (0, 1)),
        BlockType::StepLeft => step_left_turn(c),
        BlockType::StepRight => step_right_turn(c),
        BlockType::LLeft => bar_turn(c, (1, 1), (-1, -1), (1, -1), (-1, 1)),
        BlockType::LRight => bar_turn(c, (1, -1), (-1, 1), (-1, -1), (1, 1)),
        _ => c,
    }
}

/// The cells of a piece of shape `k` with cells `c` after turning right.
pub open spec fn rotated_right(k: BlockType, c: Seq<Point>) -> Seq<Point> {
    match k {
        BlockType::Long => long_turn(c),
        BlockType::Tee => bar_turn(c, (-1, 0), (1, 0), (0, 1), (0, -1)),
        BlockType::StepLeft => step_left_turn(c),
        BlockType::StepRight => step_right_turn(c),
        BlockType::LLeft => bar_turn(c, (-1, -1), (1, 1), (-1, 1), (1, -1)),
        BlockType::LRight => bar_turn(c, (-1, 1), (1, -1), (1, 1), (-1, -1)),
        _ => c,
    }
}

impl Block {
    /// The cells of the piece, in order.
    pub closed spec fn cells(&self) -> Seq<Point> {
        self.pieces@
    }

    /// The shape of the piece.
    pub closed spec fn shape(&self) -> BlockType {
        self.block_type
    }

    /// The primary colour.
    pub closed spec fn spec_colour_1(&self) -> &'static str {
        self.colour_1
    }

    /// The secondary colour.
    pub closed spec fn spec_colour_2(&self) -> &'static str {
        self.colour_2
    }

    /// A piece has as many cells as its shape asks for.
    pub open spec fn wf(&self) -> bool {
        self.cells().len() == cell_count(self.shape())
    }

    pub fn get_pieces(&self) -> (r: &Vec<Point>)
        ensures
            r@ == self.cells(),
    {
        &self.pieces
    }

    pub fn get_pieces_mut(&mut self) -> (r: &mut Vec<Point>)
        ensures
            r@ == old(self).cells(),
            final(self).cells() == final(r)@,
            final(self).shape() == old(self).shape(),
            final(self).spec_colour_1() == old(self).spec_colour_1(),
            final(self).spec_colour_2() == old(self).spec_colour_2(),
    {
        &mut self.pieces
    }

    pub fn get_colour_1(&self) -> (r: &'static str)
        ensures
            r == self.spec_colour_1(),
    {
        self.colour_1
    }

    pub fn get_colour_2(&self) -> (r: &'static str)
        ensures
            r == self.spec_colour_2(),
    {
        self.colour_2
    }

    pub fn get_block_type(&self) -> (r: BlockType)
        ensures
            r == self.shape(),
    {
        self.block_type
    }

    /// Replaces the cells by `rotated`, keeping shape and colours.
    pub fn apply_rotated(&mut self, rotated: &Vec<Point>)
        ensures
            final(self).cells() == rotated@,
            final(self).shape() == old(self).shape(),
            final(self).spec_colour_1() == old(self).spec_colour_1(),
            final(self).spec_colour_2() == old(self).spec_colour_2(),
    {
        self.pieces.clear();
        let mut i: usize = 0;
        while i < rotated.len()
            invariant
                i <= rotated.len(),
                self.pieces@ == rotated@.subrange(0, i as int),
                self.block_type == old(self).block_type,
                self.colour_1 == old(self).colour_1,
                self.colour_2 == old(self).colour_2,
            decreases rotated.len() - i,
        {
            self.pieces.push(rotated[i]);
            i = i + 1;
        }
        assert(self.pieces@ =~= rotated@);
    }
}


/// Whether `d` is a unit offset, as every extension offset is.
pub open spec fn unit_offset(d: (i32, i32)) -> bool {
    -1 <= d.0 <= 1 && -1 <= d.1 <= 1
}

/// Widens an offset to `int`.
pub open spec fn wide(d: (i32, i32)) -> (int, int) {
    (d.0 as int, d.1 as int)
}

fn offset(p: Point, dx: i32, dy: i32) -> (r: Point)
    requires
        i32::MIN <= p.x + dx <= i32::MAX,
        i32::MIN <= p.y + dy <= i32::MAX,
    ensures
        r == at(p, dx as int, dy as int),
{
    Point { x: p.x + dx, y: p.y + dy }
}

fn four(a: Point, b: Point, c: Point, d: Point) -> (r: Vec<Point>)
    ensures
        r@ == seq![a, b, c, d],
{
    let mut r = Vec::new();
    r.push(a);
    r.push(b);
    r.push(c);
    r.push(d);
    assert(r@ =~= seq![a, b, c, d]);
    r
}

fn turn_bar(
    c: &Vec<Point>,
    below: (i32, i32),
    above: (i32, i32),
    right: (i32, i32),
    left: (i32, i32),
) -> (r: Vec<Point>)
    requires
        c.len() == 4,
        pivot_fits(c@),
        unit_offset(below),
        unit_offset(above),
        unit_offset(right),
        unit_offset(left),
    ensures
        r@ == bar_turn(c@, wide(below), wide(above), wide(right), wide(left)),
{
    let p = c[1];
    let e = c[3];
    if c[0].y == p.y {
        let x = if e.y > p.y {
            below
        } else {
            above
        };
        four(offset(p, 0, -1), offset(p, 0, 0), offset(p, 0, 1), offset(p, x.0, x.1))
    } else {
        let x = if e.x > p.x {
            right
        } else {
            left
        };
        four(offset(p, -1, 0), offset(p, 0, 0), offset(p, 1, 0), offset(p, x.0, x.1))
    }
}

impl Block {
    pub fn get_rotated_left(&self) -> (r: Vec<Point>)
        requires
            self.wf(),
            pivot_fits(self.cells()),
        ensures
            r@ == rotated_left(self.shape(), self.cells()),
    {
        match self.block_type {
            BlockType::DefaultBlock => self.get_rotated_left_quad(),
            BlockType::StackBlock => self.get_rotated_left_quad(),
            BlockType::Long => self.get_rotated_left_long(),
            BlockType::Tee => self.get_rotated_left_tee(),
            BlockType::Quad => self.get_rotated_left_quad(),
            BlockType::StepLeft => self.get_rotated_left_step_left(),
            BlockType::StepRight => self.get_rotated_left_step_right(),
            BlockType::LLeft => self.get_rotated_left_l_left(),
            BlockType::LRight => self.get_rotated_left_l_right(),
        }
    }

    pub fn get_rotated_right(&self) -> (r: Vec<Point>)
        requires
            self.wf(),
            pivot_fits(self.cells()),
        ensures
            r@ == rotated_right(self.shape(), self.cells()),
    {
        match self.block_type {
            BlockType::DefaultBlock => self.get_rotated_right_quad(),
            BlockType::StackBlock => self.get_rotated_right_quad(),
            BlockType::Long => self.get_rotated_right_long(),
            BlockType::Tee => self.get_rotated_right_tee(),
            BlockType::Quad => self.get_rotated_right_quad(),
            BlockType::StepLeft => self.get_rotated_right_step_left(),
            BlockType::StepRight => self.get_rotated_right_step_right(),
            BlockType::LLeft => self.get_rotated_right_l_left(),
            BlockType::LRight => self.get_rotated_right_l_right(),
        }
    }

    fn get_rotated_left_long(&self) -> (r: Vec<Point>)
        requires
            self.cells().len() == 4,
            pivot_fits(self.cells()),
        ensures
            r@ == long_turn(self.cells()),
    {
        let p = self.pieces[1];
        if self.pieces[0].x == p.x {
            four(offset(p, -1, 0), offset(p, 0, 0), offset(p, 1, 0), offset(p, 2, 0))
        } else {
            four(offset(p, 0, -1), offset(p, 0, 0), offset(p, 0, 1), offset(p, 0, 2))
        }
    }

    fn get_rotated_right_long(&self) -> (r: Vec<Point>)
        requires
            self.cells().len() == 4,
            pivot_fits(self.cells()),
        ensures
            r@ == long_turn(self.cells()),
    {
        self.get_rotated_left_long()
    }

    fn get_rotated_left_tee(&self) -> (r: Vec<Point>)
        requires
            self.cells().len() == 4,
            pivot_fits(self.cells()),
        ensures
            r@ == rotated_left(BlockType::Tee, self.cells()),
    {
        turn_bar(&self.pieces, (1, 0), (-1, 0), (0, -1), (0, 1))
    }

    fn get_rotated_right_tee(&self) -> (r: Vec<Point>)
        requires
            self.cells().len() == 4,
            pivot_fits(self.cells()),
        ensures
            r@ == rotated_right(BlockType::Tee, self.cells()),
    {
        turn_bar(&self.pieces, (-1, 0), (1, 0), (0, 1), (0, -1))
    }

    fn get_rotated_left_quad(&self) -> (r: Vec<Point>)
        ensures
            r@ == self.cells(),
    {
        let r = self.pieces.clone();
        assert(r@ =~= self.pieces@);
        r
    }

    fn get_rotated_right_quad(&self) -> (r: Vec<Point>)
        ensures
            r@ == self.cells(),
    {
        self.get_rotated_left_quad()
    }

    fn get_rotated_left_step_left(&self) -> (r: Vec<Point>)
        requires
            self.cells().len() == 4,
            pivot_fits(self.cells()),
        ensures
            r@ == step_left_turn(self.cells()),
    {
        let p = self.pieces[1];
        if self.pieces[0].y == p.y {
            four(offset(p, 0, 1), offset(p, 0, 0), offset(p, 1, 0), offset(p, 1, -1))
        } else {
            four(offset(p, 1, 0), offset(p, 0, 0), offset(p, 0, -1), offset(p, -1, -1))
        }
    }

    fn get_rotated_right_step_left(&self) -> (r: Vec<Point>)
        requires
            self.cells().len() == 4,
            pivot_fits(self.cells()),
        ensures
            r@ == step_left_turn(self.cells()),
    {
        self.get_rotated_left_step_left()
    }

    fn get_rotated_left_step_right(&self) -> (r: Vec<Point>)
        requires
            self.cells().len() == 4,
            pivot_fits(self.cells()),
        ensures
            r@ == step_right_turn(self.cells()),
    {
        let p = self.pieces[1];
        if self.pieces[0].y == p.y {
            four(offset(p, 0, 1), offset(p, 0, 0), offset(p, -1, 0), offset(p, -1, -1))
        } else {
            four(offset(p, 1, 0), offset(p, 0, 0), offset(p, 1, -1), offset(p, 2, -1))
        }
    }

    fn get_rotated_right_step_right(&self) -> (r: Vec<Point>)
        requires
            self.cells().len() == 4,
            pivot_fits(self.cells()),
        ensures
            r@ == step_right_turn(self.cells()),
    {
        self.get_rotated_left_step_right()
    }

    fn get_rotated_left_l_left(&self) -> (r: Vec<Point>)
        requires
            self.cells().len() == 4,
            pivot_fits(self.cells()),
        ensures
            r@ == rotated_left(BlockType::LLeft, self.cells()),
    {
        turn_bar(&self.pieces, (1, 1), (-1, -1), (1, -1), (-1, 1))
    }

    fn get_rotated_right_l_left(&self) -> (r: Vec<Point>)
        requires
            self.cells().len() == 4,
            pivot_fits(self.cells()),
        ensures
            r@ == rotated_right(BlockType::LLeft, self.cells()),
    {
        turn_bar(&self.pieces, (-1, -1), (1, 1), (-1, 1), (1, -1))
    }

    fn get_rotated_left_l_right(&self) -> (r: Vec<Point>)
        requires
            self.cells().len() == 4,
            pivot_fits(self.cells()),
        ensures
            r@ == rotated_left(BlockType::LRight, self.cells()),
    {
        turn_bar(&self.pieces, (1, -1), (-1, 1), (-1, -1), (1, 1))
    }

    fn get_rotated_right_l_right(&self) -> (r: Vec<Point>)
        requires
            self.cells().len() == 4,
            pivot_fits(self.cells()),
        ensures
            r@ == rotated_right(BlockType::LRight, self.cells()),
    {
        turn_bar(&self.pieces, (-1, 1), (1, -1), (1, 1), (-1, -1))
    }
}

/// The shape that `new` spawns for the selector `rand`.
pub open spec fn spawn_shape(rand: int) -> BlockType {
    if rand == 0 {
        BlockType::Long
    } else if rand == 1 {
        BlockType::Tee
    } else if rand == 2 {
        BlockType::Quad
    } else if rand == 3 {
        BlockType::StepLeft
    } else if rand == 4 {
        BlockType::StepRight
    } else if rand == 5 {
        BlockType::LLeft
    } else {
        BlockType::LRight
    }
}

/// The selector that spawns shape `k`; -1 for the shapes that are never spawned.
pub open spec fn shape_index(k: BlockType) -> int {
    match k {
        BlockType::Long => 0,
        BlockType::Tee => 1,
        BlockType::Quad => 2,
        BlockType::StepLeft => 3,
        BlockType::StepRight => 4,
        BlockType::LLeft => 5,
        BlockType::LRight => 6,
        _ => -1,
    }
}

/// The cells of a freshly spawned piece of shape `k`, at the top of the board
/// around its middle column.
pub open spec fn spawn_cells(k: BlockType) -> Seq<Point> {
    let h = HALF_WIDTH as int;
    match k {
        BlockType::Long => seq![pt(h - 1, 0), pt(h, 0), pt(h + 1, 0), pt(h + 2, 0)],
        BlockType::Tee => seq![pt(h - 1, 0), pt(h, 0), pt(h + 1, 0), pt(h, 1)],
        BlockType::Quad => seq![pt(h - 1, 0), pt(h, 0), pt(h - 1, 1), pt(h, 1)],
        BlockType::StepLeft => seq![pt(h - 1, 0), pt(h, 0), pt(h, 1), pt(h + 1, 1)],
        BlockType::StepRight => seq![pt(h - 1, 1), pt(h, 1), pt(h, 0), pt(h + 1, 0)],
        BlockType::LLeft => seq![pt(h - 1, 0), pt(h, 0), pt(h + 1, 0), pt(h - 1, 1)],
        BlockType::LRight => seq![pt(h - 1, 0), pt(h, 0), pt(h + 1, 0), pt(h + 1, 1)],
        _ => Seq::empty(),
    }
}

/// The (primary, secondary) colours of a spawned piece of shape `k` at `level`:
/// each shape takes its own pick of the level's two palette colours.
pub open spec fn spawn_colours(k: BlockType, level: int) -> (Seq<char>, Seq<char>) {
    let e = palette_entry(palette_index(level));
    match k {
        BlockType::Quad => (e.1, e.0),
        BlockType::StepLeft => (e.0, e.0),
        BlockType::LLeft => (e.0, e.0),
        BlockType::StepRight => (e.1, e.1),
        BlockType::LRight => (e.1, e.1),
        _ => (e.0, e.1),
    }
}

/// Whether `b` is exactly the piece of shape `k` spawned at `level`.
pub open spec fn is_spawned(b: Block, k: BlockType, level: int) -> bool {
    &&& b.shape() == k
    &&& b.cells() == spawn_cells(k)
    &&& b.spec_colour_1()@ == spawn_colours(k, level).0
    &&& b.spec_colour_2()@ == spawn_colours(k, level).1
}

/// The empty placeholder piece.
pub fn default_block() -> (r: Block)
    ensures
        r.cells() == Seq::<Point>::empty(),
        r.shape() == BlockType::DefaultBlock,
        r.wf(),
{
    Block {
        pieces: Vec::new(),
        colour_1: "#000;",
        colour_2: "#000;",
        block_type: BlockType::DefaultBlock,
    }
}

/// Splits `block` into one settled single-cell piece per cell, in cell order,
/// each keeping the colours of `block`.
pub fn stack_blocks(block: &Block) -> (r: Vec<Block>)
    ensures
        r.len() == block.cells().len(),
        forall|i: int|
            0 <= i < r.len() ==> {
                &&& (#[trigger] r[i]).cells() == seq![block.cells()[i]]
                &&& r[i].shape() == BlockType::StackBlock
                &&& r[i].spec_colour_1() == block.spec_colour_1()
                &&& r[i].spec_colour_2() == block.spec_colour_2()
            },
{
    let mut blocks: Vec<Block> = Vec::new();
    let pieces = block.get_pieces();
    let mut i: usize = 0;
    while i < pieces.len()
        invariant
            i <= pieces.len(),
            pieces@ == block.cells(),
            blocks.len() == i,
            forall|j: int|
                0 <= j < i ==> {
                    &&& (#[trigger] blocks[j]).cells() == seq![block.cells()[j]]
                    &&& blocks[j].shape() == BlockType::StackBlock
                    &&& blocks[j].spec_colour_1() == block.spec_colour_1()
                    &&& blocks[j].spec_colour_2() == block.spec_colour_2()
                },
        decreases pieces.len() - i,
    {
        let point = pieces[i];
        let mut cell: Vec<Point> = Vec::new();
        cell.push(Point { x: point.x, y: point.y });
        assert(cell@ =~= seq![block.cells()[i as int]]);
        blocks.push(
            Block {
                pieces: cell,
                colour_1: block.get_colour_1(),
                colour_2: block.get_colour_2(),
                block_type: BlockType::StackBlock,
            },
        );
        i = i + 1;
    }
    blocks
}

/// The selector that spawns the shape of `block`.
pub fn rand_for_block(block: &Block) -> (r: i32)
    ensures
        r == shape_index(block.shape()),
{
    match block.block_type {
        BlockType::Long => 0,
        BlockType::Tee => 1,
        BlockType::Quad => 2,
        BlockType::StepLeft => 3,
        BlockType::StepRight => 4,
        BlockType::LLeft => 5,
        BlockType::LRight => 6,
        BlockType::DefaultBlock => -1,
        BlockType::StackBlock => -1,
    }
}

/// Spawns the piece chosen by `rand` (0 to 5 pick Long, Tee, Quad, StepLeft,
/// StepRight, LLeft; any other value LRight) in the colours of `level`.
pub fn new(rand: i32, level: i32) -> (r: Block)
    requires
        level >= 1,
    ensures
        is_spawned(r, spawn_shape(rand as int), level as int),
        r.wf(),
{
    let colours = colours_for_level(level);
    let h = HALF_WIDTH;
    let c1 = colours.colour_1;
    let c2 = colours.colour_2;
    if rand == 0 {
        let cells = four(Point { x: h - 1, y: 0 }, Point { x: h, y: 0 }, Point { x: h + 1, y: 0 }, Point { x: h + 2, y: 0 });
        Block { pieces: cells, colour_1: c1, colour_2: c2, block_type: BlockType::Long }
    } else if rand == 1 {
        let cells = four(Point { x: h - 1, y: 0 }, Point { x: h, y: 0 }, Point { x: h + 1, y: 0 }, Point { x: h, y: 1 });
        Block { pieces: cells, colour_1: c1, colour_2: c2, block_type: BlockType::Tee }
    } else if rand == 2 {
        let cells = four(Point { x: h - 1, y: 0 }, Point { x: h, y: 0 }, Point { x: h - 1, y: 1 }, Point { x: h, y: 1 });
        Block { pieces: cells, colour_1: c2, colour_2: c1, block_type: BlockType::Quad }
    } else if rand == 3 {
        let cells = four(Point { x: h - 1, y: 0 }, Point { x: h, y: 0 }, Point { x: h, y: 1 }, Point { x: h + 1, y: 1 });
        Block { pieces: cells, colour_1: c1, colour_2: c1, block_type: BlockType::StepLeft }
    } else if rand == 4 {
        let cells = four(Point { x: h - 1, y: 1 }, Point { x: h, y: 1 }, Point { x: h, y: 0 }, Point { x: h + 1, y: 0 });
        Block { pieces: cells, colour_1: c2, colour_2: c2, block_type: BlockType::StepRight }
    } else if rand == 5 {
        let cells = four(Point { x: h - 1, y: 0 }, Point { x: h, y: 0 }, Point { x: h + 1, y: 0 }, Point { x: h - 1, y: 1 });
        Block { pieces: cells, colour_1: c1, colour_2: c1, block_type: BlockType::LLeft }
    } else {
        let cells = four(Point { x: h - 1, y: 0 }, Point { x: h, y: 0 }, Point { x: h + 1, y: 0 }, Point { x: h + 1, y: 1 });
        Block { pieces: cells, colour_1: c2, colour_2: c2, block_type: BlockType::LRight }
    }
}

/// The cells after `n` left turns of a piece of shape `k` with cells `c`.
pub open spec fn turned_left(k: BlockType, c: Seq<Point>, n: nat) -> Seq<Point>
    decreases n,
{
    if n == 0 {
        c
    } else {
        rotated_left(k, turned_left(k, c, (n - 1) as nat))
    }
}

/// The cells after `n` right turns of a piece of shape `k` with cells `c`.
pub open spec fn turned_right(k: BlockType, c: Seq<Point>, n: nat) -> Seq<Point>
    decreases n,
{
    if n == 0 {
        c
    } else {
        rotated_right(k, turned_right(k, c, (n - 1) as nat))
    }
}

/// The number of distinct orientations of shape `k`.
pub open spec fn rotation_period(k: BlockType) -> nat {
    match k {
        BlockType::Long => 2,
        BlockType::StepLeft => 2,
        BlockType::StepRight => 2,
        BlockType::Tee => 4,
        BlockType::LLeft => 4,
        BlockType::LRight => 4,
        _ => 1,
    }
}

/// Whether `c` is a layout that turning a four-cell piece of shape `k` yields.
pub open spec fn is_turned_layout(k: BlockType, c: Seq<Point>) -> bool {
    exists|c0: Seq<Point>|
        #![trigger pivot_fits(c0)]
        c0.len() == 4 && pivot_fits(c0) && (rotated_left(k, c0) == c || rotated_right(k, c0)
            == c)
}

/// Whether `c` is a layout a piece of shape `k` can have in play: one a turn
/// yields, or, for the shapes whose spawn layout is such a layout, the spawn
/// layout. (The step shapes spawn in a layout that no turn yields, and the
/// first turn moves them off it for good.)
pub open spec fn is_cyclic_layout(k: BlockType, c: Seq<Point>) -> bool {
    ||| is_turned_layout(k, c)
    ||| (c == spawn_cells(k) && k != BlockType::StepLeft && k != BlockType::StepRight)
}

/// Whether every offset the rotations apply to `p` stays in `i32`.
pub open spec fn point_fits(p: Point) -> bool {
    &&& i32::MIN + 1 <= p.x <= i32::MAX - 2
    &&& i32::MIN + 1 <= p.y <= i32::MAX - 2
}

/// A horizontal bar of three through `p` plus the extension cell at offset `d`.
pub open spec fn hbar(p: Point, d: (int, int)) -> Seq<Point> {
    seq![at(p, -1, 0), at(p, 0, 0), at(p, 1, 0), at(p, d.0, d.1)]
}

/// A vertical bar of three through `p` plus the extension cell at offset `d`.
pub open spec fn vbar(p: Point, d: (int, int)) -> Seq<Point> {
    seq![at(p, 0, -1), at(p, 0, 0), at(p, 0, 1), at(p, d.0, d.1)]
}

/// Whether `d` is an offset of at most one step on each axis.
pub open spec fn small(d: (int, int)) -> bool {
    -1 <= d.0 <= 1 && -1 <= d.1 <= 1
}

proof fn lemma_bar_from_hbar(
    p: Point,
    d: (int, int),
    below: (int, int),
    above: (int, int),
    right: (int, int),
    left: (int, int),
)
    requires
        point_fits(p),
        small(d),
        d.1 != 0,
    ensures
        bar_turn(hbar(p, d), below, above, right, left) == vbar(
            p,
            if d.1 > 0 {
                below
            } else {
                above
            },
        ),
{
    assert(at(p, 0, 0) == p);
}

proof fn lemma_bar_from_vbar(
    p: Point,
    d: (int, int),
    below: (int, int),
    above: (int, int),
    right: (int, int),
    left: (int, int),
)
    requires
        point_fits(p),
        small(d),
        d.0 != 0,
    ensures
        bar_turn(vbar(p, d), below, above, right, left) == hbar(
            p,
            if d.0 > 0 {
                right
            } else {
                left
            },
        ),
{
    assert(at(p, 0, 0) == p);
}

/// The four bar layouts around `p` that one extension table yields form
/// cycles of two or four under turning: four turns restore each of them.
proof fn lemma_bar_cycle(
    p: Point,
    c: Seq<Point>,
    b: (int, int),
    a: (int, int),
    r: (int, int),
    l: (int, int),
)
    requires
        point_fits(p),
        small(b),
        small(a),
        small(r),
        small(l),
        b.0 != 0 && a.0 != 0 && (b.0 > 0) != (a.0 > 0),
        r.1 != 0 && l.1 != 0 && (r.1 > 0) != (l.1 > 0),
        c == vbar(p, b) || c == vbar(p, a) || c == hbar(p, r) || c == hbar(p, l),
    ensures
        bar_turn(
            bar_turn(bar_turn(bar_turn(c, b, a, r, l), b, a, r, l), b, a, r, l),
            b,
            a,
            r,
            l,
        ) == c,
{
    lemma_bar_from_vbar(p, b, b, a, r, l);
    lemma_bar_from_vbar(p, a, b, a, r, l);
    lemma_bar_from_hbar(p, r, b, a, r, l);
    lemma_bar_from_hbar(p, l, b, a, r, l);
}

/// Turning a piece in either direction as many times as its shape has
/// orientations, and in particular four times, brings back its cells exactly.
#[verifier::rlimit(50)]
pub proof fn lemma_rotation_cycle(k: BlockType, c: Seq<Point>)
    requires
        is_shape(k),
        is_cyclic_layout(k, c),
    ensures
        turned_left(k, c, rotation_period(k)) == c,
        turned_right(k, c, rotation_period(k)) == c,
        turned_left(k, c, 4) == c,
        turned_right(k, c, 4) == c,
{
    reveal_with_fuel(turned_left, 5);
    reveal_with_fuel(turned_right, 5);
    if !is_turned_layout(k, c) {
        let h = HALF_WIDTH as int;
        let c0 = if k == BlockType::Quad {
            c
        } else {
            seq![pt(h, -1), pt(h, 0), pt(h, 1), pt(h - 1, 0)]
        };
        assert(pivot_fits(c0));
        assert(rotated_left(k, c0) =~= c);
    }
    let c0 = choose|c0: Seq<Point>|
        #![trigger pivot_fits(c0)]
        c0.len() == 4 && pivot_fits(c0) && (rotated_left(k, c0) == c || rotated_right(k, c0)
            == c);
    let p = c0[1];
    assert(point_fits(p));
    assert(at(p, 0, 0) == p);
    let l1 = rotated_left(k, c);
    let l2 = rotated_left(k, l1);
    let l3 = rotated_left(k, l2);
    let r1 = rotated_right(k, c);
    let r2 = rotated_right(k, r1);
    let r3 = rotated_right(k, r2);
    match k {
        BlockType::Long => {
            assert(l2 =~= c);
        },
        BlockType::StepLeft => {
            assert(l2 =~= c);
        },
        BlockType::StepRight => {
            assert(l2 =~= c);
        },
        BlockType::Tee => {
            let (b, a, r, l) = ((1, 0), (-1, 0), (0, -1), (0, 1));
            lemma_bar_cycle(p, c, b, a, r, l);
            let (b, a, r, l) = ((-1, 0), (1, 0), (0, 1), (0, -1));
            lemma_bar_cycle(p, c, b, a, r, l);
        },
        BlockType::LLeft => {
            let (b, a, r, l) = ((1, 1), (-1, -1), (1, -1), (-1, 1));
            lemma_bar_cycle(p, c, b, a, r, l);
            let (b, a, r, l) = ((-1, -1), (1, 1), (-1, 1), (1, -1));
            lemma_bar_cycle(p, c, b, a, r, l);
        },
        BlockType::LRight => {
            let (b, a, r, l) = ((1, -1), (-1, 1), (-1, -1), (1, 1));
            lemma_bar_cycle(p, c, b, a, r, l);
            let (b, a, r, l) = ((-1, 1), (1, -1), (1, 1), (-1, -1));
            lemma_bar_cycle(p, c, b, a, r, l);
        },
        _ => {},
    }
}

/// Turning keeps the cells of a piece apart: a turned layout never puts two
/// cells on one place.
pub proof fn lemma_turn_keeps_cells_distinct(k: BlockType, c: Seq<Point>)
    requires
        c.len() == cell_count(k),
        pivot_fits(c),
        c.no_duplicates(),
    ensures
        rotated_left(k, c).no_duplicates(),
        rotated_right(k, c).no_duplicates(),
{
    if is_shape(k) && k != BlockType::Quad {
        let l = rotated_left(k, c);
        let r = rotated_right(k, c);
        assert forall|i: int, j: int| 0 <= i < j < 4 implies l[i] != l[j] && r[i] != r[j] by {
            assert(point_fits(c[1]));
        }
    }
}

} // verus!
