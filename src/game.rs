use vstd::prelude::*;

use crate::block_stack::{is_commit, occupied_after_clear, BlockStack};
use crate::blocks::{
    at, default_block, is_shape, is_spawned, lemma_turn_keeps_cells_distinct, new, rand_for_block,
    rotated_left, rotated_right, shape_index, spawn_cells, spawn_shape, Block, BlockType,
};
use crate::objects::{DrawState, Movement, Point};

verus! {

/// The input character that stands for "no command".
pub const DEFAULT_INPUT: char = '1';

/// Number of columns of the board.
pub const GAME_WIDTH: i32 = 16;

/// Number of rows of the board.
pub const GAME_HEIGHT: i32 = 30;

/// Cleared rows needed per level.
pub const ROWS_FOR_LEVEL_UP: i32 = 10;

/// Frame interval, in milliseconds, before any speed-up.
pub const FRAME_RATE_SPEED_1: i32 = 500;

/// Milliseconds the frame interval shrinks by per level.
pub const SPEED_INCREASE_MS: i32 = 50;

/// The level whose speed the boost gives.
pub const BOOST_LEVEL: i32 = 8;

/// `v`, capped at the largest `i32`.
pub open spec fn capped(v: int) -> int {
    if v > i32::MAX {
        i32::MAX as int
    } else {
        v
    }
}

/// Whether `p` lies on the board.
pub open spec fn in_board(p: Point) -> bool {
    0 <= p.x < GAME_WIDTH && 0 <= p.y < GAME_HEIGHT
}

/// Whether every cell of `c` lies on the board.
pub open spec fn cells_in_board(c: Seq<Point>) -> bool {
    forall|i: int| 0 <= i < c.len() ==> in_board(#[trigger] c[i])
}

/// Whether every cell of `c`, moved by `(dx, dy)`, lies on the board on a free cell.
pub open spec fn move_ok(stack: BlockStack, c: Seq<Point>, dx: int, dy: int) -> bool {
    forall|i: int|
        0 <= i < c.len() ==> {
            &&& in_board(at(#[trigger] c[i], dx, dy))
            &&& !stack.is_occupied(at(c[i], dx, dy))
        }
}

/// Whether every cell of a rotation candidate lies strictly inside the board
/// (off column 0 and row 0) on a free cell.
pub open spec fn rotation_ok(stack: BlockStack, c: Seq<Point>) -> bool {
    forall|i: int|
        0 <= i < c.len() ==> {
            &&& 0 < (#[trigger] c[i]).x < GAME_WIDTH
            &&& 0 < c[i].y < GAME_HEIGHT
            &&& !stack.is_occupied(c[i])
        }
}

/// `c` with every cell moved by `(dx, dy)`.
pub open spec fn shifted(c: Seq<Point>, dx: int, dy: int) -> Seq<Point> {
    c.map_values(|p: Point| at(p, dx, dy))
}

/// The cells of a piece of shape `k` with cells `c` after the requested
/// `movement`, or `c` itself where the movement is rejected.
pub open spec fn moved_cells(stack: BlockStack, k: BlockType, c: Seq<Point>, m: Movement) -> Seq<
    Point,
> {
    match m {
        Movement::LEFT => if move_ok(stack, c, -1, 0) {
            shifted(c, -1, 0)
        } else {
            c
        },
        Movement::RIGHT => if move_ok(stack, c, 1, 0) {
            shifted(c, 1, 0)
        } else {
            c
        },
        Movement::RotateLeft => if rotation_ok(stack, rotated_left(k, c)) {
            rotated_left(k, c)
        } else {
            c
        },
        Movement::RotateRight => if rotation_ok(stack, rotated_right(k, c)) {
            rotated_right(k, c)
        } else {
            c
        },
        Movement::NONE => c,
    }
}

/// The bonus factor for clearing `n` rows at once.
pub open spec fn row_award(n: int) -> int {
    if n == 1 {
        1
    } else if n == 2 {
        3
    } else if n == 3 {
        4
    } else if n == 4 {
        8
    } else {
        0
    }
}

/// Whether the lines count `lines` calls for leaving `level`.
pub open spec fn reaches_next_level(lines: int, level: int) -> bool {
    lines > level * ROWS_FOR_LEVEL_UP - 1
}

/// The frame interval for `level`, or for the boost level when `boost` is set;
/// never below 0.
pub open spec fn frame_interval(level: int, boost: bool) -> int {
    let l = if boost {
        BOOST_LEVEL as int
    } else {
        level
    };
    let t = FRAME_RATE_SPEED_1 - l * SPEED_INCREASE_MS;
    if t < 0 {
        0
    } else {
        t
    }
}

/// The stats after clearing `n` rows at once: the lines grow by `n`, the
/// score grows by the award for `n` rows times the level at which they were
/// cleared, and the level rises by one when the new line count reaches the
/// next threshold; every count is capped at the largest `i32`.
pub open spec fn stats_after_clear(s: Stats, n: int) -> Stats {
    let lines = capped(s.lines + n);
    let level = if reaches_next_level(lines, s.level as int) {
        capped(s.level + 1)
    } else {
        s.level as int
    };
    Stats {
        score: capped(s.score + row_award(n) * s.level) as i32,
        lines: lines as i32,
        level: level as i32,
    }
}

/// The movement a latched input character asks for; `p` (a diagnostic
/// request) keeps the current one.
pub open spec fn input_movement(input: char, current: Movement) -> Movement {
    if input == 'a' {
        Movement::LEFT
    } else if input == 'd' {
        Movement::RIGHT
    } else if input == 'q' {
        Movement::RotateLeft
    } else if input == 'e' {
        Movement::RotateRight
    } else if input == 'p' {
        current
    } else {
        Movement::NONE
    }
}

/// The clock after the pause is toggled at `timestamp`: pausing records the
/// start of the pause, resuming adds its length to the paused total
/// (modulo 2^32, as the timestamps are).
pub open spec fn paused_clock(c: Clock, paused: bool, timestamp: u32) -> Clock {
    Clock {
        timestamp_pause_start: if paused {
            0
        } else {
            timestamp
        },
        pause_duration_sum: if paused {
            vstd::wrapping::u32_specs::wrapping_add(
                c.pause_duration_sum,
                (timestamp - c.timestamp_pause_start) as u32,
            )
        } else {
            c.pause_duration_sum
        },
        ..c
    }
}

/// Whether no cell of `c` is occupied in `stack`.
pub open spec fn cells_free(stack: BlockStack, c: Seq<Point>) -> bool {
    forall|i: int| 0 <= i < c.len() ==> !stack.is_occupied(#[trigger] c[i])
}

/// Whether some cell of `c` lies in the top row.
pub open spec fn touches_top(c: Seq<Point>) -> bool {
    exists|i: int| 0 <= i < c.len() && (#[trigger] c[i]).y == 0
}


/// Score, cleared lines and level.
#[derive(Copy, Clone, Debug, PartialEq, Eq, Structural)]
pub struct Stats {
    pub score: i32,
    pub lines: i32,
    pub level: i32,
}

/// The single-slot input latch: the last command written wins, and it is
/// applied at most once.
#[derive(Copy, Clone, Debug, PartialEq, Eq, Structural)]
pub struct InputLatch {
    /// The latched command character.
    pub input: char,
    /// Whether the latched command has been applied already.
    pub input_processed: bool,
    /// Whether a key is held down.
    pub pressed: bool,
    /// Whether the boost is active.
    pub speed_increase: bool,
}

/// The timestamps of a session, in milliseconds.
#[derive(Copy, Clone, Debug, PartialEq, Eq, Structural)]
pub struct Clock {
    /// Whether the first tick of the session has latched the start.
    pub started: bool,
    /// Whether no frame of the session has been accepted yet.
    pub first_frame_pending: bool,
    pub timestamp_last_frame: u32,
    pub timestamp_game_start: u32,
    pub timestamp_pause_start: u32,
    pub pause_duration_sum: u32,
}

/// What the driver has to do after a tick.
#[derive(Copy, Clone, Debug, PartialEq, Eq, Structural)]
pub enum TickOutcome {
    /// Nothing happened: the game is over or the frame interval has not passed.
    Idle,
    /// A frame passed while paused: show the pause indicator.
    Paused,
    /// A frame was simulated: draw the new state.
    Running,
    /// The piece locked out in the top row: the game has just ended.
    GameOver,
}


proof fn lemma_shift_keeps(stack: BlockStack, c: Seq<Point>, dx: int, dy: int)
    requires
        c.no_duplicates(),
        cells_in_board(c),
        -1 <= dx <= 1,
        -1 <= dy <= 1,
        move_ok(stack, c, dx, dy),
    ensures
        shifted(c, dx, dy).no_duplicates(),
        cells_free(stack, shifted(c, dx, dy)),
        cells_in_board(shifted(c, dx, dy)),
{
    let d = shifted(c, dx, dy);
    assert forall|i: int| 0 <= i < d.len() implies in_board(#[trigger] d[i]) && !stack.is_occupied(
        d[i],
    ) by {
        assert(d[i] == at(c[i], dx, dy));
    }
    assert forall|i: int, j: int| 0 <= i < j < d.len() implies d[i] != d[j] by {
        assert(in_board(c[i]));
        assert(in_board(c[j]));
        assert(d[i] == at(c[i], dx, dy));
        assert(d[j] == at(c[j], dx, dy));
        assert(c[i] != c[j]);
    }
}

fn moves_ok(stack: &BlockStack, cells: &Vec<Point>, dx: i32, dy: i32) -> (r: bool)
    requires
        cells_in_board(cells@),
        -1 <= dx <= 1,
        -1 <= dy <= 1,
    ensures
        r == move_ok(*stack, cells@, dx as int, dy as int),
{
    let mut i: usize = 0;
    while i < cells.len()
        invariant
            i <= cells.len(),
            cells_in_board(cells@),
            -1 <= dx <= 1,
            -1 <= dy <= 1,
            forall|j: int|
                0 <= j < i ==> {
                    &&& in_board(at(#[trigger] cells@[j], dx as int, dy as int))
                    &&& !stack.is_occupied(at(cells@[j], dx as int, dy as int))
                },
        decreases cells.len() - i,
    {
        let p = cells[i];
        assert(in_board(cells@[i as int]));
        let moved = Point { x: p.x + dx, y: p.y + dy };
        if !(0 <= moved.x && moved.x < GAME_WIDTH && 0 <= moved.y && moved.y < GAME_HEIGHT) {
            return false;
        }
        if !stack.check_collision(&moved) {
            return false;
        }
        i = i + 1;
    }
    true
}

fn rotation_fits(stack: &BlockStack, cells: &Vec<Point>) -> (r: bool)
    ensures
        r == rotation_ok(*stack, cells@),
{
    let mut i: usize = 0;
    while i < cells.len()
        invariant
            i <= cells.len(),
            forall|j: int|
                0 <= j < i ==> {
                    &&& 0 < (#[trigger] cells@[j]).x < GAME_WIDTH
                    &&& 0 < cells@[j].y < GAME_HEIGHT
                    &&& !stack.is_occupied(cells@[j])
                },
        decreases cells.len() - i,
    {
        let p = cells[i];
        if !(p.x > 0 && p.x < GAME_WIDTH && p.y > 0 && p.y < GAME_HEIGHT) {
            return false;
        }
        if !stack.check_collision(&p) {
            return false;
        }
        i = i + 1;
    }
    true
}

/// Moves every cell of `block` by `(dx, dy)`.
fn shift_block(block: &mut Block, dx: i32, dy: i32)
    requires
        cells_in_board(old(block).cells()),
        -1 <= dx <= 1,
        -1 <= dy <= 1,
    ensures
        final(block).cells() == shifted(old(block).cells(), dx as int, dy as int),
        final(block).shape() == old(block).shape(),
        final(block).spec_colour_1() == old(block).spec_colour_1(),
        final(block).spec_colour_2() == old(block).spec_colour_2(),
{
    let ghost c0 = block.cells();
    let pieces = block.get_pieces_mut();
    let mut i: usize = 0;
    while i < pieces.len()
        invariant
            i <= pieces.len(),
            pieces.len() == c0.len(),
            cells_in_board(c0),
            -1 <= dx <= 1,
            -1 <= dy <= 1,
            forall|j: int| 0 <= j < i ==> pieces@[j] == at(c0[j], dx as int, dy as int),
            forall|j: int| i <= j < pieces.len() ==> pieces@[j] == c0[j],
        decreases pieces.len() - i,
    {
        let p = pieces[i];
        assert(in_board(c0[i as int]));
        pieces[i] = Point { x: p.x + dx, y: p.y + dy };
        i = i + 1;
    }
    assert(pieces@ =~= shifted(c0, dx as int, dy as int));
}


/// The stats after clearing `num_of_rows` rows in one lock.
pub fn stats_for_cleared_rows(stats: Stats, num_of_rows: usize) -> (r: Stats)
    requires
        stats.level >= 1,
        stats.lines >= 0,
        stats.score >= 0,
    ensures
        r == stats_after_clear(stats, num_of_rows as int),
{
    let added: i64 = if num_of_rows > i32::MAX as usize {
        i32::MAX as i64
    } else {
        num_of_rows as i64
    };
    let lines_sum = stats.lines as i64 + added;
    let lines: i32 = if lines_sum > i32::MAX as i64 {
        i32::MAX
    } else {
        lines_sum as i32
    };
    let lines_threshold = stats.level as i64 * ROWS_FOR_LEVEL_UP as i64;
    let level: i32 = if lines as i64 > lines_threshold - 1 && stats.level < i32::MAX {
        stats.level + 1
    } else {
        stats.level
    };
    let award: i64 = if num_of_rows == 1 {
        1
    } else if num_of_rows == 2 {
        3
    } else if num_of_rows == 3 {
        4
    } else if num_of_rows == 4 {
        8
    } else {
        0
    };
    let wide_level = stats.level as i64;
    assert(0 <= award * wide_level <= 8 * i32::MAX) by (nonlinear_arith)
        requires
            0 <= award <= 8,
            1 <= wide_level <= i32::MAX,
    ;
    let score_sum = stats.score as i64 + award * wide_level;
    let score: i32 = if score_sum > i32::MAX as i64 {
        i32::MAX
    } else {
        score_sum as i32
    };
    Stats { score, lines, level }
}


/// Clearing rows raises the level by one exactly when the new line count
/// reaches the threshold of the current level (`level * 10` lines), and never
/// by more, so each threshold crossed gives one level-up.
pub proof fn lemma_level_up_once(s: Stats, n: nat)
    requires
        s.level >= 1,
        s.lines >= 0,
        s.score >= 0,
        s.level < i32::MAX,
        s.lines + n <= i32::MAX,
    ensures
        stats_after_clear(s, n as int).lines == s.lines + n,
        stats_after_clear(s, n as int).level == s.level + if s.lines + n >= s.level
            * ROWS_FOR_LEVEL_UP {
            1int
        } else {
            0int
        },
{
}

/// One game session: the falling piece, the preview piece, the settled stack,
/// the score, the input latch and the timing.
pub struct Game {
    stats: Stats,
    name: String,
    current_block: Block,
    next_block: Block,
    block_stack: BlockStack,
    movement: Movement,
    over: bool,
    pause: bool,
    latch: InputLatch,
    clock: Clock,
}

/// One simulated frame from `g` to `h`, with `alive` false on lock-out.
/// Unless `first_frame`, the piece falls one row when every cell can, and is
/// blocked otherwise. A piece that is not blocked then takes the pending
/// input, if any (once). A blocked piece with a cell in the top row locks
/// out: nothing changes. A blocked piece elsewhere is committed to the stack,
/// full rows are cleared and scored, the preview piece falls next (respawned
/// in the new level's colours on a level change) and the piece chosen by
/// `rand` becomes the preview.
pub open spec fn frame_step(g: Game, h: Game, first_frame: bool, rand: i32, alive: bool) -> bool {
    let c0 = g.spec_current().cells();
    let blocked = !first_frame && !move_ok(g.spec_stack(), c0, 0, 1);
    let c1 = if first_frame {
        c0
    } else {
        shifted(c0, 0, 1)
    };
    &&& alive == !(blocked && touches_top(c0))
    &&& h.spec_clock() == g.spec_clock()
    &&& h.spec_pause() == g.spec_pause()
    &&& h.spec_movement() == g.spec_movement()
    &&& h.spec_name() == g.spec_name()
    &&& !blocked ==> {
        &&& h.spec_stack() == g.spec_stack()
        &&& h.spec_stats() == g.spec_stats()
        &&& h.spec_next() == g.spec_next()
        &&& h.spec_current().shape() == g.spec_current().shape()
        &&& h.spec_current().spec_colour_1() == g.spec_current().spec_colour_1()
        &&& h.spec_current().spec_colour_2() == g.spec_current().spec_colour_2()
        &&& if g.spec_latch().input_processed {
            &&& h.spec_current().cells() == c1
            &&& h.spec_latch() == g.spec_latch()
        } else {
            &&& h.spec_current().cells() == moved_cells(
                g.spec_stack(),
                g.spec_current().shape(),
                c1,
                g.spec_movement(),
            )
            &&& h.spec_latch() == (InputLatch { input_processed: true, ..g.spec_latch() })
        }
    }
    &&& blocked ==> h.spec_latch() == g.spec_latch()
    &&& blocked && !alive ==> {
        &&& h.spec_current().cells() == c0
        &&& h.spec_stack() == g.spec_stack()
        &&& h.spec_stats() == g.spec_stats()
    }
    &&& blocked && alive ==> {
        &&& exists|settled: BlockStack|
            {
                &&& #[trigger] settled.wf()
                &&& is_commit(g.spec_stack(), c0, settled)
                &&& forall|p: Point| #[trigger]
                    h.spec_stack().is_occupied(p) <==> occupied_after_clear(
                        settled.rows(),
                        settled.complete_rows(GAME_WIDTH as int),
                        p,
                    )
                &&& h.spec_stats() == if settled.complete_rows(GAME_WIDTH as int).len() > 0 {
                    stats_after_clear(
                        g.spec_stats(),
                        settled.complete_rows(GAME_WIDTH as int).len() as int,
                    )
                } else {
                    g.spec_stats()
                }
            }
        &&& h.spec_current().shape() == g.spec_next().shape()
        &&& h.spec_current().cells() == g.spec_next().cells()
        &&& if h.spec_stats().level != g.spec_stats().level {
            is_spawned(h.spec_current(), g.spec_next().shape(), h.spec_stats().level as int)
        } else {
            h.spec_current() == g.spec_next()
        }
        &&& is_spawned(h.spec_next(), spawn_shape(rand as int), h.spec_stats().level as int)
    }
}

/// The state `h` after an accepted frame at `timestamp` has read the latched
/// input of `g`: a movement command is stored, the space bar toggles the
/// pause (and is consumed, with the pause time accounted), and the frame is
/// recorded.
pub open spec fn input_read(g: Game, h: Game, timestamp: u32) -> bool {
    let input = g.spec_latch().input;
    &&& h.spec_stats() == g.spec_stats()
    &&& h.spec_current() == g.spec_current()
    &&& h.spec_next() == g.spec_next()
    &&& h.spec_stack() == g.spec_stack()
    &&& h.spec_over() == g.spec_over()
    &&& h.spec_name() == g.spec_name()
    &&& h.spec_movement() == if input == ' ' {
        Movement::NONE
    } else {
        input_movement(input, g.spec_movement())
    }
    &&& h.spec_pause() == (g.spec_pause() != (input == ' '))
    &&& h.spec_latch() == if input == ' ' {
        InputLatch { input: DEFAULT_INPUT, input_processed: true, ..g.spec_latch() }
    } else if input == 'p' {
        InputLatch { input_processed: true, ..g.spec_latch() }
    } else {
        g.spec_latch()
    }
    &&& h.spec_clock().timestamp_last_frame == timestamp
    &&& !h.spec_clock().first_frame_pending
    &&& if input == ' ' {
        &&& h.spec_clock().timestamp_pause_start == paused_clock(
            g.spec_clock(),
            g.spec_pause(),
            timestamp,
        ).timestamp_pause_start
        &&& h.spec_clock().pause_duration_sum == paused_clock(
            g.spec_clock(),
            g.spec_pause(),
            timestamp,
        ).pause_duration_sum
    } else {
        &&& h.spec_clock().timestamp_pause_start == g.spec_clock().timestamp_pause_start
        &&& h.spec_clock().pause_duration_sum == g.spec_clock().pause_duration_sum
    }
}


impl Game {
    pub closed spec fn spec_stats(&self) -> Stats {
        self.stats
    }

    pub closed spec fn spec_name(&self) -> Seq<char> {
        self.name@
    }

    pub closed spec fn spec_current(&self) -> Block {
        self.current_block
    }

    pub closed spec fn spec_next(&self) -> Block {
        self.next_block
    }

    pub closed spec fn spec_stack(&self) -> BlockStack {
        self.block_stack
    }

    pub closed spec fn spec_movement(&self) -> Movement {
        self.movement
    }

    pub closed spec fn spec_over(&self) -> bool {
        self.over
    }

    pub closed spec fn spec_pause(&self) -> bool {
        self.pause
    }

    pub closed spec fn spec_latch(&self) -> InputLatch {
        self.latch
    }

    pub closed spec fn spec_clock(&self) -> Clock {
        self.clock
    }

    /// The state invariant: well-formed pieces on the board, a well-formed
    /// stack, a level of at least 1, a pause that started no later than the
    /// last accepted frame, a preview piece in its spawn place, and, while the
    /// game runs, four-cell pieces whose falling one has distinct cells that
    /// are all free unless it still reaches into the top row (where it spawns
    /// and where a blocked piece ends the game).
    pub open spec fn wf(&self) -> bool {
        &&& self.spec_current().wf()
        &&& self.spec_next().wf()
        &&& cells_in_board(self.spec_current().cells())
        &&& cells_in_board(self.spec_next().cells())
        &&& self.spec_stack().wf()
        &&& self.spec_stats().level >= 1
        &&& self.spec_stats().lines >= 0
        &&& self.spec_stats().score >= 0
        &&& self.spec_pause() ==> self.spec_clock().timestamp_pause_start
            <= self.spec_clock().timestamp_last_frame
        &&& self.spec_next().cells() == spawn_cells(self.spec_next().shape())
        &&& !self.spec_over() ==> is_shape(self.spec_current().shape()) && is_shape(
            self.spec_next().shape(),
        )
        &&& !self.spec_over() ==> self.spec_current().cells().no_duplicates()
        &&& !self.spec_over() ==> (touches_top(self.spec_current().cells()) || cells_free(
            self.spec_stack(),
            self.spec_current().cells(),
        ))
    }

    /// A game that has not started: it counts as over until `set_state`.
    pub fn default() -> (r: Self)
        ensures
            r.wf(),
            r.spec_over(),
            r.spec_stats() == (Stats { score: 0, lines: 0, level: 1 }),
    {
        Game {
            stats: Stats { score: 0, lines: 0, level: 1 },
            name: String::new(),
            current_block: default_block(),
            next_block: default_block(),
            block_stack: BlockStack::new(),
            movement: Movement::NONE,
            over: true,
            pause: false,
            latch: InputLatch {
                input: DEFAULT_INPUT,
                input_processed: false,
                pressed: false,
                speed_increase: false,
            },
            clock: Clock {
                started: false,
                first_frame_pending: true,
                timestamp_last_frame: 0,
                timestamp_game_start: 0,
                timestamp_pause_start: 0,
                pause_duration_sum: 0,
            },
        }
    }

    /// Starts a new session for player `name` at `start_level` (a level
    /// outside 1 to 9 starts at 1), with an empty board. The falling and the
    /// preview piece are the ones chosen by `first` and `second`.
    pub fn set_state(&mut self, name: &str, start_level: i32, first: i32, second: i32)
        ensures
            final(self).wf(),
            !final(self).spec_over(),
            !final(self).spec_pause(),
            final(self).spec_name() == name@,
            final(self).spec_stats() == (Stats {
                score: 0,
                lines: 0,
                level: if 1 <= start_level <= 9 {
                    start_level
                } else {
                    1
                },
            }),
            is_spawned(
                final(self).spec_current(),
                spawn_shape(first as int),
                final(self).spec_stats().level as int,
            ),
            is_spawned(
                final(self).spec_next(),
                spawn_shape(second as int),
                final(self).spec_stats().level as int,
            ),
            forall|p: Point| !final(self).spec_stack().is_occupied(p),
            final(self).spec_movement() == Movement::NONE,
            final(self).spec_latch() == (InputLatch {
                input: DEFAULT_INPUT,
                input_processed: true,
                pressed: false,
                speed_increase: false,
            }),
            final(self).spec_clock() == (Clock {
                started: false,
                first_frame_pending: true,
                timestamp_last_frame: 0,
                timestamp_game_start: 0,
                timestamp_pause_start: 0,
                pause_duration_sum: 0,
            }),
    {
        let level_to_use = if start_level < 1 || start_level > 9 {
            1
        } else {
            start_level
        };
        self.stats = Stats { score: 0, lines: 0, level: level_to_use };
        self.name = name.to_owned();
        self.current_block = new(first, level_to_use);
        self.next_block = new(second, level_to_use);
        self.block_stack = BlockStack::new();
        self.movement = Movement::NONE;
        self.over = false;
        self.pause = false;
        self.latch = InputLatch {
            input: DEFAULT_INPUT,
            input_processed: true,
            pressed: false,
            speed_increase: false,
        };
        self.clock = Clock {
            started: false,
            first_frame_pending: true,
            timestamp_last_frame: 0,
            timestamp_game_start: 0,
            timestamp_pause_start: 0,
            pause_duration_sum: 0,
        };
    }

    pub fn is_over(&self) -> (r: bool)
        ensures
            r == self.spec_over(),
    {
        self.over
    }

    pub fn is_paused(&self) -> (r: bool)
        ensures
            r == self.spec_pause(),
    {
        self.pause
    }

    pub fn get_score(&self) -> (r: i32)
        ensures
            r == self.spec_stats().score,
    {
        self.stats.score
    }

    pub fn get_lines(&self) -> (r: i32)
        ensures
            r == self.spec_stats().lines,
    {
        self.stats.lines
    }

    pub fn get_level(&self) -> (r: i32)
        ensures
            r == self.spec_stats().level,
    {
        self.stats.level
    }

    pub fn get_name(&self) -> (r: &str)
        ensures
            r@ == self.spec_name(),
    {
        self.name.as_str()
    }

    pub fn get_current_block(&self) -> (r: &Block)
        ensures
            *r == self.spec_current(),
    {
        &self.current_block
    }

    pub fn get_next_block(&self) -> (r: &Block)
        ensures
            *r == self.spec_next(),
    {
        &self.next_block
    }

    pub fn get_block_stack(&self) -> (r: &BlockStack)
        ensures
            *r == self.spec_stack(),
    {
        &self.block_stack
    }

    /// The pieces and the stack, for drawing.
    pub fn draw_state(&self) -> (r: DrawState)
        ensures
            *r.current_block == self.spec_current(),
            *r.next_block == self.spec_next(),
            *r.block_stack == self.spec_stack(),
    {
        DrawState {
            current_block: &self.current_block,
            next_block: &self.next_block,
            block_stack: &self.block_stack,
        }
    }

    /// Latches `input` as the command for the next frame; any boost ends.
    pub fn set_input(&mut self, input: char)
        ensures
            final(self).spec_latch() == (InputLatch {
                input: input,
                input_processed: false,
                speed_increase: false,
                ..old(self).spec_latch()
            }),
            final(self).spec_stats() == old(self).spec_stats(),
            final(self).spec_current() == old(self).spec_current(),
            final(self).spec_next() == old(self).spec_next(),
            final(self).spec_stack() == old(self).spec_stack(),
            final(self).spec_clock() == old(self).spec_clock(),
            final(self).spec_over() == old(self).spec_over(),
            final(self).spec_pause() == old(self).spec_pause(),
            final(self).spec_movement() == old(self).spec_movement(),
            final(self).spec_name() == old(self).spec_name(),
    {
        self.latch.input = input;
        self.latch.input_processed = false;
        self.latch.speed_increase = false;
    }

    /// Records whether a key is held: holding the down key (`s`) turns the
    /// boost on, releasing any key turns it off.
    pub fn set_pressed(&mut self, pressed: bool)
        ensures
            final(self).spec_latch() == (InputLatch {
                pressed: pressed,
                speed_increase: if pressed {
                    old(self).spec_latch().input == 's' || old(self).spec_latch().speed_increase
                } else {
                    false
                },
                ..old(self).spec_latch()
            }),
            final(self).spec_stats() == old(self).spec_stats(),
            final(self).spec_current() == old(self).spec_current(),
            final(self).spec_next() == old(self).spec_next(),
            final(self).spec_stack() == old(self).spec_stack(),
            final(self).spec_clock() == old(self).spec_clock(),
            final(self).spec_over() == old(self).spec_over(),
            final(self).spec_pause() == old(self).spec_pause(),
            final(self).spec_movement() == old(self).spec_movement(),
            final(self).spec_name() == old(self).spec_name(),
    {
        self.latch.pressed = pressed;
        if pressed {
            if self.latch.input == 's' {
                self.latch.speed_increase = true;
            }
        } else {
            self.latch.speed_increase = false;
        }
    }

    fn frame_time_threshold(&self) -> (r: i64)
        ensures
            r == FRAME_RATE_SPEED_1 - (if self.latch.speed_increase {
                BOOST_LEVEL as int
            } else {
                self.stats.level as int
            }) * SPEED_INCREASE_MS,
    {
        if self.latch.speed_increase {
            FRAME_RATE_SPEED_1 as i64 - BOOST_LEVEL as i64 * SPEED_INCREASE_MS as i64
        } else {
            let level = self.stats.level as i64;
            assert(i32::MIN * 50 <= level * 50 <= i32::MAX * 50) by (nonlinear_arith)
                requires
                    i32::MIN <= level <= i32::MAX,
            ;
            FRAME_RATE_SPEED_1 as i64 - level * SPEED_INCREASE_MS as i64
        }
    }

    /// Whether more than the frame interval has passed since the last
    /// accepted frame; if so, `timestamp` becomes the last accepted frame.
    fn enough_time_passed(&mut self, timestamp: u32) -> (r: bool)
        ensures
            r == (timestamp > old(self).clock.timestamp_last_frame && timestamp
                - old(self).clock.timestamp_last_frame > frame_interval(
                old(self).stats.level as int,
                old(self).latch.speed_increase,
            )),
            final(self).clock == (Clock {
                timestamp_last_frame: if r {
                    timestamp
                } else {
                    old(self).clock.timestamp_last_frame
                },
                ..old(self).clock
            }),
            final(self).stats == old(self).stats,
            final(self).latch == old(self).latch,
            final(self).current_block == old(self).current_block,
            final(self).next_block == old(self).next_block,
            final(self).block_stack == old(self).block_stack,
            final(self).over == old(self).over,
            final(self).pause == old(self).pause,
            final(self).movement == old(self).movement,
            final(self).name == old(self).name,
    {
        if timestamp > self.clock.timestamp_last_frame {
            let mut threshold = self.frame_time_threshold();
            if threshold < 0 {
                threshold = 0;
            }
            if (timestamp - self.clock.timestamp_last_frame) as i64 > threshold {
                self.clock.timestamp_last_frame = timestamp;
                return true;
            }
        }
        false
    }

    /// Milliseconds of play up to `timestamp`: time since the start, less the
    /// time spent paused (modulo 2^32, as the timestamps are).
    pub fn calc_duration(&self, timestamp: u32) -> (r: u32)
        ensures
            r == vstd::wrapping::u32_specs::wrapping_sub(
                vstd::wrapping::u32_specs::wrapping_sub(
                    timestamp,
                    self.spec_clock().timestamp_game_start,
                ),
                self.spec_clock().pause_duration_sum,
            ),
    {
        timestamp.wrapping_sub(self.clock.timestamp_game_start).wrapping_sub(
            self.clock.pause_duration_sum,
        )
    }

    /// Gravity, then the latched input. Unless `first_frame`, the piece falls
    /// one row, or, when any cell is blocked below, stays and `false` is
    /// returned with the input left pending. Then a pending input is applied
    /// once: a shift or a rotation that would leave the board or hit the stack
    /// is dropped as a whole.
    #[verifier::rlimit(50)]
    fn move_block_and_check_collision(&mut self, first_frame: bool) -> (r: bool)
        requires
            old(self).wf(),
            !old(self).over,
        ensures
            final(self).wf(),
            r == (first_frame || move_ok(
                old(self).block_stack,
                old(self).current_block.cells(),
                0,
                1,
            )),
            ({
                let c0 = old(self).current_block.cells();
                let c1 = if first_frame {
                    c0
                } else {
                    shifted(c0, 0, 1)
                };
                if !r {
                    &&& final(self).current_block.cells() == c0
                    &&& final(self).latch == old(self).latch
                } else if old(self).latch.input_processed {
                    &&& final(self).current_block.cells() == c1
                    &&& final(self).latch == old(self).latch
                } else {
                    &&& final(self).current_block.cells() == moved_cells(
                        old(self).block_stack,
                        old(self).current_block.shape(),
                        c1,
                        old(self).movement,
                    )
                    &&& final(self).latch == (InputLatch {
                        input_processed: true,
                        ..old(self).latch
                    })
                }
            }),
            final(self).current_block.shape() == old(self).current_block.shape(),
            final(self).current_block.spec_colour_1() == old(self).current_block.spec_colour_1(),
            final(self).current_block.spec_colour_2() == old(self).current_block.spec_colour_2(),
            final(self).stats == old(self).stats,
            final(self).clock == old(self).clock,
            final(self).next_block == old(self).next_block,
            final(self).block_stack == old(self).block_stack,
            final(self).over == old(self).over,
            final(self).pause == old(self).pause,
            final(self).movement == old(self).movement,
            final(self).name == old(self).name,
    {
        let ghost c0 = self.current_block.cells();
        if !first_frame {
            let all_pieces_ok = moves_ok(&self.block_stack, self.current_block.get_pieces(), 0, 1);
            if all_pieces_ok {
                shift_block(&mut self.current_block, 0, 1);
                proof {
                    lemma_shift_keeps(self.block_stack, c0, 0, 1);
                }
            } else {
                return false;
            }
        }
        if self.latch.input_processed {
            return true;
        }
        self.latch.input_processed = true;
        let ghost c1 = self.current_block.cells();
        match self.movement {
            Movement::LEFT => {
                if moves_ok(&self.block_stack, self.current_block.get_pieces(), -1, 0) {
                    shift_block(&mut self.current_block, -1, 0);
                    proof {
                        lemma_shift_keeps(self.block_stack, c1, -1, 0);
                    }
                }
            },
            Movement::RIGHT => {
                if moves_ok(&self.block_stack, self.current_block.get_pieces(), 1, 0) {
                    shift_block(&mut self.current_block, 1, 0);
                    proof {
                        lemma_shift_keeps(self.block_stack, c1, 1, 0);
                    }
                }
            },
            Movement::RotateLeft => {
                proof {
                    if c1.len() > 1 {
                        assert(in_board(c1[1]));
                    }
                    lemma_turn_keeps_cells_distinct(self.current_block.shape(), c1);
                }
                let rotated = self.current_block.get_rotated_left();
                if rotation_fits(&self.block_stack, &rotated) {
                    self.current_block.apply_rotated(&rotated);
                    proof {
                        let c = self.current_block.cells();
                        assert(c.len() == c1.len());
                        assert forall|i: int| 0 <= i < c.len() implies in_board(#[trigger] c[i]) by {
                            assert(0 < c[i].x < GAME_WIDTH);
                        }
                    }
                }
            },
            Movement::RotateRight => {
                proof {
                    if c1.len() > 1 {
                        assert(in_board(c1[1]));
                    }
                    lemma_turn_keeps_cells_distinct(self.current_block.shape(), c1);
                }
                let rotated = self.current_block.get_rotated_right();
                if rotation_fits(&self.block_stack, &rotated) {
                    self.current_block.apply_rotated(&rotated);
                    proof {
                        let c = self.current_block.cells();
                        assert(c.len() == c1.len());
                        assert forall|i: int| 0 <= i < c.len() implies in_board(#[trigger] c[i]) by {
                            assert(0 < c[i].x < GAME_WIDTH);
                        }
                    }
                }
            },
            Movement::NONE => {},
        }
        true
    }

    /// Updates lines, level and score after `num_of_rows` rows were cleared,
    /// and recolours the preview piece on a level change.
    fn handle_rows_removed(&mut self, num_of_rows: usize)
        requires
            old(self).stats.level >= 1,
            old(self).stats.lines >= 0,
            old(self).stats.score >= 0,
            is_shape(old(self).next_block.shape()),
            old(self).next_block.wf(),
            cells_in_board(old(self).next_block.cells()),
            old(self).next_block.cells() == spawn_cells(old(self).next_block.shape()),
        ensures
            final(self).stats == stats_after_clear(old(self).stats, num_of_rows as int),
            final(self).stats.level >= 1,
            final(self).stats.lines >= 0,
            final(self).stats.score >= 0,
            if final(self).stats.level != old(self).stats.level {
                is_spawned(
                    final(self).next_block,
                    spawn_shape(shape_index(old(self).next_block.shape())),
                    final(self).stats.level as int,
                )
            } else {
                final(self).next_block == old(self).next_block
            },
            final(self).next_block.shape() == old(self).next_block.shape(),
            final(self).next_block.wf(),
            cells_in_board(final(self).next_block.cells()),
            final(self).next_block.cells() == spawn_cells(final(self).next_block.shape()),
            final(self).clock == old(self).clock,
            final(self).latch == old(self).latch,
            final(self).current_block == old(self).current_block,
            final(self).block_stack == old(self).block_stack,
            final(self).over == old(self).over,
            final(self).pause == old(self).pause,
            final(self).movement == old(self).movement,
            final(self).name == old(self).name,
    {
        let level = self.stats.level;
        self.stats = stats_for_cleared_rows(self.stats, num_of_rows);
        if self.stats.level != level {
            let rand = rand_for_block(&self.next_block);
            self.next_block = new(rand, self.stats.level);
        }
    }

    /// Reads the latched input: a movement command is stored for the frame,
    /// the space bar toggles the pause.
    fn process_input(&mut self, timestamp: u32)
        requires
            old(self).pause ==> old(self).clock.timestamp_pause_start <= timestamp,
        ensures
            final(self).movement == if old(self).latch.input == ' ' {
                Movement::NONE
            } else {
                input_movement(old(self).latch.input, old(self).movement)
            },
            final(self).pause == (old(self).pause != (old(self).latch.input == ' ')),
            old(self).latch.input == ' ' ==> final(self).latch == (InputLatch {
                input: DEFAULT_INPUT,
                input_processed: true,
                ..old(self).latch
            }),
            old(self).latch.input == 'p' ==> final(self).latch == (InputLatch {
                input_processed: true,
                ..old(self).latch
            }),
            old(self).latch.input != ' ' && old(self).latch.input != 'p' ==> final(self).latch
                == old(self).latch,
            old(self).latch.input != ' ' ==> final(self).clock == old(self).clock,
            final(self).clock.started == old(self).clock.started,
            final(self).clock.timestamp_game_start == old(self).clock.timestamp_game_start,
            old(self).latch.input == ' ' ==> final(self).clock == paused_clock(
                old(self).clock,
                old(self).pause,
                timestamp,
            ),
            final(self).stats == old(self).stats,
            final(self).current_block == old(self).current_block,
            final(self).next_block == old(self).next_block,
            final(self).block_stack == old(self).block_stack,
            final(self).over == old(self).over,
            final(self).name == old(self).name,
    {
        let input = self.latch.input;
        if input == 'a' {
            self.movement = Movement::LEFT;
        } else if input == 'd' {
            self.movement = Movement::RIGHT;
        } else if input == 'q' {
            self.movement = Movement::RotateLeft;
        } else if input == 'e' {
            self.movement = Movement::RotateRight;
        } else if input == 'p' {
            self.latch.input_processed = true;
        } else if input == ' ' {
            self.toggle_pause(timestamp);
            self.latch.input_processed = true;
            self.movement = Movement::NONE;
        } else {
            self.movement = Movement::NONE;
        }
    }

    /// One simulated frame. Returns `false` on lock-out: the piece is blocked
    /// below while a cell of it is still in the top row. A piece blocked below
    /// elsewhere is locked: its cells join the stack, full rows are cleared
    /// and scored, the preview piece becomes the falling piece and the piece
    /// chosen by `rand` becomes the preview.
    fn update_world(&mut self, first_frame: bool, rand: i32) -> (r: bool)
        requires
            old(self).wf(),
            !old(self).over,
        ensures
            final(self).wf(),
            frame_step(*old(self), *final(self), first_frame, rand, r),
            final(self).clock == old(self).clock,
            final(self).over == old(self).over,
            final(self).pause == old(self).pause,
            final(self).movement == old(self).movement,
            final(self).name == old(self).name,
    {
        let ghost c0 = self.current_block.cells();
        let block_ok = self.move_block_and_check_collision(first_frame);
        if !block_ok {
            let pieces = self.current_block.get_pieces();
            let mut block_still_on_first_row = false;
            let mut i: usize = 0;
            while i < pieces.len()
                invariant
                    i <= pieces.len(),
                    pieces@ == c0,
                    block_still_on_first_row == exists|j: int| 0 <= j < i && (#[trigger] c0[j]).y == 0,
                decreases pieces.len() - i,
            {
                if pieces[i].y == 0 {
                    block_still_on_first_row = true;
                }
                i = i + 1;
            }
            if block_still_on_first_row {
                return false;
            }
            let ghost next0 = self.next_block;
            self.block_stack.add_block_to_stack(&self.current_block);
            let ghost settled = self.block_stack;
            let num_of_rows = self.block_stack.reduce_stack(GAME_WIDTH);
            if num_of_rows > 0 {
                self.handle_rows_removed(num_of_rows);
            }
            assert(self.next_block.shape() == next0.shape());
            let mut fresh = new(rand, self.stats.level);
            std::mem::swap(&mut self.next_block, &mut fresh);
            self.current_block = fresh;
            assert(settled.wf());
        }
        true
    }

    /// The tick entry point, called once per animation frame. A game that is
    /// over ignores ticks. The first tick of a session only latches
    /// `timestamp` as its start. After that nothing happens until more than
    /// the frame interval has passed since the last accepted frame. An
    /// accepted frame reads the input, then, unless paused, runs gravity and
    /// the input (no gravity on the first accepted frame of the session). A
    /// lock-out ends the game. `rand` chooses the piece spawned should the
    /// falling piece lock in this frame.
    pub fn world_loop_contents(&mut self, timestamp: u32, rand: i32) -> (r: TickOutcome)
        requires
            old(self).wf(),
        ensures
            final(self).wf(),
            old(self).spec_over() ==> r == TickOutcome::Idle,
            !old(self).spec_clock().started ==> r == TickOutcome::Idle,
            r == TickOutcome::Idle ==> {
                &&& final(self).spec_stats() == old(self).spec_stats()
                &&& final(self).spec_current() == old(self).spec_current()
                &&& final(self).spec_next() == old(self).spec_next()
                &&& final(self).spec_stack() == old(self).spec_stack()
                &&& final(self).spec_latch() == old(self).spec_latch()
                &&& final(self).spec_pause() == old(self).spec_pause()
                &&& final(self).spec_over() == old(self).spec_over()
                &&& final(self).spec_movement() == old(self).spec_movement()
                &&& final(self).spec_name() == old(self).spec_name()
                &&& final(self).spec_clock() == if old(self).spec_over() || old(
                    self,
                ).spec_clock().started {
                    old(self).spec_clock()
                } else {
                    Clock { started: true, timestamp_game_start: timestamp, ..old(self).spec_clock() }
                }
            },
            !old(self).spec_over() && old(self).spec_clock().started ==> (r == TickOutcome::Idle
                <==> !(timestamp > old(self).spec_clock().timestamp_last_frame && timestamp - old(
                self,
            ).spec_clock().timestamp_last_frame > frame_interval(
                old(self).spec_stats().level as int,
                old(self).spec_latch().speed_increase,
            ))),
            r != TickOutcome::Idle ==> exists|mid: Game|
                {
                    &&& #[trigger] input_read(*old(self), mid, timestamp)
                    &&& (r == TickOutcome::Paused <==> mid.spec_pause())
                    &&& r == TickOutcome::Paused ==> *final(self) == mid
                    &&& r != TickOutcome::Paused ==> frame_step(
                        mid,
                        *final(self),
                        old(self).spec_clock().first_frame_pending,
                        rand,
                        r == TickOutcome::Running,
                    )
                },
            final(self).spec_over() == (old(self).spec_over() || r == TickOutcome::GameOver),
            r == TickOutcome::GameOver ==> !old(self).spec_clock().first_frame_pending,
            final(self).spec_clock().timestamp_game_start == if old(self).spec_over() || old(
                self,
            ).spec_clock().started {
                old(self).spec_clock().timestamp_game_start
            } else {
                timestamp
            },
    {
        if self.over {
            return TickOutcome::Idle;
        }
        if !self.clock.started {
            self.clock.started = true;
            self.clock.timestamp_game_start = timestamp;
            return TickOutcome::Idle;
        }
        if !self.enough_time_passed(timestamp) {
            return TickOutcome::Idle;
        }
        let first_frame = self.clock.first_frame_pending;
        self.clock.first_frame_pending = false;
        self.process_input(timestamp);
        let ghost mid = *self;
        assert(input_read(*old(self), mid, timestamp));
        if self.pause {
            return TickOutcome::Paused;
        }
        if self.update_world(first_frame, rand) {
            TickOutcome::Running
        } else {
            self.over = true;
            TickOutcome::GameOver
        }
    }

    fn toggle_pause(&mut self, timestamp: u32)
        requires
            old(self).pause ==> old(self).clock.timestamp_pause_start <= timestamp,
        ensures
            final(self).pause == !old(self).pause,
            final(self).clock == paused_clock(old(self).clock, old(self).pause, timestamp),
            final(self).latch == (InputLatch { input: DEFAULT_INPUT, ..old(self).latch }),
            final(self).stats == old(self).stats,
            final(self).current_block == old(self).current_block,
            final(self).next_block == old(self).next_block,
            final(self).block_stack == old(self).block_stack,
            final(self).over == old(self).over,
            final(self).movement == old(self).movement,
            final(self).name == old(self).name,
    {
        if !self.pause {
            self.clock.timestamp_pause_start = timestamp;
        } else {
            self.clock.pause_duration_sum = self.clock.pause_duration_sum.wrapping_add(
                timestamp - self.clock.timestamp_pause_start,
            );
            self.clock.timestamp_pause_start = 0;
        }
        self.pause = !self.pause;
        self.latch.input = DEFAULT_INPUT;
    }
}

} // verus!
