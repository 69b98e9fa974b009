use tetris::block_stack::BlockStack;
use tetris::blocks::{new, Block};
use tetris::objects::Point;

fn p(x: i32, y: i32) -> Point {
    Point { x, y }
}

fn block_with(cells: Vec<Point>) -> Block {
    let mut b = new(1, 1);
    *b.get_pieces_mut() = cells;
    b
}

fn row_cells(stack: &BlockStack, row: i32) -> Vec<Point> {
    let mut v: Vec<Point> = stack
        .get_stack()
        .get(&row)
        .map(|r| r.iter().map(|b| b.get_pieces()[0]).collect())
        .unwrap_or_default();
    v.sort_by_key(|c| (c.y, c.x));
    v
}

fn row_keys(stack: &BlockStack) -> Vec<i32> {
    let mut keys: Vec<i32> = stack.get_stack().keys().copied().collect();
    keys.sort();
    keys
}

#[test]
fn new_stack_is_free_everywhere() {
    let stack = BlockStack::new();
    assert!(stack.check_collision(&p(0, 0)));
    assert!(stack.check_collision(&p(15, 29)));
    assert!(stack.get_stack().is_empty());
}

#[test]
fn commit_occupies_exactly_its_cells() {
    let mut stack = BlockStack::new();
    stack.add_block_to_stack(&block_with(vec![p(1, 5), p(2, 5), p(2, 6), p(3, 6)]));
    stack.add_block_to_stack(&block_with(vec![p(7, 9)]));
    for c in [p(1, 5), p(2, 5), p(2, 6), p(3, 6), p(7, 9)] {
        assert!(!stack.check_collision(&c));
    }
    for c in [p(0, 5), p(3, 5), p(1, 6), p(7, 8), p(8, 9), p(-1, -1)] {
        assert!(stack.check_collision(&c));
    }
    assert_eq!(row_keys(&stack), vec![5, 6, 9]);
    assert_eq!(row_cells(&stack, 5), vec![p(1, 5), p(2, 5)]);
}

#[test]
fn commit_keeps_insertion_order_within_a_row() {
    let mut stack = BlockStack::new();
    stack.add_block_to_stack(&block_with(vec![p(3, 4), p(1, 4)]));
    stack.add_block_to_stack(&block_with(vec![p(2, 4)]));
    let row: Vec<i32> = stack.get_stack()[&4].iter().map(|b| b.get_pieces()[0].x).collect();
    assert_eq!(row, vec![3, 1, 2]);
}

#[test]
fn no_complete_row_leaves_stack_unchanged() {
    let mut stack = BlockStack::new();
    stack.add_block_to_stack(&block_with(vec![p(0, 2), p(1, 2), p(3, 2), p(2, 3)]));
    assert_eq!(stack.reduce_stack(4), 0);
    assert_eq!(row_keys(&stack), vec![2, 3]);
    assert_eq!(row_cells(&stack, 2), vec![p(0, 2), p(1, 2), p(3, 2)]);
    assert_eq!(row_cells(&stack, 3), vec![p(2, 3)]);
}

#[test]
fn clearing_keeps_order_of_a_moved_row() {
    // row 0 holds three cells in insertion order 3, 0, 2; row 1 is full
    let mut cells = vec![p(3, 0), p(0, 0), p(2, 0)];
    for x in 0..4 {
        cells.push(p(x, 1));
    }
    let mut stack = BlockStack::new();
    stack.add_block_to_stack(&block_with(cells));
    assert_eq!(stack.reduce_stack(4), 1);
    let row: Vec<Point> = stack.get_stack()[&1].iter().map(|b| b.get_pieces()[0]).collect();
    assert_eq!(row, vec![p(3, 1), p(0, 1), p(2, 1)]);
    assert_eq!(row_keys(&stack), vec![1]);
}

#[test]
fn clearing_top_rows_keeps_lower_row_in_place() {
    // rows 0, 1 and 2 are full, row 3 (below them) holds one cell
    let mut cells = Vec::new();
    for y in 0..3 {
        for x in 0..4 {
            cells.push(p(x, y));
        }
    }
    cells.push(p(1, 3));
    let mut stack = BlockStack::new();
    stack.add_block_to_stack(&block_with(cells));
    assert_eq!(stack.reduce_stack(4), 3);
    // no cleared row lies below row 3, so it does not move
    assert_eq!(row_keys(&stack), vec![3]);
    assert_eq!(row_cells(&stack, 3), vec![p(1, 3)]);
}

#[test]
fn rows_above_cleared_rows_move_down() {
    // row 0 holds one cell, rows 1, 2 and 3 are full
    let mut cells = vec![p(2, 0)];
    for y in 1..4 {
        for x in 0..4 {
            cells.push(p(x, y));
        }
    }
    let mut stack = BlockStack::new();
    stack.add_block_to_stack(&block_with(cells));
    assert_eq!(stack.reduce_stack(4), 3);
    assert_eq!(row_keys(&stack), vec![3]);
    assert_eq!(row_cells(&stack, 3), vec![p(2, 3)]);
    let moved = &stack.get_stack()[&3][0];
    assert_eq!(moved.get_colour_1(), "#00F");
    assert_eq!(moved.get_colour_2(), "#009");
    assert!(!stack.check_collision(&p(2, 3)));
    assert!(stack.check_collision(&p(2, 0)));
}

#[test]
fn interleaved_rows_shift_by_cleared_rows_below() {
    // rows 1 and 3 full; row 0 moves by 2, row 2 by 1, row 4 stays
    let mut cells = vec![p(0, 0), p(1, 2), p(2, 4)];
    for y in [1, 3] {
        for x in 0..3 {
            cells.push(p(x, y));
        }
    }
    let mut stack = BlockStack::new();
    stack.add_block_to_stack(&block_with(cells));
    assert_eq!(stack.reduce_stack(3), 2);
    assert_eq!(row_keys(&stack), vec![2, 3, 4]);
    assert_eq!(row_cells(&stack, 2), vec![p(0, 2)]);
    assert_eq!(row_cells(&stack, 3), vec![p(1, 3)]);
    assert_eq!(row_cells(&stack, 4), vec![p(2, 4)]);
}

#[test]
fn full_width_board_clears_four_rows() {
    let mut cells = Vec::new();
    for y in 26..30 {
        for x in 0..16 {
            cells.push(p(x, y));
        }
    }
    cells.push(p(5, 25));
    let mut stack = BlockStack::new();
    stack.add_block_to_stack(&block_with(cells));
    assert_eq!(stack.reduce_stack(16), 4);
    assert_eq!(row_keys(&stack), vec![29]);
    assert_eq!(row_cells(&stack, 29), vec![p(5, 29)]);
}
