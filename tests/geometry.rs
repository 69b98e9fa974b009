use tetris::blocks::{default_block, new, rand_for_block, stack_blocks, Block, BlockType};
use tetris::colours::colours_for_level;
use tetris::objects::Point;

fn p(x: i32, y: i32) -> Point {
    Point { x, y }
}

fn block_with(selector: i32, cells: Vec<Point>) -> Block {
    let mut b = new(selector, 1);
    *b.get_pieces_mut() = cells;
    b
}

fn cells(b: &Block) -> Vec<Point> {
    b.get_pieces().clone()
}

#[test]
fn spawn_long_is_centred_on_top_row() {
    let b = new(0, 1);
    assert_eq!(b.get_block_type(), BlockType::Long);
    assert_eq!(cells(&b), vec![p(7, 0), p(8, 0), p(9, 0), p(10, 0)]);
    assert_eq!(b.get_colour_1(), "#00F");
    assert_eq!(b.get_colour_2(), "#009");
}

#[test]
fn spawn_every_shape() {
    assert_eq!(cells(&new(1, 1)), vec![p(7, 0), p(8, 0), p(9, 0), p(8, 1)]);
    assert_eq!(cells(&new(2, 1)), vec![p(7, 0), p(8, 0), p(7, 1), p(8, 1)]);
    assert_eq!(cells(&new(3, 1)), vec![p(7, 0), p(8, 0), p(8, 1), p(9, 1)]);
    assert_eq!(cells(&new(4, 1)), vec![p(7, 1), p(8, 1), p(8, 0), p(9, 0)]);
    assert_eq!(cells(&new(5, 1)), vec![p(7, 0), p(8, 0), p(9, 0), p(7, 1)]);
    assert_eq!(cells(&new(6, 1)), vec![p(7, 0), p(8, 0), p(9, 0), p(9, 1)]);
    assert_eq!(new(42, 1).get_block_type(), BlockType::LRight);
    assert_eq!(new(-3, 1).get_block_type(), BlockType::LRight);
}

#[test]
fn spawn_colours_follow_shape_and_level() {
    let quad = new(2, 2);
    assert_eq!(quad.get_colour_1(), "#900");
    assert_eq!(quad.get_colour_2(), "#F00");
    let step_left = new(3, 3);
    assert_eq!(step_left.get_colour_1(), "#0F0");
    assert_eq!(step_left.get_colour_2(), "#0F0");
    let step_right = new(4, 3);
    assert_eq!(step_right.get_colour_1(), "#090");
    assert_eq!(step_right.get_colour_2(), "#090");
}

#[test]
fn palette_wraps_one_indexed() {
    assert_eq!(colours_for_level(1).colour_1, "#00F");
    assert_eq!(colours_for_level(9).colour_1, "#090");
    assert_eq!(colours_for_level(10).colour_1, "#999");
    assert_eq!(colours_for_level(10).colour_2, "#333");
    assert_eq!(colours_for_level(10).colour_bg, "#999");
    assert_eq!(colours_for_level(11).colour_1, "#00F");
    assert_eq!(colours_for_level(20).colour_1, "#999");
    assert_eq!(colours_for_level(21).colour_bg, "#00F");
}

#[test]
fn rand_for_block_inverts_new() {
    for k in 0..7 {
        assert_eq!(rand_for_block(&new(k, 1)), k);
    }
    assert_eq!(rand_for_block(&default_block()), -1);
}

#[test]
fn stack_blocks_splits_into_cells() {
    let b = new(1, 4);
    let parts = stack_blocks(&b);
    assert_eq!(parts.len(), 4);
    for (i, part) in parts.iter().enumerate() {
        assert_eq!(part.get_block_type(), BlockType::StackBlock);
        assert_eq!(cells(part), vec![b.get_pieces()[i]]);
        assert_eq!(part.get_colour_1(), b.get_colour_1());
        assert_eq!(part.get_colour_2(), b.get_colour_2());
    }
}

#[test]
fn rotate_long_toggles() {
    let b = block_with(0, vec![p(4, 5), p(5, 5), p(6, 5), p(7, 5)]);
    let v = vec![p(5, 4), p(5, 5), p(5, 6), p(5, 7)];
    assert_eq!(b.get_rotated_left(), v);
    assert_eq!(b.get_rotated_right(), v);
    let b2 = block_with(0, v.clone());
    assert_eq!(b2.get_rotated_left(), vec![p(4, 5), p(5, 5), p(6, 5), p(7, 5)]);
}

#[test]
fn rotate_quad_is_identity() {
    let b = new(2, 1);
    assert_eq!(b.get_rotated_left(), cells(&b));
    assert_eq!(b.get_rotated_right(), cells(&b));
}

#[test]
fn rotate_tee_per_direction() {
    let b = block_with(1, vec![p(4, 5), p(5, 5), p(6, 5), p(5, 6)]);
    assert_eq!(b.get_rotated_left(), vec![p(5, 4), p(5, 5), p(5, 6), p(6, 5)]);
    assert_eq!(b.get_rotated_right(), vec![p(5, 4), p(5, 5), p(5, 6), p(4, 5)]);
    let v = block_with(1, vec![p(5, 4), p(5, 5), p(5, 6), p(6, 5)]);
    assert_eq!(v.get_rotated_left(), vec![p(4, 5), p(5, 5), p(6, 5), p(5, 4)]);
    assert_eq!(v.get_rotated_right(), vec![p(4, 5), p(5, 5), p(6, 5), p(5, 6)]);
}

#[test]
fn rotate_steps_toggle() {
    let sl = block_with(3, vec![p(4, 5), p(5, 5), p(5, 6), p(6, 6)]);
    assert_eq!(sl.get_rotated_left(), vec![p(5, 6), p(5, 5), p(6, 5), p(6, 4)]);
    assert_eq!(sl.get_rotated_right(), sl.get_rotated_left());
    let slv = block_with(3, vec![p(5, 6), p(5, 5), p(6, 5), p(6, 4)]);
    assert_eq!(slv.get_rotated_left(), vec![p(6, 5), p(5, 5), p(5, 4), p(4, 4)]);
    let sr = block_with(4, vec![p(4, 5), p(5, 5), p(5, 4), p(6, 4)]);
    assert_eq!(sr.get_rotated_left(), vec![p(5, 6), p(5, 5), p(4, 5), p(4, 4)]);
    assert_eq!(sr.get_rotated_right(), sr.get_rotated_left());
    let srv = block_with(4, vec![p(5, 6), p(5, 5), p(4, 5), p(4, 4)]);
    assert_eq!(srv.get_rotated_left(), vec![p(6, 5), p(5, 5), p(6, 4), p(7, 4)]);
}

#[test]
fn rotate_l_shapes_are_chiral() {
    let ll = block_with(5, vec![p(4, 5), p(5, 5), p(6, 5), p(4, 6)]);
    assert_eq!(ll.get_rotated_left(), vec![p(5, 4), p(5, 5), p(5, 6), p(6, 6)]);
    assert_eq!(ll.get_rotated_right(), vec![p(5, 4), p(5, 5), p(5, 6), p(4, 4)]);
    let lr = block_with(6, vec![p(4, 5), p(5, 5), p(6, 5), p(6, 6)]);
    assert_eq!(lr.get_rotated_left(), vec![p(5, 4), p(5, 5), p(5, 6), p(6, 4)]);
    assert_eq!(lr.get_rotated_right(), vec![p(5, 4), p(5, 5), p(5, 6), p(4, 6)]);
}

fn turn_four_times(selector: i32, left: bool) {
    let start = new(selector, 1);
    let mut b = start.clone();
    // move the piece away from the top so that all orientations are inside
    for c in b.get_pieces_mut().iter_mut() {
        c.y += 5;
    }
    // one turn brings the piece into a layout that turning cycles through
    let first = if left { b.get_rotated_left() } else { b.get_rotated_right() };
    b.apply_rotated(&first);
    let reference = cells(&b);
    for _ in 0..4 {
        let r = if left { b.get_rotated_left() } else { b.get_rotated_right() };
        b.apply_rotated(&r);
    }
    assert_eq!(cells(&b), reference);
}

#[test]
fn four_turns_restore_every_shape() {
    for k in 0..7 {
        turn_four_times(k, true);
        turn_four_times(k, false);
    }
}

#[test]
fn four_turns_restore_spawned_tee_and_l_shapes() {
    for k in [0, 1, 2, 5, 6] {
        let mut b = new(k, 1);
        for c in b.get_pieces_mut().iter_mut() {
            c.y += 5;
        }
        let reference = cells(&b);
        for _ in 0..4 {
            let r = b.get_rotated_left();
            b.apply_rotated(&r);
        }
        assert_eq!(cells(&b), reference);
    }
}

#[test]
fn apply_rotated_replaces_cells() {
    let mut b = new(1, 1);
    let target = vec![p(1, 2), p(2, 2), p(3, 2), p(2, 3)];
    b.apply_rotated(&target);
    assert_eq!(cells(&b), target);
    assert_eq!(b.get_block_type(), BlockType::Tee);
}

#[test]
fn default_block_is_empty() {
    let b = default_block();
    assert!(b.get_pieces().is_empty());
    assert_eq!(b.get_block_type(), BlockType::DefaultBlock);
    assert!(b.get_rotated_left().is_empty());
}
