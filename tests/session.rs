use tetris::game::{stats_for_cleared_rows, Game, Stats, TickOutcome};
use tetris::objects::Point;

fn cells(g: &Game) -> Vec<Point> {
    g.get_current_block().get_pieces().clone()
}

fn fresh(shape: i32) -> Game {
    let mut g = Game::default();
    g.set_state("player", 1, shape, 0);
    g
}

/// A session whose start has been latched at time 0.
fn started(shape: i32) -> Game {
    let mut g = fresh(shape);
    assert_eq!(g.world_loop_contents(0, 0), TickOutcome::Idle);
    g
}

#[test]
fn default_game_is_over_and_ignores_ticks() {
    let mut g = Game::default();
    assert!(g.is_over());
    assert_eq!(g.world_loop_contents(5000, 0), TickOutcome::Idle);
    assert_eq!(g.calc_duration(5000), 5000);
}

#[test]
fn set_state_clamps_start_level() {
    let mut g = Game::default();
    g.set_state("a", 0, 0, 0);
    assert_eq!(g.get_level(), 1);
    g.set_state("a", 10, 0, 0);
    assert_eq!(g.get_level(), 1);
    g.set_state("a", -4, 0, 0);
    assert_eq!(g.get_level(), 1);
    g.set_state("a", 9, 0, 0);
    assert_eq!(g.get_level(), 9);
    assert!(!g.is_over());
    assert_eq!(g.get_score(), 0);
    assert_eq!(g.get_lines(), 0);
    assert_eq!(g.get_name(), "a");
}

#[test]
fn first_accepted_frame_skips_gravity() {
    let mut g = started(0);
    let spawn = cells(&g);
    assert_eq!(g.world_loop_contents(1000, 0), TickOutcome::Running);
    assert_eq!(cells(&g), spawn);
    assert_eq!(g.world_loop_contents(2000, 0), TickOutcome::Running);
    let moved: Vec<Point> = spawn.iter().map(|c| Point { x: c.x, y: c.y + 1 }).collect();
    assert_eq!(cells(&g), moved);
}

#[test]
fn first_tick_only_latches_the_start() {
    let mut g = fresh(0);
    let spawn = cells(&g);
    // the first tick only latches the start
    assert_eq!(g.world_loop_contents(100, 0), TickOutcome::Idle);
    assert_eq!(cells(&g), spawn);
    assert_eq!(g.world_loop_contents(400, 0), TickOutcome::Idle);
    assert_eq!(g.world_loop_contents(600, 0), TickOutcome::Running);
    // still the first accepted frame: no gravity
    assert_eq!(cells(&g), spawn);
    assert_eq!(g.calc_duration(600), 500);
}

#[test]
fn frame_gate_needs_more_than_the_interval() {
    let mut g = started(0);
    assert_eq!(g.world_loop_contents(1000, 0), TickOutcome::Running);
    // level 1: 500 - 50 = 450 ms
    assert_eq!(g.world_loop_contents(1450, 0), TickOutcome::Idle);
    assert_eq!(g.world_loop_contents(1451, 0), TickOutcome::Running);
    assert_eq!(g.world_loop_contents(1451, 0), TickOutcome::Idle);
}

#[test]
fn boost_shortens_the_interval() {
    let mut g = started(0);
    assert_eq!(g.world_loop_contents(1000, 0), TickOutcome::Running);
    g.set_input('s');
    g.set_pressed(true);
    // boost: 500 - 8 * 50 = 100 ms
    assert_eq!(g.world_loop_contents(1100, 0), TickOutcome::Idle);
    assert_eq!(g.world_loop_contents(1101, 0), TickOutcome::Running);
    g.set_pressed(false);
    assert_eq!(g.world_loop_contents(1300, 0), TickOutcome::Idle);
}

#[test]
fn pause_toggles_and_is_not_counted_in_duration() {
    let mut g = started(0);
    assert_eq!(g.world_loop_contents(1000, 0), TickOutcome::Running);
    g.set_input(' ');
    assert_eq!(g.world_loop_contents(2000, 0), TickOutcome::Paused);
    assert!(g.is_paused());
    let frozen = cells(&g);
    assert_eq!(g.world_loop_contents(3000, 0), TickOutcome::Paused);
    assert_eq!(cells(&g), frozen);
    g.set_input(' ');
    assert_eq!(g.world_loop_contents(5000, 0), TickOutcome::Running);
    assert!(!g.is_paused());
    // 5000 ms since the start, 3000 of them paused
    assert_eq!(g.calc_duration(5000), 2000);
}

#[test]
fn input_is_applied_once() {
    let mut g = started(0);
    g.set_input('a');
    assert_eq!(g.world_loop_contents(1000, 0), TickOutcome::Running);
    assert_eq!(cells(&g)[0], Point { x: 6, y: 0 });
    assert_eq!(g.world_loop_contents(2000, 0), TickOutcome::Running);
    assert_eq!(cells(&g)[0], Point { x: 6, y: 1 });
}

#[test]
fn rotation_off_the_board_is_rejected_for_every_shape() {
    for shape in 0..7 {
        for key in ['q', 'e'] {
            let mut g = started(shape);
            let spawn = cells(&g);
            g.set_input(key);
            assert_eq!(g.world_loop_contents(1000, 0), TickOutcome::Running);
            assert_eq!(cells(&g), spawn, "shape {} key {}", shape, key);
        }
    }
}

#[test]
fn rotation_inside_the_board_is_applied() {
    let mut g = started(1);
    assert_eq!(g.world_loop_contents(1000, 0), TickOutcome::Running);
    assert_eq!(g.world_loop_contents(2000, 0), TickOutcome::Running);
    g.set_input('q');
    assert_eq!(g.world_loop_contents(3000, 0), TickOutcome::Running);
    // tee with pivot (8, 2) after two gravity steps, turned left
    assert_eq!(
        cells(&g),
        vec![Point { x: 8, y: 1 }, Point { x: 8, y: 2 }, Point { x: 8, y: 3 }, Point { x: 9, y: 2 }]
    );
}

fn push_to_wall(shape: i32, key: char) {
    let mut g = started(shape);
    let mut t: u32 = 1000;
    let mut last = cells(&g);
    let mut blocked = false;
    for _ in 0..12 {
        g.set_input(key);
        assert_eq!(g.world_loop_contents(t, 0), TickOutcome::Running);
        t += 1000;
        let now = cells(&g);
        let dy = now[0].y - last[0].y;
        let expected: Vec<Point> = last.iter().map(|c| Point { x: c.x, y: c.y + dy }).collect();
        if now == expected {
            blocked = true;
            let wall = if key == 'a' { 0 } else { 15 };
            assert!(now.iter().any(|c| c.x == wall));
        }
        assert!(now.iter().all(|c| c.x >= 0 && c.x < 16));
        last = now;
    }
    assert!(blocked, "shape {} never reached the wall", shape);
}

#[test]
fn shifts_past_the_wall_are_rejected_for_every_shape() {
    for shape in 0..7 {
        push_to_wall(shape, 'a');
        push_to_wall(shape, 'd');
    }
}

#[test]
fn stacking_pieces_ends_in_lock_out_after_the_first_frame() {
    let mut g = started(0);
    let mut t: u32 = 1000;
    let mut outcome = g.world_loop_contents(t, 0);
    assert_eq!(outcome, TickOutcome::Running);
    let mut frames = 1;
    while outcome != TickOutcome::GameOver && frames < 5000 {
        t += 1000;
        outcome = g.world_loop_contents(t, 0);
        frames += 1;
    }
    assert_eq!(outcome, TickOutcome::GameOver);
    assert!(g.is_over());
    assert!(g.get_current_block().get_pieces().iter().any(|c| c.y == 0));
    assert_eq!(g.world_loop_contents(t + 1000, 0), TickOutcome::Idle);
    // 29 long pieces fill rows 29 to 1 of the middle columns
    assert_eq!(g.get_block_stack().get_stack().len(), 29);
}

#[test]
fn scoring_per_rows_cleared_at_level_two() {
    let s = Stats { score: 0, lines: 0, level: 2 };
    assert_eq!(stats_for_cleared_rows(s, 1), Stats { score: 2, lines: 1, level: 2 });
    assert_eq!(stats_for_cleared_rows(s, 2), Stats { score: 6, lines: 2, level: 2 });
    assert_eq!(stats_for_cleared_rows(s, 3), Stats { score: 8, lines: 3, level: 2 });
    assert_eq!(stats_for_cleared_rows(s, 4), Stats { score: 16, lines: 4, level: 2 });
    assert_eq!(stats_for_cleared_rows(s, 5), Stats { score: 0, lines: 5, level: 2 });
}

#[test]
fn lines_accumulate_and_level_rises_once_per_threshold() {
    let mut s = Stats { score: 0, lines: 0, level: 1 };
    s = stats_for_cleared_rows(s, 4);
    s = stats_for_cleared_rows(s, 4);
    assert_eq!(s, Stats { score: 16, lines: 8, level: 1 });
    s = stats_for_cleared_rows(s, 1);
    assert_eq!(s, Stats { score: 17, lines: 9, level: 1 });
    // lines reach 10 = level * 10: one level-up; the row scores at level 1
    s = stats_for_cleared_rows(s, 1);
    assert_eq!(s, Stats { score: 18, lines: 10, level: 2 });
    s = stats_for_cleared_rows(s, 9);
    assert_eq!(s, Stats { score: 18, lines: 19, level: 2 });
    s = stats_for_cleared_rows(s, 1);
    assert_eq!(s, Stats { score: 20, lines: 20, level: 3 });
}

#[test]
fn counts_saturate_at_the_largest_value() {
    let s = Stats { score: i32::MAX - 1, lines: i32::MAX - 1, level: 3 };
    let r = stats_for_cleared_rows(s, 4);
    assert_eq!(r.lines, i32::MAX);
    assert_eq!(r.score, i32::MAX);
}
