use std::cmp::Ordering;

use tetris::highscore::{add_entry, default_duration, HighscoreEntry, MAX_ENTRIES};

fn entry(name: &str, score: i32, lines: i32, level: i32, duration: u32, time: &str) -> HighscoreEntry {
    HighscoreEntry {
        name: name.to_string(),
        score,
        lines,
        level,
        duration,
        time: time.to_string(),
    }
}

fn names(v: &[HighscoreEntry]) -> Vec<String> {
    v.iter().map(|e| e.name.clone()).collect()
}

#[test]
fn shorter_duration_ranks_first_on_equal_results() {
    let slow = entry("slow", 100, 5, 2, 1000, "2024-01-01 10:00:00");
    let fast = entry("fast", 100, 5, 2, 500, "2024-01-01 10:00:00");
    assert_eq!(fast.cmp_rank(&slow), Ordering::Less);
    assert_eq!(slow.cmp_rank(&fast), Ordering::Greater);
    let mut v = vec![slow];
    add_entry(&mut v, fast);
    assert_eq!(names(&v), vec!["fast", "slow"]);
}

#[test]
fn rank_keys_in_order() {
    let base = entry("a", 100, 5, 2, 1000, "2024-01-01 10:00:00");
    assert_eq!(entry("b", 101, 0, 1, 9999, "").cmp_rank(&base), Ordering::Less);
    assert_eq!(entry("b", 100, 6, 1, 9999, "").cmp_rank(&base), Ordering::Less);
    assert_eq!(entry("b", 100, 5, 3, 9999, "").cmp_rank(&base), Ordering::Less);
    assert_eq!(entry("b", 100, 5, 2, 999, "").cmp_rank(&base), Ordering::Less);
    assert_eq!(entry("b", 100, 5, 2, 1000, "2024-01-01 10:00:01").cmp_rank(&base), Ordering::Less);
    assert_eq!(entry("b", 100, 5, 2, 1000, "2024-01-01 09:59:59").cmp_rank(&base), Ordering::Greater);
    assert_eq!(entry("b", 100, 5, 2, 1000, "2024-01-01 10:00:00").cmp_rank(&base), Ordering::Equal);
    assert_eq!(entry("b", 99, 50, 9, 1, "9").cmp_rank(&base), Ordering::Greater);
}

#[test]
fn add_entry_sorts_the_list() {
    let mut v = vec![
        entry("c", 10, 1, 1, 10, "t"),
        entry("a", 30, 1, 1, 10, "t"),
    ];
    add_entry(&mut v, entry("b", 20, 1, 1, 10, "t"));
    assert_eq!(names(&v), vec!["a", "b", "c"]);
}

#[test]
fn adding_to_a_full_list_drops_the_lowest() {
    let mut v = Vec::new();
    for i in 0..MAX_ENTRIES {
        add_entry(&mut v, entry(&format!("player{}", i), 100 + i as i32, 1, 1, 10, "t"));
    }
    assert_eq!(v.len(), MAX_ENTRIES);
    assert_eq!(v[0].name, "player19");
    assert_eq!(v[MAX_ENTRIES - 1].name, "player0");
    add_entry(&mut v, entry("new", 105, 1, 1, 10, "t"));
    assert_eq!(v.len(), MAX_ENTRIES);
    assert!(v.iter().all(|e| e.name != "player0"));
    assert!(v.iter().any(|e| e.name == "new"));
    assert_eq!(v[MAX_ENTRIES - 1].name, "player1");
}

#[test]
fn adding_a_worse_entry_to_a_full_list_drops_it() {
    let mut v = Vec::new();
    for i in 0..MAX_ENTRIES {
        add_entry(&mut v, entry(&format!("player{}", i), 100 + i as i32, 1, 1, 10, "t"));
    }
    add_entry(&mut v, entry("late", 1, 1, 1, 10, "t"));
    assert_eq!(v.len(), MAX_ENTRIES);
    assert!(v.iter().all(|e| e.name != "late"));
}

#[test]
fn equal_entries_keep_their_order() {
    let mut v = vec![entry("first", 5, 1, 1, 10, "t")];
    add_entry(&mut v, entry("second", 5, 1, 1, 10, "t"));
    assert_eq!(names(&v), vec!["first", "second"]);
}

#[test]
fn missing_duration_defaults_to_99_59() {
    assert_eq!(default_duration(), 5_999_000);
}
