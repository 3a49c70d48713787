use containerquest::ledger::{ItemError, Ledger};

fn day(d: u64) -> u64 {
    d * 86400
}

#[test]
fn play_score_is_sum_of_parts() {
    let mut l = Ledger::new();
    let r = l.record_play("alice", "build fast --optimize", day(10));
    assert!(1 <= r.speed && r.speed <= 50);
    assert!(r.success_points == 0 || r.success_points == 30);
    assert!(r.creativity <= 20);
    assert_eq!(r.streak, 0);
    assert_eq!(
        r.entry.score,
        r.speed + r.success_points + r.creativity + r.streak
    );
    assert_eq!(r.entry.success, r.success_points == 30);
    if r.entry.success {
        assert_eq!(r.entry.health, 100);
    } else {
        assert_eq!(r.entry.health, 80);
    }
    assert_eq!(r.entry.user, "alice");
    assert_eq!(r.entry.command, "build fast --optimize");
    assert_eq!(r.entry.timestamp, day(10));
    assert_eq!(l.entries.len(), 1);
}

#[test]
fn play_draws_stay_in_range_over_many_runs() {
    let mut l = Ledger::new();
    for i in 0..200u64 {
        let r = l.record_play("bob", "deploy", day(20) + i);
        assert!(1 <= r.speed && r.speed <= 50);
        assert!(r.success_points == 0 || r.success_points == 30);
        assert!(r.creativity <= 20);
        assert!(r.entry.score <= 110);
    }
}

#[test]
fn streak_bonus_on_next_day() {
    let mut l = Ledger::new();
    let first = l.record_play("carol", "build", day(100));
    assert_eq!(first.streak, 0);
    let second = l.record_play("carol", "build", day(101));
    assert_eq!(second.streak, 10);
    assert_eq!(
        second.entry.score,
        second.speed + second.success_points + second.creativity + 10
    );
}

#[test]
fn no_streak_bonus_after_two_day_gap() {
    let mut l = Ledger::new();
    l.record_play("dave", "build", day(100));
    let r = l.record_play("dave", "build", day(103));
    assert_eq!(r.streak, 0);
}

#[test]
fn no_streak_bonus_same_day() {
    let mut l = Ledger::new();
    l.record_play("erin", "build", day(100));
    let r = l.record_play("erin", "build", day(100));
    assert_eq!(r.streak, 0);
}

#[test]
fn streak_looks_at_the_users_own_last_play() {
    let mut l = Ledger::new();
    l.record_play("frank", "build", day(100));
    l.record_play("grace", "build", day(101));
    let r = l.record_play("frank", "build", day(101));
    assert_eq!(r.streak, 10);
    let s = l.record_play("grace", "build", day(103));
    assert_eq!(s.streak, 0);
}

#[test]
fn medkit_on_fresh_ledger_clamps_health() {
    let mut l = Ledger::new();
    let e = l.use_item("Medkit", "alice", day(5)).unwrap();
    assert_eq!(e.health, 100);
    assert_eq!(e.score, 0);
    assert!(e.success);
    assert_eq!(e.user, "alice");
    assert_eq!(e.command, "Used item: Medkit");
    assert_eq!(e.timestamp, day(5));
    assert_eq!(l.entries.len(), 1);
}

#[test]
fn item_lookup_is_case_insensitive() {
    let mut l = Ledger::new();
    assert!(l.use_item("MEDKIT", "a", 0).is_ok());
    assert!(l.use_item("potion", "a", 0).is_ok());
    assert!(l.use_item("PoTiOn", "a", 0).is_ok());
    assert!(l.use_item("Bandage", "a", 0).is_ok());
    assert_eq!(l.entries.len(), 4);
}

#[test]
fn unknown_item_is_an_error_and_changes_nothing() {
    let mut l = Ledger::new();
    l.use_item("Medkit", "a", 0).unwrap();
    let before = l.to_json();
    let r = l.use_item("flamethrower", "a", 1);
    assert_eq!(r.unwrap_err(), ItemError::UnknownItem);
    assert_eq!(l.entries.len(), 1);
    let after = l.to_json();
    assert_eq!(before, after);
}

#[test]
fn reset_then_top_is_empty() {
    let mut l = Ledger::new();
    l.record_play("a", "x", day(1));
    l.record_play("b", "y", day(2));
    l.reset();
    let top = l.render_top(10);
    assert!(top.is_empty());
}
