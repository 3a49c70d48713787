use containerquest::ledger::{Entry, Ledger};
use containerquest::sys;

fn entry(user: &str, score: u32, ts: u64) -> Entry {
    Entry {
        user: user.to_string(),
        command: "x".to_string(),
        score,
        success: true,
        health: 100,
        timestamp: ts,
    }
}

#[test]
fn top_is_sorted_descending() {
    let l = Ledger {
        entries: vec![
            entry("a", 10, 1),
            entry("b", 50, 2),
            entry("c", 30, 3),
            entry("d", 40, 4),
        ],
    };
    let top = l.render_top(10);
    let scores: Vec<u32> = top.iter().map(|e| e.score).collect();
    assert_eq!(scores, vec![50, 40, 30, 10]);
}

#[test]
fn ties_keep_original_order() {
    let l = Ledger {
        entries: vec![
            entry("first", 30, 1),
            entry("second", 50, 2),
            entry("third", 30, 3),
            entry("fourth", 30, 4),
        ],
    };
    let top = l.render_top(10);
    assert_eq!(top[0].user, "second");
    assert_eq!(top[1].user, "first");
    assert_eq!(top[2].user, "third");
    assert_eq!(top[3].user, "fourth");
}

#[test]
fn top_n_truncates_to_n() {
    let l = Ledger {
        entries: vec![
            entry("a", 1, 1),
            entry("b", 2, 2),
            entry("c", 3, 3),
            entry("d", 4, 4),
            entry("e", 5, 5),
        ],
    };
    let top = l.render_top(3);
    assert_eq!(top.len(), 3);
    let scores: Vec<u32> = top.iter().map(|e| e.score).collect();
    assert_eq!(scores, vec![5, 4, 3]);
}

#[test]
fn top_of_fewer_entries_returns_all() {
    let l = Ledger {
        entries: vec![entry("a", 1, 1), entry("b", 2, 2)],
    };
    assert_eq!(l.render_top(10).len(), 2);
}

#[test]
fn top_of_empty_ledger_is_empty() {
    let l = Ledger::new();
    assert!(l.render_top(10).is_empty());
}

#[test]
fn sorting_does_not_change_the_ledger() {
    let l = Ledger {
        entries: vec![entry("a", 10, 1), entry("b", 50, 2)],
    };
    let _ = l.render_top(10);
    assert_eq!(l.entries[0].score, 10);
    assert_eq!(l.entries[1].score, 50);
}

#[test]
fn now_is_after_the_epoch() {
    assert!(sys::now() > 1_000_000_000);
}
