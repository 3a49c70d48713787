use containerquest::codec::from_json;
use containerquest::ledger::{Entry, Ledger};

fn entry(user: &str, command: &str, score: u32, success: bool, health: i32, ts: u64) -> Entry {
    Entry {
        user: user.to_string(),
        command: command.to_string(),
        score,
        success,
        health,
        timestamp: ts,
    }
}

fn same_entries(a: &Ledger, b: &Ledger) -> bool {
    a.entries.len() == b.entries.len()
        && a.entries.iter().zip(b.entries.iter()).all(|(x, y)| {
            x.user == y.user
                && x.command == y.command
                && x.score == y.score
                && x.success == y.success
                && x.health == y.health
                && x.timestamp == y.timestamp
        })
}

#[test]
fn empty_ledger_renders_exactly() {
    let l = Ledger::new();
    assert_eq!(l.to_json(), "{\"entries\":[]}");
}

#[test]
fn one_entry_renders_exactly() {
    let l = Ledger {
        entries: vec![entry("ann", "build", 42, true, 100, 1000)],
    };
    assert_eq!(
        l.to_json(),
        "{\"entries\":[{\"user\":\"ann\",\"command\":\"build\",\"score\":42,\"success\":true,\"health\":100,\"timestamp\":1000}]}"
    );
}

#[test]
fn round_trip_reproduces_entries_in_order() {
    let l = Ledger {
        entries: vec![
            entry("ann", "build fast", 42, true, 100, 1000),
            entry("bob", "deploy --all", 0, false, 80, 2000),
            entry("ann", "Used item: Medkit", 0, true, 100, 3000),
        ],
    };
    let text = l.to_json();
    let back = from_json(&text).unwrap();
    assert!(same_entries(&l, &back));
}

#[test]
fn round_trip_escapes_quotes_and_backslashes() {
    let l = Ledger {
        entries: vec![entry("a\"b\\c", "say \"hi\" \\ bye", 7, true, 90, 5)],
    };
    let text = l.to_json();
    let back = from_json(&text).unwrap();
    assert!(same_entries(&l, &back));
    assert_eq!(back.entries[0].user, "a\"b\\c");
}

#[test]
fn round_trip_keeps_extreme_numbers() {
    let l = Ledger {
        entries: vec![entry("m", "x", u32::MAX, false, 0, u64::MAX)],
    };
    let back = from_json(&l.to_json()).unwrap();
    assert_eq!(back.entries[0].score, u32::MAX);
    assert_eq!(back.entries[0].timestamp, u64::MAX);
    assert_eq!(back.entries[0].health, 0);
}

#[test]
fn round_trip_of_empty_ledger() {
    let l = Ledger::new();
    let back = from_json(&l.to_json()).unwrap();
    assert!(back.entries.is_empty());
}

#[test]
fn malformed_documents_are_rejected() {
    assert!(from_json("").is_none());
    assert!(from_json("{}").is_none());
    assert!(from_json("{\"entries\":[").is_none());
    assert!(from_json("{\"entries\":[]} ").is_none());
    assert!(from_json("{\"entries\":[{\"user\":\"a\"}]}").is_none());
    assert!(from_json("not json at all").is_none());
}

#[test]
fn out_of_range_fields_are_rejected() {
    assert!(from_json(
        "{\"entries\":[{\"user\":\"a\",\"command\":\"b\",\"score\":99999999999,\"success\":true,\"health\":100,\"timestamp\":1}]}"
    )
    .is_none());
    assert!(from_json(
        "{\"entries\":[{\"user\":\"a\",\"command\":\"b\",\"score\":1,\"success\":true,\"health\":101,\"timestamp\":1}]}"
    )
    .is_none());
    assert!(from_json(
        "{\"entries\":[{\"user\":\"a\",\"command\":\"b\",\"score\":1,\"success\":true,\"health\":100,\"timestamp\":99999999999999999999}]}"
    )
    .is_none());
}

#[test]
fn unterminated_string_is_rejected() {
    assert!(from_json("{\"entries\":[{\"user\":\"a").is_none());
}

#[test]
fn play_persist_load_and_rank_end_to_end() {
    let mut l = Ledger::new();
    l.record_play("ann", "build", 86400);
    l.record_play("bob", "deploy", 86400 * 2);
    l.use_item("potion", "ann", 86400 * 3).unwrap();
    let text = l.to_json();
    let back = from_json(&text).unwrap();
    assert!(same_entries(&l, &back));
    let top = back.render_top(2);
    assert_eq!(top.len(), 2);
    assert!(top[0].score >= top[1].score);
}
