use logdash::json::JsonObject;
use logdash::table::{Event, Frame, StatefulTable};

fn event(label: &str) -> Event {
    Event {
        label: label.to_string(),
        timestamp: format!("at {}", label),
        payload: JsonObject::new(),
        backtrace: Vec::new(),
    }
}

fn table_of(n: usize) -> StatefulTable {
    let mut table = StatefulTable::new();
    for i in 0..n {
        table.insert(event(&format!("e{}", i)));
    }
    table
}

fn labels(table: &StatefulTable) -> Vec<String> {
    (0..table.len()).map(|i| table.event(i).label.clone()).collect()
}

#[test]
fn new_table_is_empty_without_selection() {
    let table = StatefulTable::new();
    assert_eq!(table.len(), 0);
    assert_eq!(table.selected(), None);
}

#[test]
fn events_are_held_newest_first() {
    let mut table = StatefulTable::new();
    let sent = ["first", "second", "third", "fourth"];
    for label in sent {
        table.insert(event(label));
    }
    assert_eq!(table.len(), 4);
    assert_eq!(labels(&table), vec!["fourth", "third", "second", "first"]);
    assert_eq!(table.event(0).label, "fourth");
    assert_eq!(table.event(3).label, "first");
}

#[test]
fn insert_keeps_the_whole_event() {
    let mut table = StatefulTable::new();
    let mut e = event("x");
    e.backtrace.push(Frame { file: "a.rs".to_string(), line: -4, function: "f".to_string() });
    table.insert(e);
    let held = table.event(0);
    assert_eq!(held.timestamp, "at x");
    assert_eq!(held.backtrace.len(), 1);
    assert_eq!(held.backtrace[0].file, "a.rs");
    assert_eq!(held.backtrace[0].line, -4);
    assert_eq!(held.backtrace[0].function, "f");
}

#[test]
fn insert_keeps_the_selected_position() {
    let mut table = table_of(3);
    table.next();
    table.next();
    assert_eq!(table.selected(), Some(1));
    assert_eq!(table.event(1).label, "e1");
    table.insert(event("late"));
    assert_eq!(table.selected(), Some(1));
    assert_eq!(table.event(1).label, "e2");
}

#[test]
fn insert_without_selection_selects_nothing() {
    let mut table = table_of(2);
    assert_eq!(table.selected(), None);
}

#[test]
fn next_starts_at_the_first_event() {
    let mut table = table_of(3);
    table.next();
    assert_eq!(table.selected(), Some(0));
}

#[test]
fn next_steps_forward_and_wraps() {
    let mut table = table_of(3);
    table.next();
    table.next();
    assert_eq!(table.selected(), Some(1));
    table.next();
    assert_eq!(table.selected(), Some(2));
    table.next();
    assert_eq!(table.selected(), Some(0));
}

#[test]
fn previous_starts_at_the_last_event() {
    let mut table = table_of(3);
    table.previous();
    assert_eq!(table.selected(), Some(2));
}

#[test]
fn previous_steps_back_and_wraps() {
    let mut table = table_of(3);
    table.previous();
    table.previous();
    assert_eq!(table.selected(), Some(1));
    table.previous();
    assert_eq!(table.selected(), Some(0));
    table.previous();
    assert_eq!(table.selected(), Some(2));
}

#[test]
fn single_event_stays_selected() {
    let mut table = table_of(1);
    table.next();
    assert_eq!(table.selected(), Some(0));
    table.next();
    assert_eq!(table.selected(), Some(0));
    table.previous();
    assert_eq!(table.selected(), Some(0));
}

#[test]
fn as_many_steps_as_events_return_to_the_start() {
    for len in 1..6 {
        for start in 0..len {
            let mut table = table_of(len);
            for _ in 0..=start {
                table.next();
            }
            assert_eq!(table.selected(), Some(start));
            for _ in 0..len {
                table.next();
            }
            assert_eq!(table.selected(), Some(start));
        }
    }
}

#[test]
fn previous_undoes_next() {
    for len in 1..6 {
        for start in 0..len {
            let mut table = table_of(len);
            for _ in 0..=start {
                table.next();
            }
            table.next();
            table.previous();
            assert_eq!(table.selected(), Some(start));
            table.previous();
            table.next();
            assert_eq!(table.selected(), Some(start));
        }
    }
}

#[test]
fn previous_does_not_undo_the_first_next() {
    let mut table = table_of(3);
    table.next();
    table.previous();
    assert_eq!(table.selected(), Some(2));
}

#[test]
fn empty_table_selects_nothing() {
    let mut table = StatefulTable::new();
    table.next();
    assert_eq!(table.selected(), None);
    table.previous();
    assert_eq!(table.selected(), None);
    table.ensure_default_selection();
    assert_eq!(table.selected(), None);
    assert_eq!(table.len(), 0);
}

#[test]
fn default_selection_is_the_oldest_event() {
    let mut table = table_of(4);
    table.ensure_default_selection();
    assert_eq!(table.selected(), Some(3));
    assert_eq!(table.event(3).label, "e0");
}

#[test]
fn default_selection_is_set_once() {
    let mut table = table_of(4);
    table.ensure_default_selection();
    table.ensure_default_selection();
    assert_eq!(table.selected(), Some(3));
    table.insert(event("late"));
    table.ensure_default_selection();
    assert_eq!(table.selected(), Some(3));
}

#[test]
fn default_selection_leaves_a_selection_alone() {
    let mut table = table_of(4);
    table.next();
    table.ensure_default_selection();
    assert_eq!(table.selected(), Some(0));
}
