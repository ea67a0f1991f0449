use logdash::ingest::handle;
use logdash::input::{handle_key, signal_for, Key, Signal};
use logdash::table::StatefulTable;

fn table_of(n: usize) -> StatefulTable {
    let mut table = StatefulTable::new();
    for i in 0..n {
        let mut bytes = format!(
            "{{\"label\":\"e{}\",\"time\":\"t\",\"data\":{{}},\"backtrace\":[]}}",
            i
        )
        .into_bytes();
        bytes.push(0);
        handle(&mut table, &bytes).unwrap();
    }
    table
}

#[test]
fn esc_quits() {
    assert_eq!(signal_for(Key::Esc), Some(Signal::Quit));
}

#[test]
fn j_selects_next_and_k_previous() {
    assert_eq!(signal_for(Key::Char('j')), Some(Signal::Next));
    assert_eq!(signal_for(Key::Char('k')), Some(Signal::Previous));
}

#[test]
fn other_keys_mean_nothing() {
    assert_eq!(signal_for(Key::Other), None);
    assert_eq!(signal_for(Key::Char('J')), None);
    assert_eq!(signal_for(Key::Char('K')), None);
    assert_eq!(signal_for(Key::Char('q')), None);
    assert_eq!(signal_for(Key::Char('\n')), None);
    assert_eq!(signal_for(Key::Char(' ')), None);
}

#[test]
fn keys_move_the_selection() {
    let mut table = table_of(3);
    assert!(handle_key(&mut table, Key::Char('j')));
    assert_eq!(table.selected(), Some(0));
    assert!(handle_key(&mut table, Key::Char('j')));
    assert_eq!(table.selected(), Some(1));
    assert!(handle_key(&mut table, Key::Char('k')));
    assert_eq!(table.selected(), Some(0));
    assert!(handle_key(&mut table, Key::Char('k')));
    assert_eq!(table.selected(), Some(2));
}

#[test]
fn ignored_keys_change_nothing() {
    let mut table = table_of(3);
    handle_key(&mut table, Key::Char('j'));
    assert!(handle_key(&mut table, Key::Other));
    assert!(handle_key(&mut table, Key::Char('x')));
    assert_eq!(table.selected(), Some(0));
    assert_eq!(table.len(), 3);
}

#[test]
fn quit_stops_and_changes_nothing() {
    let mut table = table_of(2);
    handle_key(&mut table, Key::Char('k'));
    assert!(!handle_key(&mut table, Key::Esc));
    assert_eq!(table.selected(), Some(1));
    assert_eq!(table.len(), 2);
}

#[test]
fn keys_on_an_empty_store_select_nothing() {
    let mut table = StatefulTable::new();
    assert!(handle_key(&mut table, Key::Char('j')));
    assert_eq!(table.selected(), None);
    assert!(handle_key(&mut table, Key::Char('k')));
    assert_eq!(table.selected(), None);
}
