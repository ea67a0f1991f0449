//! The operator's keys: which of them move the selection, and which one ends
//! the dashboard.

use vstd::prelude::*;
use crate::table::{StatefulTable, TableView};

verus! {

/// A key press, as far as the dashboard tells keys apart.
#[derive(Clone, Copy, Debug)]
pub enum Key {
    Esc,
    Char(char),
    Other,
}

/// What a key press asks for.
#[derive(Clone, Copy, Debug, PartialEq, Eq)]
pub enum Signal {
    Next,
    Previous,
    Quit,
}

/// The signal of a key: `Esc` quits, `j` selects the next event and `k` the
/// previous one. No other key means anything.
pub open spec fn signal_of(key: Key) -> Option<Signal> {
    match key {
        Key::Esc => Some(Signal::Quit),
        Key::Char(c) => if c == 'j' {
            Some(Signal::Next)
        } else if c == 'k' {
            Some(Signal::Previous)
        } else {
            None
        },
        Key::Other => None,
    }
}

/// The store after a signal.
pub open spec fn after_signal(table: TableView, signal: Option<Signal>) -> TableView {
    match signal {
        Some(Signal::Next) => table.next(),
        Some(Signal::Previous) => table.previous(),
        _ => table,
    }
}

/// Reads a key press.
pub fn signal_for(key: Key) -> (signal: Option<Signal>)
    ensures
        signal == signal_of(key),
{
    match key {
        Key::Esc => Some(Signal::Quit),
        Key::Char(c) => if c == 'j' {
            Some(Signal::Next)
        } else if c == 'k' {
            Some(Signal::Previous)
        } else {
            None
        },
        Key::Other => None,
    }
}

/// Acts on a key press. The result says whether the dashboard goes on: it
/// does unless the key asks to quit.
pub fn handle_key(table: &mut StatefulTable, key: Key) -> (running: bool)
    ensures
        running == !(signal_of(key) == Some(Signal::Quit)),
        final(table)@ == after_signal(old(table)@, signal_of(key)),
{
    match signal_for(key) {
        Some(Signal::Next) => {
            table.next();
            true
        },
        Some(Signal::Previous) => {
            table.previous();
            true
        },
        Some(Signal::Quit) => false,
        None => true,
    }
}

} // verus!
