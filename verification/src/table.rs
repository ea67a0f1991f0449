//! The event store: the events received so far, newest first, and the
//! selection cursor that the operator moves through them.

use vstd::prelude::*;
use crate::json::{JsonObject, Members};

verus! {

/// One entry of a call stack.
#[derive(Debug)]
pub struct Frame {
    pub file: String,
    pub line: i64,
    pub function: String,
}

/// The model of a `Frame`.
pub struct FrameView {
    pub file: Seq<char>,
    pub line: int,
    pub function: Seq<char>,
}

/// One structured debug report.
#[derive(Debug)]
pub struct Event {
    pub label: String,
    pub timestamp: String,
    pub payload: JsonObject,
    pub backtrace: Vec<Frame>,
}

/// The model of an `Event`.
pub struct EventView {
    pub label: Seq<char>,
    pub timestamp: Seq<char>,
    pub payload: Members,
    pub backtrace: Seq<FrameView>,
}

impl View for Frame {
    type V = FrameView;

    open spec fn view(&self) -> FrameView {
        FrameView { file: self.file@, line: self.line as int, function: self.function@ }
    }
}

impl View for Event {
    type V = EventView;

    open spec fn view(&self) -> EventView {
        EventView {
            label: self.label@,
            timestamp: self.timestamp@,
            payload: self.payload@,
            backtrace: self.backtrace@.map_values(|f: Frame| f@),
        }
    }
}

/// The model of the event store: the events, newest first, and the position
/// of the selected one.
pub struct TableView {
    pub events: Seq<EventView>,
    pub selection: Option<nat>,
}

impl TableView {
    /// The store without events and without a selection.
    pub open spec fn empty() -> TableView {
        TableView { events: Seq::empty(), selection: None }
    }

    /// A selection, where there is one, is the position of an event.
    pub open spec fn valid(self) -> bool {
        self.selection matches Some(i) ==> i < self.events.len()
    }

    /// The store after `event` has arrived: it stands first, and the selection
    /// keeps its position.
    pub open spec fn insert(self, event: EventView) -> TableView {
        TableView { events: seq![event] + self.events, selection: self.selection }
    }

    /// The store after the events of `sent` have arrived one after another.
    pub open spec fn insert_all(self, sent: Seq<EventView>) -> TableView
        decreases sent.len(),
    {
        if sent.len() == 0 {
            self
        } else {
            self.insert_all(sent.drop_last()).insert(sent.last())
        }
    }

    /// The selection one step forward: the first event where nothing was
    /// selected, the first again after the last. An empty store has nothing to
    /// select.
    pub open spec fn next(self) -> TableView {
        if self.events.len() == 0 {
            self
        } else {
            TableView {
                events: self.events,
                selection: match self.selection {
                    None => Some(0),
                    Some(i) => if i + 1 >= self.events.len() {
                        Some(0)
                    } else {
                        Some(i + 1)
                    },
                },
            }
        }
    }

    /// The selection one step back: the last event where nothing was selected,
    /// the last again after the first. An empty store has nothing to select.
    pub open spec fn previous(self) -> TableView {
        if self.events.len() == 0 {
            self
        } else {
            TableView {
                events: self.events,
                selection: match self.selection {
                    None => Some((self.events.len() - 1) as nat),
                    Some(i) => if i == 0 {
                        Some((self.events.len() - 1) as nat)
                    } else {
                        Some((i - 1) as nat)
                    },
                },
            }
        }
    }

    /// The selection after `n` steps forward.
    pub open spec fn next_times(self, n: nat) -> TableView
        decreases n,
    {
        if n == 0 {
            self
        } else {
            self.next_times((n - 1) as nat).next()
        }
    }

    /// The store as the render path sees it: where events exist and none is
    /// selected, the oldest one is.
    pub open spec fn with_default_selection(self) -> TableView {
        if self.selection is None && self.events.len() > 0 {
            TableView { events: self.events, selection: Some((self.events.len() - 1) as nat) }
        } else {
            self
        }
    }

    /// The selected event, if one is selected.
    pub open spec fn selected_event(self) -> Option<EventView> {
        match self.selection {
            Some(i) => Some(self.events[i as int]),
            None => None,
        }
    }
}

/// Table holding all the logged events.
#[derive(Debug)]
pub struct StatefulTable {
    state: Option<usize>,
    items: Vec<Event>,
}

impl View for StatefulTable {
    type V = TableView;

    closed spec fn view(&self) -> TableView {
        TableView {
            events: self.items@.map_values(|e: Event| e@),
            selection: match self.state {
                Some(i) => Some(i as nat),
                None => None,
            },
        }
    }
}

impl StatefulTable {
    #[verifier::type_invariant]
    spec fn selection_in_range(self) -> bool {
        self.state matches Some(i) ==> i < self.items.len()
    }

    /// The empty store.
    pub fn new() -> (table: StatefulTable)
        ensures
            table@ == TableView::empty(),
    {
        let table = StatefulTable { state: None, items: Vec::new() };
        assert(table@.events =~= Seq::<EventView>::empty());
        table
    }

    /// The number of events held.
    pub fn len(&self) -> (n: usize)
        ensures
            n == self@.events.len(),
            self@.valid(),
    {
        proof {
            use_type_invariant(self);
        }
        self.items.len()
    }

    /// The position of the selected event.
    pub fn selected(&self) -> (selection: Option<usize>)
        ensures
            match selection {
                Some(i) => self@.selection == Some(i as nat) && i < self@.events.len(),
                None => self@.selection is None,
            },
    {
        proof {
            use_type_invariant(self);
        }
        self.state
    }

    /// The event at position `i`; position 0 holds the newest.
    pub fn event(&self, i: usize) -> (event: &Event)
        requires
            i < self@.events.len(),
        ensures
            event@ == self@.events[i as int],
    {
        &self.items[i]
    }

    /// Takes `event` in as the newest. The selection keeps its position.
    pub fn insert(&mut self, event: Event)
        ensures
            final(self)@ == old(self)@.insert(event@),
            final(self)@.valid(),
    {
        proof {
            use_type_invariant(&*self);
        }
        let ghost before = self@;
        let state = self.state;
        self.state = None;
        let mut items: Vec<Event> = Vec::new();
        std::mem::swap(&mut items, &mut self.items);
        items.insert(0, event);
        self.items = items;
        self.state = state;
        assert(self@.events =~= before.insert(event@).events);
    }

    /// Moves the selection one event forward, from the last to the first.
    pub fn next(&mut self)
        ensures
            final(self)@ == old(self)@.next(),
            final(self)@.valid(),
    {
        proof {
            use_type_invariant(&*self);
        }
        let n = self.items.len();
        if n > 0 {
            let i: usize = match self.state {
                Some(i) => if i >= n - 1 {
                    0
                } else {
                    i + 1
                },
                None => 0,
            };
            self.state = Some(i);
        }
    }

    /// Moves the selection one event back, from the first to the last.
    pub fn previous(&mut self)
        ensures
            final(self)@ == old(self)@.previous(),
            final(self)@.valid(),
    {
        proof {
            use_type_invariant(&*self);
        }
        let n = self.items.len();
        if n > 0 {
            let i: usize = match self.state {
                Some(i) => if i == 0 {
                    n - 1
                } else {
                    i - 1
                },
                None => n - 1,
            };
            self.state = Some(i);
        }
    }

    /// Selects the oldest event where events exist and none is selected.
    pub fn ensure_default_selection(&mut self)
        ensures
            final(self)@ == old(self)@.with_default_selection(),
            final(self)@.valid(),
    {
        proof {
            use_type_invariant(&*self);
        }
        let n = self.items.len();
        if self.state.is_none() && n > 0 {
            self.state = Some(n - 1);
        }
    }
}

/// No step of the store takes the selection off the events: an arrival keeps
/// the selected position, and the moves of the selection stay in range.
pub proof fn lemma_selection_stays_valid(table: TableView, event: EventView)
    requires
        table.valid(),
    ensures
        table.insert(event).valid(),
        table.insert(event).selection == table.selection,
        table.next().valid(),
        table.previous().valid(),
        table.with_default_selection().valid(),
{
}

/// Events that arrive one after another are held newest first: as many as
/// were sent, the last one sent at position 0 and the first one sent at the
/// end.
pub proof fn lemma_arrivals_are_reversed(sent: Seq<EventView>)
    ensures
        TableView::empty().insert_all(sent).events == sent.reverse(),
        TableView::empty().insert_all(sent).events.len() == sent.len(),
        sent.len() > 0 ==> TableView::empty().insert_all(sent).events[0] == sent.last(),
        sent.len() > 0 ==> TableView::empty().insert_all(sent).events.last() == sent[0],
        TableView::empty().insert_all(sent).selection is None,
    decreases sent.len(),
{
    if sent.len() > 0 {
        lemma_arrivals_are_reversed(sent.drop_last());
        assert(seq![sent.last()] + sent.drop_last().reverse() =~= sent.reverse());
    } else {
        assert(sent.reverse() =~= Seq::<EventView>::empty());
    }
}

/// Where the selection stands after `n` steps forward from position `start`,
/// for `n` up to the number of events.
pub proof fn lemma_next_times_position(table: TableView, start: nat, n: nat)
    requires
        table.selection == Some(start),
        start < table.events.len(),
        n <= table.events.len(),
    ensures
        table.next_times(n).events == table.events,
        table.next_times(n).selection == Some(
            if start + n < table.events.len() {
                start + n
            } else {
                (start + n - table.events.len()) as nat
            },
        ),
    decreases n,
{
    if n > 0 {
        lemma_next_times_position(table, start, (n - 1) as nat);
    }
}

/// As many steps forward as the store has events bring the selection back to
/// where it started.
pub proof fn lemma_next_cycles(table: TableView)
    requires
        table.valid(),
        table.selection is Some,
    ensures
        table.next_times(table.events.len()) == table,
{
    lemma_next_times_position(table, table.selection->0, table.events.len());
}

/// A step back undoes a step forward, and a step forward a step back, in a
/// store that has events and a selection.
pub proof fn lemma_previous_inverts_next(table: TableView)
    requires
        table.valid(),
        table.selection is Some,
    ensures
        table.next().previous() == table,
        table.previous().next() == table,
{
}

/// In a store without events neither step selects anything.
pub proof fn lemma_empty_store_selects_nothing(table: TableView)
    requires
        table.valid(),
        table.events.len() == 0,
    ensures
        table.selection is None,
        table.next() == table,
        table.previous() == table,
{
}

/// The default selection is the oldest event, and asking for it again
/// changes nothing.
pub proof fn lemma_default_selection(table: TableView)
    ensures
        table.selection is None && table.events.len() > 0
            ==> table.with_default_selection().selection == Some(
            (table.events.len() - 1) as nat,
        ),
        table.with_default_selection().with_default_selection()
            == table.with_default_selection(),
        table.with_default_selection().events == table.events,
        table.valid() ==> table.with_default_selection().valid(),
{
}

/// A step forward from position `i` selects `(i + 1) mod len`.
pub proof fn lemma_next_is_successor(table: TableView)
    requires
        table.valid(),
        table.selection is Some,
    ensures
        table.next().selection == Some(
            ((table.selection->0 + 1) as int % (table.events.len() as int)) as nat,
        ),
{
    let i = table.selection->0 as int;
    let n = table.events.len() as int;
    if i + 1 < n {
        vstd::arithmetic::div_mod::lemma_small_mod((i + 1) as nat, n as nat);
    } else {
        vstd::arithmetic::div_mod::lemma_mod_self_0(n);
    }
}

} // verus!
