//! What one tick of the render loop shows: the labels of all events, the
//! selected row, and the details and the backtrace of the selected event.

use vstd::prelude::*;
use vstd::string::*;
use crate::flatten::{flat_lines, flatten};
use crate::table::{Event, EventView, Frame, FrameView, StatefulTable, TableView};

verus! {

/// A copy of what the screen shows, taken while the store is held.
#[derive(Debug)]
pub struct Snapshot {
    /// The labels of the events, newest first.
    pub labels: Vec<String>,
    /// The highlighted row.
    pub selection: Option<usize>,
    /// The lines of the details panel.
    pub details: Vec<String>,
    /// The rows of the backtrace table.
    pub backtrace: Vec<Frame>,
}

/// The model of a `Snapshot`.
pub struct SnapshotView {
    pub labels: Seq<Seq<char>>,
    pub selection: Option<nat>,
    pub details: Seq<Seq<char>>,
    pub backtrace: Seq<FrameView>,
}

impl View for Snapshot {
    type V = SnapshotView;

    open spec fn view(&self) -> SnapshotView {
        SnapshotView {
            labels: self.labels.deep_view(),
            selection: match self.selection {
                Some(i) => Some(i as nat),
                None => None,
            },
            details: self.details.deep_view(),
            backtrace: self.backtrace@.map_values(|f: Frame| f@),
        }
    }
}

/// The first line of the details panel.
pub open spec fn logged_on(timestamp: Seq<char>) -> Seq<char> {
    seq!['L', 'o', 'g', 'g', 'e', 'd', ' ', 'o', 'n', ':', ' '] + timestamp
}

/// The details of an event: when it was logged, an empty line, and the lines
/// of its payload.
pub open spec fn paragraph_of(event: EventView) -> Seq<Seq<char>> {
    seq![logged_on(event.timestamp), Seq::<char>::empty()] + flat_lines(event.payload)
}

/// What the screen shows of a store: empty panels where no event is
/// selected.
pub open spec fn snapshot_of(table: TableView) -> SnapshotView {
    SnapshotView {
        labels: table.events.map_values(|e: EventView| e.label),
        selection: table.selection,
        details: match table.selected_event() {
            Some(event) => paragraph_of(event),
            None => Seq::empty(),
        },
        backtrace: match table.selected_event() {
            Some(event) => event.backtrace,
            None => Seq::empty(),
        },
    }
}

/// The lines of the details panel for `item`.
pub fn build_paragraph_for_item(item: &Event) -> (lines: Vec<String>)
    ensures
        lines.deep_view() == paragraph_of(item@),
{
    proof {
        reveal_strlit("Logged on: ");
        reveal_strlit("");
    }
    let mut first = String::from_str("Logged on: ");
    first.append(item.timestamp.as_str());
    assert(first@ =~= logged_on(item@.timestamp));
    let blank = String::from_str("");
    assert(blank@ =~= Seq::<char>::empty());
    let mut lines: Vec<String> = Vec::new();
    lines.push(first);
    lines.push(blank);
    let mut text = flatten(&item.payload);
    let ghost flat = text.deep_view();
    let ghost head = lines.deep_view();
    assert(head.len() == 2);
    assert(head[0] == lines@[0]@);
    assert(head[1] == lines@[1]@);
    assert(head =~= seq![logged_on(item@.timestamp), Seq::<char>::empty()]);
    lines.append(&mut text);
    assert(lines.deep_view() =~= head + flat);
    lines
}

fn copy_frame(frame: &Frame) -> (copy: Frame)
    ensures
        copy@ == frame@,
{
    Frame { file: frame.file.clone(), line: frame.line, function: frame.function.clone() }
}

fn copy_backtrace(event: &Event) -> (rows: Vec<Frame>)
    ensures
        rows@.map_values(|f: Frame| f@) == event@.backtrace,
{
    let mut rows: Vec<Frame> = Vec::new();
    let mut i: usize = 0;
    while i < event.backtrace.len()
        invariant
            i <= event.backtrace.len(),
            rows.len() == i,
            forall|j: int| 0 <= j < i ==> (#[trigger] rows[j])@ == event.backtrace[j]@,
        decreases event.backtrace.len() - i,
    {
        rows.push(copy_frame(&event.backtrace[i]));
        i = i + 1;
    }
    assert(rows@.map_values(|f: Frame| f@) =~= event@.backtrace);
    rows
}

impl StatefulTable {
    /// Copies out of the store what the screen shows.
    pub fn snapshot(&self) -> (shown: Snapshot)
        ensures
            shown@ == snapshot_of(self@),
    {
        let n = self.len();
        let mut labels: Vec<String> = Vec::new();
        let mut i: usize = 0;
        while i < n
            invariant
                i <= n,
                n == self@.events.len(),
                labels.len() == i,
                forall|j: int| 0 <= j < i ==> (#[trigger] labels[j])@ == self@.events[j].label,
            decreases n - i,
        {
            labels.push(self.event(i).label.clone());
            i = i + 1;
        }
        assert(labels.deep_view() =~= snapshot_of(self@).labels);
        let selection = self.selected();
        let shown = match selection {
            Some(at) => {
                let event = self.event(at);
                Snapshot {
                    labels,
                    selection,
                    details: build_paragraph_for_item(event),
                    backtrace: copy_backtrace(event),
                }
            },
            None => Snapshot { labels, selection, details: Vec::new(), backtrace: Vec::new() },
        };
        assert(shown@.details =~= snapshot_of(self@).details);
        assert(shown@.backtrace =~= snapshot_of(self@).backtrace);
        shown
    }
}

/// One tick of the render loop: selects the oldest event where events exist
/// and none is selected, then copies out what the screen shows.
pub fn render(table: &mut StatefulTable) -> (shown: Snapshot)
    ensures
        final(table)@ == old(table)@.with_default_selection(),
        shown@ == snapshot_of(final(table)@),
{
    table.ensure_default_selection();
    table.snapshot()
}

} // verus!
