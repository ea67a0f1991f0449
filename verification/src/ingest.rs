//! Ingestion: from the bytes that one connection delivered to an event in the
//! store. A message is a JSON document followed by one NUL byte.

use vstd::prelude::*;
use vstd::slice::slice_subrange;
use vstd::utf8::{decode_utf8, valid_utf8};
use crate::canonical::{canonical, lemma_canonical_ordered, ordered};
use crate::document::{json_parse, parse_document};
use crate::json::Json;
use crate::schema::{decode_event, event_of, lemma_event_payload_ordered};
use crate::table::{Event, EventView, StatefulTable, TableView};

verus! {

/// The port on the loopback address that the dashboard listens on unless it
/// is told another.
pub const DEFAULT_PORT: u16 = 9337;

/// The byte that ends a message.
pub const TERMINATOR: u8 = 0;

/// Why the bytes of a connection gave no event.
#[derive(Clone, Copy, Debug, PartialEq, Eq)]
pub enum IngestError {
    /// The connection ended before a NUL byte came.
    MissingTerminator,
    /// The message is not a JSON document.
    InvalidJson,
    /// The message is a JSON document that has not the shape of an event.
    SchemaMismatch,
}

/// The position of the first NUL byte of `bytes`, or their number where none
/// of them is NUL.
pub open spec fn terminator(bytes: Seq<u8>) -> nat
    decreases bytes.len(),
{
    if bytes.len() == 0 || bytes[0] == TERMINATOR {
        0
    } else {
        1 + terminator(bytes.drop_first())
    }
}

/// The message that `bytes` hold: what comes before the first NUL byte.
/// Without a NUL byte there is no message.
pub open spec fn message_of(bytes: Seq<u8>) -> Option<Seq<u8>> {
    if terminator(bytes) < bytes.len() {
        Some(bytes.take(terminator(bytes) as int))
    } else {
        None
    }
}

/// The text that `String::from_utf8_lossy` makes of bytes: their decoding as
/// UTF-8, with U+FFFD in place of what is not UTF-8.
pub uninterp spec fn utf8_lossy(bytes: Seq<u8>) -> Seq<char>;

/// What the bytes of one connection deliver: the event of the message, or the
/// reason why there is none.
pub open spec fn received_event(bytes: Seq<u8>) -> Result<EventView, IngestError> {
    match message_of(bytes) {
        None => Err(IngestError::MissingTerminator),
        Some(message) => match json_parse(utf8_lossy(message)) {
            None => Err(IngestError::InvalidJson),
            Some(tree) => match event_of(canonical(tree)) {
                None => Err(IngestError::SchemaMismatch),
                Some(event) => Ok(event),
            },
        },
    }
}

/// The store after one connection: with the event of a well-formed message
/// first, and as it was after anything else.
pub open spec fn after_connection(table: TableView, received: Seq<u8>) -> TableView {
    match received_event(received) {
        Ok(event) => table.insert(event),
        Err(_) => table,
    }
}

/// The store after the connections of `connections`, one after another.
pub open spec fn after_connections(table: TableView, connections: Seq<Seq<u8>>) -> TableView
    decreases connections.len(),
{
    if connections.len() == 0 {
        table
    } else {
        after_connection(
            after_connections(table, connections.drop_last()),
            connections.last(),
        )
    }
}

/// After connections that each delivered a well-formed message, the store
/// holds as many events as there were connections, the event of the last
/// connection first and that of the first connection last.
pub proof fn lemma_connections_newest_first(connections: Seq<Seq<u8>>)
    requires
        forall|i: int|
            0 <= i < connections.len() ==> received_event(#[trigger] connections[i]) is Ok,
    ensures
        after_connections(TableView::empty(), connections).events.len() == connections.len(),
        forall|i: int|
            0 <= i < connections.len() ==> after_connections(
                TableView::empty(),
                connections,
            ).events[i] == received_event(#[trigger] connections[connections.len() - 1 - i])->Ok_0,
        after_connections(TableView::empty(), connections).selection is None,
    decreases connections.len(),
{
    if connections.len() > 0 {
        let earlier = connections.drop_last();
        assert forall|i: int| 0 <= i < earlier.len() implies received_event(
            #[trigger] earlier[i],
        ) is Ok by {
            assert(earlier[i] == connections[i]);
        }
        lemma_connections_newest_first(earlier);
        let before = after_connections(TableView::empty(), earlier);
        let after = after_connections(TableView::empty(), connections);
        assert(received_event(connections[connections.len() - 1]) is Ok);
        assert forall|i: int| 0 <= i < connections.len() implies after.events[i]
            == received_event(#[trigger] connections[connections.len() - 1 - i])->Ok_0 by {
            if i > 0 {
                assert(after.events[i] == before.events[i - 1]);
                assert(earlier[earlier.len() - 1 - (i - 1)] == connections[connections.len() - 1
                    - i]);
            }
        }
    }
}

/// Connections that deliver no well-formed message leave no trace: the store
/// is what the other connections alone would have made it.
pub proof fn lemma_refused_connections_leave_no_trace(
    table: TableView,
    connections: Seq<Seq<u8>>,
)
    ensures
        after_connections(table, connections) == after_connections(
            table,
            connections.filter(|received: Seq<u8>| received_event(received) is Ok),
        ),
    decreases connections.len(),
{
    let accepted = |received: Seq<u8>| received_event(received) is Ok;
    reveal(Seq::filter);
    if connections.len() > 0 {
        lemma_refused_connections_leave_no_trace(table, connections.drop_last());
        if accepted(connections.last()) {
            assert(connections.filter(accepted).drop_last() =~= connections.drop_last().filter(
                accepted,
            ));
        }
    }
}

/// The first NUL byte is where no byte before it is NUL.
pub proof fn lemma_terminator_at(bytes: Seq<u8>, at: int)
    requires
        0 <= at <= bytes.len(),
        forall|j: int| 0 <= j < at ==> bytes[j] != TERMINATOR,
        at < bytes.len() ==> bytes[at] == TERMINATOR,
    ensures
        terminator(bytes) == at,
    decreases bytes.len(),
{
    if at > 0 {
        let rest = bytes.drop_first();
        assert forall|j: int| 0 <= j < at - 1 implies rest[j] != TERMINATOR by {
            assert(rest[j] == bytes[j + 1]);
        }
        lemma_terminator_at(rest, at - 1);
    }
}

/// The payload of a received event has the keys of every object ascending,
/// whatever order the message wrote them in.
pub proof fn lemma_received_payload_ordered(bytes: Seq<u8>)
    requires
        received_event(bytes) is Ok,
    ensures
        ordered(Json::Object(received_event(bytes)->Ok_0.payload)),
{
    let tree = json_parse(utf8_lossy(message_of(bytes)->0))->0;
    lemma_canonical_ordered(tree);
    lemma_event_payload_ordered(canonical(tree));
}

/// `String::from_utf8_lossy`: the text of `bytes`, which is their decoding
/// where they are valid UTF-8. It never fails.
#[verifier::external_body]
fn decode_lossy(bytes: &[u8]) -> (text: String)
    ensures
        text@ == utf8_lossy(bytes@),
        valid_utf8(bytes@) ==> text@ == decode_utf8(bytes@),
{
    String::from_utf8_lossy(bytes).into_owned()
}

impl IngestError {
    /// The error in words, for the operator.
    pub fn describe(&self) -> (text: &'static str)
        ensures
            text@ == match *self {
                IngestError::MissingTerminator =>
                    "connection closed before the end of the message"@,
                IngestError::InvalidJson => "message is not valid JSON"@,
                IngestError::SchemaMismatch => "message does not describe an event"@,
            },
    {
        match self {
            IngestError::MissingTerminator => "connection closed before the end of the message",
            IngestError::InvalidJson => "message is not valid JSON",
            IngestError::SchemaMismatch => "message does not describe an event",
        }
    }
}

/// Cuts the message out of the bytes of a connection.
pub fn frame(received: &[u8]) -> (message: Option<&[u8]>)
    ensures
        match message {
            Some(bytes) => message_of(received@) == Some(bytes@),
            None => message_of(received@) is None,
        },
{
    let mut at: usize = 0;
    while at < received.len() && received[at] != TERMINATOR
        invariant
            at <= received.len(),
            forall|j: int| 0 <= j < at ==> received@[j] != TERMINATOR,
        decreases received.len() - at,
    {
        at = at + 1;
    }
    proof {
        lemma_terminator_at(received@, at as int);
    }
    if at < received.len() {
        Some(slice_subrange(received, 0, at))
    } else {
        None
    }
}

/// Reads the event that the bytes of one connection deliver.
pub fn decode_message(received: &[u8]) -> (outcome: Result<Event, IngestError>)
    ensures
        match outcome {
            Ok(event) => received_event(received@) == Ok::<EventView, IngestError>(event@),
            Err(error) => received_event(received@) == Err::<EventView, IngestError>(error),
        },
{
    let message = match frame(received) {
        Some(message) => message,
        None => {
            return Err(IngestError::MissingTerminator);
        },
    };
    let text = decode_lossy(message);
    let document = match parse_document(text.as_str()) {
        Some(document) => document,
        None => {
            return Err(IngestError::InvalidJson);
        },
    };
    match decode_event(document) {
        Some(event) => Ok(event),
        None => Err(IngestError::SchemaMismatch),
    }
}

/// Handles what one connection delivered: a well-formed message puts its
/// event first in the store, and anything else leaves the store as it was.
pub fn handle(table: &mut StatefulTable, received: &[u8]) -> (outcome: Result<(), IngestError>)
    ensures
        match received_event(received@) {
            Ok(event) => outcome is Ok,
            Err(error) => outcome == Err::<(), IngestError>(error),
        },
        final(table)@ == after_connection(old(table)@, received@),
{
    match decode_message(received) {
        Ok(event) => {
            table.insert(event);
            Ok(())
        },
        Err(error) => Err(error),
    }
}

} // verus!
