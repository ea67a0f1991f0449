//! The shape of an event on the wire: a JSON object with the members `label`
//! and `time` (strings), `data` (an object) and `backtrace` (an array of
//! objects with `file`, `line` and `function`). Other members are ignored.

use vstd::prelude::*;
use crate::canonical::ordered;
use crate::json::{json_of, Json, JsonObject, JsonValue, Members};
use crate::members::{lemma_lookup_found, lookup};
use crate::table::{Event, EventView, Frame, FrameView};

verus! {

/// The key of an event's label.
pub open spec fn label_key() -> Seq<char> {
    seq!['l', 'a', 'b', 'e', 'l']
}

/// The key of an event's timestamp.
pub open spec fn time_key() -> Seq<char> {
    seq!['t', 'i', 'm', 'e']
}

/// The key of an event's payload.
pub open spec fn data_key() -> Seq<char> {
    seq!['d', 'a', 't', 'a']
}

/// The key of an event's backtrace.
pub open spec fn backtrace_key() -> Seq<char> {
    seq!['b', 'a', 'c', 'k', 't', 'r', 'a', 'c', 'e']
}

/// The key of a frame's file.
pub open spec fn file_key() -> Seq<char> {
    seq!['f', 'i', 'l', 'e']
}

/// The key of a frame's line.
pub open spec fn line_key() -> Seq<char> {
    seq!['l', 'i', 'n', 'e']
}

/// The key of a frame's function.
pub open spec fn function_key() -> Seq<char> {
    seq!['f', 'u', 'n', 'c', 't', 'i', 'o', 'n']
}

/// The string under `key`, where `members` has that key with a string.
pub open spec fn text_at(members: Members, key: Seq<char>) -> Option<Seq<char>> {
    match lookup(members, key) {
        Some(Json::String(text)) => Some(text),
        _ => None,
    }
}

/// The integer under `key`, where `members` has that key with a number that
/// is an integer of 64 signed bits.
pub open spec fn integer_at(members: Members, key: Seq<char>) -> Option<i64> {
    match lookup(members, key) {
        Some(Json::Number(n)) => n.integer,
        _ => None,
    }
}

/// The frame that a JSON value stands for, if it has the shape of one.
pub open spec fn frame_of(value: Json) -> Option<FrameView> {
    match value {
        Json::Object(members) => match (
            text_at(members, file_key()),
            integer_at(members, line_key()),
            text_at(members, function_key()),
        ) {
            (Some(file), Some(line), Some(function)) => Some(
                FrameView { file, line: line as int, function },
            ),
            _ => None,
        },
        _ => None,
    }
}

/// The frames that the first `n` values of `items` stand for, if each of
/// them has the shape of a frame.
pub open spec fn frames_of(items: Seq<Json>, n: nat) -> Option<Seq<FrameView>>
    decreases n,
{
    if n == 0 {
        Some(Seq::empty())
    } else {
        match (frames_of(items, (n - 1) as nat), frame_of(items[n - 1])) {
            (Some(frames), Some(frame)) => Some(frames.push(frame)),
            _ => None,
        }
    }
}

/// The backtrace under `key`, where `members` has that key with an array of
/// frames.
pub open spec fn backtrace_at(members: Members, key: Seq<char>) -> Option<
    Seq<FrameView>,
> {
    match lookup(members, key) {
        Some(Json::Array(items)) => frames_of(items, items.len()),
        _ => None,
    }
}

/// The object under `key`, where `members` has that key with an object.
pub open spec fn object_at(members: Members, key: Seq<char>) -> Option<Members> {
    match lookup(members, key) {
        Some(Json::Object(inner)) => Some(inner),
        _ => None,
    }
}

/// The event that a JSON document stands for, if it has the shape of one.
pub open spec fn event_of(document: Json) -> Option<EventView> {
    match document {
        Json::Object(members) => match (
            text_at(members, label_key()),
            text_at(members, time_key()),
            object_at(members, data_key()),
            backtrace_at(members, backtrace_key()),
        ) {
            (Some(label), Some(timestamp), Some(payload), Some(backtrace)) => Some(
                EventView { label, timestamp, payload, backtrace },
            ),
            _ => None,
        },
        _ => None,
    }
}

fn text_in(object: &JsonObject, key: &str) -> (found: Option<String>)
    ensures
        match found {
            Some(text) => text_at(object@, key@) == Some(text@),
            None => text_at(object@, key@) is None,
        },
{
    match object.get(key) {
        Some(JsonValue::String(text)) => Some(text.clone()),
        _ => None,
    }
}

fn integer_in(object: &JsonObject, key: &str) -> (found: Option<i64>)
    ensures
        found == integer_at(object@, key@),
{
    match object.get(key) {
        Some(JsonValue::Number(n)) => n.integer,
        _ => None,
    }
}

/// Reads one frame of a backtrace.
pub fn decode_frame(value: &JsonValue) -> (decoded: Option<Frame>)
    ensures
        match decoded {
            Some(frame) => frame_of(value@) == Some(frame@),
            None => frame_of(value@) is None,
        },
{
    proof {
        reveal_strlit("file");
        reveal_strlit("line");
        reveal_strlit("function");
        assert("file"@ =~= file_key());
        assert("line"@ =~= line_key());
        assert("function"@ =~= function_key());
    }
    match value {
        JsonValue::Object(object) => {
            let file = match text_in(object, "file") {
                Some(file) => file,
                None => {
                    return None;
                },
            };
            let line = match integer_in(object, "line") {
                Some(line) => line,
                None => {
                    return None;
                },
            };
            let function = match text_in(object, "function") {
                Some(function) => function,
                None => {
                    return None;
                },
            };
            Some(Frame { file, line, function })
        },
        _ => None,
    }
}

fn backtrace_in(object: &JsonObject, key: &str) -> (found: Option<Vec<Frame>>)
    ensures
        match found {
            Some(frames) => backtrace_at(object@, key@) == Some(
                frames@.map_values(|f: Frame| f@),
            ),
            None => backtrace_at(object@, key@) is None,
        },
{
    match object.get(key) {
        Some(JsonValue::Array(items)) => {
            let ghost models = json_of(JsonValue::Array(*items))->Array_0;
            let mut frames: Vec<Frame> = Vec::new();
            let mut i: usize = 0;
            assert(frames@.map_values(|f: Frame| f@) =~= Seq::<FrameView>::empty());
            while i < items.len()
                invariant
                    i <= items.len(),
                    models.len() == items.len(),
                    lookup(object@, key@) == Some(Json::Array(models)),
                    forall|j: int| 0 <= j < items.len() ==> models[j] == (#[trigger] items[j])@,
                    frames_of(models, i as nat) == Some(frames@.map_values(|f: Frame| f@)),
                decreases items.len() - i,
            {
                match decode_frame(&items[i]) {
                    Some(frame) => {
                        let ghost before = frames@.map_values(|f: Frame| f@);
                        frames.push(frame);
                        assert(frames@.map_values(|f: Frame| f@) =~= before.push(frame@));
                    },
                    None => {
                        proof {
                            assert(models[i as int] == items[i as int]@);
                            assert(frames_of(models, (i + 1) as nat) is None);
                            lemma_frames_stay_undecoded(models, (i + 1) as nat, models.len());
                        }
                        return None;
                    },
                }
                i = i + 1;
            }
            Some(frames)
        },
        _ => None,
    }
}

/// Where the first `n` values are not all frames, no more of them are.
pub proof fn lemma_frames_stay_undecoded(items: Seq<Json>, n: nat, m: nat)
    requires
        n <= m,
        frames_of(items, n) is None,
    ensures
        frames_of(items, m) is None,
    decreases m,
{
    if n < m {
        lemma_frames_stay_undecoded(items, n, (m - 1) as nat);
    }
}

/// The payload of an event has the keys of every object ascending where the
/// document has.
pub proof fn lemma_event_payload_ordered(document: Json)
    requires
        ordered(document),
        event_of(document) is Some,
    ensures
        ordered(Json::Object(event_of(document)->0.payload)),
{
    let members = document->Object_0;
    lemma_lookup_found(members, data_key());
}

/// Reads an event from a JSON document, taking the payload over from it.
pub fn decode_event(document: JsonValue) -> (decoded: Option<Event>)
    ensures
        match decoded {
            Some(event) => event_of(document@) == Some(event@),
            None => event_of(document@) is None,
        },
{
    proof {
        reveal_strlit("label");
        reveal_strlit("time");
        reveal_strlit("data");
        reveal_strlit("backtrace");
        assert("label"@ =~= label_key());
        assert("time"@ =~= time_key());
        assert("data"@ =~= data_key());
        assert("backtrace"@ =~= backtrace_key());
    }
    match document {
        JsonValue::Object(object) => {
            let mut object = object;
            let label = match text_in(&object, "label") {
                Some(label) => label,
                None => {
                    return None;
                },
            };
            let timestamp = match text_in(&object, "time") {
                Some(timestamp) => timestamp,
                None => {
                    return None;
                },
            };
            let backtrace = match backtrace_in(&object, "backtrace") {
                Some(backtrace) => backtrace,
                None => {
                    return None;
                },
            };
            let payload = match object.remove("data") {
                Some(JsonValue::Object(payload)) => payload,
                _ => {
                    return None;
                },
            };
            Some(Event { label, timestamp, payload, backtrace })
        },
        _ => None,
    }
}

} // verus!
