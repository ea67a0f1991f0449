//! Flattening: from a nested payload to the indented lines of the details
//! panel.

use vstd::prelude::*;
use vstd::string::*;
use crate::json::{Json, JsonObject, JsonValue, Members};
use crate::keys::{rank_keys, Rank};
use crate::members::{keys_sorted, lemma_sorted_members_unique, lookup};

verus! {

/// The indent of nesting depth `depth`: two dashes for each level.
pub open spec fn indent_of(depth: nat) -> Seq<char> {
    Seq::new(2 * depth, |i: int| '-')
}

/// The line of a member without a value to show.
pub open spec fn bare_line(indent: Seq<char>, key: Seq<char>) -> Seq<char> {
    indent + seq![' '] + key
}

/// The line of a member with a value that is shown as `text`.
pub open spec fn valued_line(indent: Seq<char>, key: Seq<char>, text: Seq<char>) -> Seq<char> {
    indent + seq![' '] + key + seq![' '] + text
}

/// The line that announces a nested object, with the key of the object that
/// holds it in brackets.
pub open spec fn header_line(indent: Seq<char>, key: Seq<char>, parent: Seq<char>) -> Seq<char> {
    indent + seq![' '] + key + seq![' ', '('] + parent + seq![')']
}

/// A boolean as it is shown.
pub open spec fn bool_text(b: bool) -> Seq<char> {
    if b {
        seq!['t', 'r', 'u', 'e']
    } else {
        seq!['f', 'a', 'l', 's', 'e']
    }
}

/// The key under which a nested object gets no header line.
pub open spec fn array_key() -> Seq<char> {
    seq!['a', 'r', 'r', 'a', 'y']
}

/// The lines of one member at nesting depth `depth`, inside the object that
/// stands under the key `parent`.
///
/// Null gives the key alone; a boolean, a number or a string gives the key and
/// the value; an array gives nothing; an object gives the lines of its members
/// one level deeper, after a header line unless it stands at the top level or
/// under the key `array`.
pub open spec fn flat_member(
    key: Seq<char>,
    value: Json,
    depth: nat,
    parent: Seq<char>,
) -> Seq<Seq<char>>
    decreases value,
{
    match value {
        Json::Null => seq![bare_line(indent_of(depth), key)],
        Json::Bool(b) => seq![valued_line(indent_of(depth), key, bool_text(b))],
        Json::Number(n) => seq![valued_line(indent_of(depth), key, n.text)],
        Json::String(s) => seq![valued_line(indent_of(depth), key, s)],
        Json::Array(_) => Seq::empty(),
        Json::Object(members) => {
            let head = if depth > 0 && key != array_key() {
                seq![header_line(indent_of(depth), key, parent)]
            } else {
                Seq::empty()
            };
            head + flat_members(members, members.len(), depth + 1, key)
        },
    }
}

/// The lines of the first `n` members of `members`, in their order.
pub open spec fn flat_members(
    members: Members,
    n: nat,
    depth: nat,
    parent: Seq<char>,
) -> Seq<Seq<char>>
    decreases members, n,
{
    if n == 0 || n > members.len() {
        Seq::empty()
    } else {
        flat_members(members, (n - 1) as nat, depth, parent) + flat_member(
            members[n - 1].0,
            members[n - 1].1,
            depth,
            parent,
        )
    }
}

/// The lines of a whole payload: its members at depth 0.
pub open spec fn flat_lines(payload: Members) -> Seq<Seq<char>> {
    flat_members(payload, payload.len(), 0, Seq::empty())
}

/// Flattening reads nothing but the payload: equal payloads give equal lines.
pub proof fn lemma_flatten_deterministic(a: JsonObject, b: JsonObject)
    requires
        a@ == b@,
    ensures
        flat_lines(a@) == flat_lines(b@),
{
}

/// The order of the lines is fixed by what the payload leads each key to: two
/// payloads in ascending key order that agree on every key give the same
/// lines, however they were put together.
pub proof fn lemma_flatten_fixed_by_mapping(a: Members, b: Members)
    requires
        keys_sorted(a),
        keys_sorted(b),
        forall|key: Seq<char>| lookup(a, key) == lookup(b, key),
    ensures
        flat_lines(a) == flat_lines(b),
{
    lemma_sorted_members_unique(a, b);
}

fn push_line(lines: &mut Vec<String>, line: String)
    ensures
        final(lines).deep_view() == old(lines).deep_view().push(line@),
{
    lines.push(line);
    assert(lines.deep_view() =~= old(lines).deep_view().push(line@));
}

fn bare(indent: &str, key: &str) -> (line: String)
    ensures
        line@ == bare_line(indent@, key@),
{
    proof {
        reveal_strlit(" ");
    }
    let mut line = String::from_str(indent);
    line.append(" ");
    line.append(key);
    assert(" "@ =~= seq![' ']);
    line
}

fn valued(indent: &str, key: &str, text: &str) -> (line: String)
    ensures
        line@ == valued_line(indent@, key@, text@),
{
    proof {
        reveal_strlit(" ");
    }
    let mut line = String::from_str(indent);
    line.append(" ");
    line.append(key);
    line.append(" ");
    line.append(text);
    assert(" "@ =~= seq![' ']);
    line
}

fn header(indent: &str, key: &str, parent: &str) -> (line: String)
    ensures
        line@ == header_line(indent@, key@, parent@),
{
    proof {
        reveal_strlit(" ");
        reveal_strlit(" (");
        reveal_strlit(")");
    }
    let mut line = String::from_str(indent);
    line.append(" ");
    line.append(key);
    line.append(" (");
    line.append(parent);
    line.append(")");
    assert(" "@ =~= seq![' ']);
    assert(" ("@ =~= seq![' ', '(']);
    assert(")"@ =~= seq![')']);
    line
}

fn shown_bool(b: bool) -> (text: &'static str)
    ensures
        text@ == bool_text(b),
{
    proof {
        reveal_strlit("true");
        reveal_strlit("false");
    }
    if b {
        assert("true"@ =~= bool_text(true));
        "true"
    } else {
        assert("false"@ =~= bool_text(false));
        "false"
    }
}

fn is_array_key(key: &str) -> (yes: bool)
    ensures
        yes == (key@ == array_key()),
{
    proof {
        reveal_strlit("array");
        assert("array"@ =~= array_key());
    }
    match rank_keys(key, "array") {
        Rank::Same => true,
        _ => false,
    }
}

fn deeper(indent: &str, Ghost(depth): Ghost<nat>) -> (next: String)
    requires
        indent@ == indent_of(depth),
    ensures
        next@ == indent_of(depth + 1),
{
    proof {
        reveal_strlit("--");
    }
    let mut next = String::from_str(indent);
    next.append("--");
    assert(next@ =~= indent_of(depth + 1));
    next
}

fn flatten_members(
    lines: &mut Vec<String>,
    object: &JsonObject,
    indent: &str,
    parent: &str,
    Ghost(depth): Ghost<nat>,
)
    requires
        indent@ == indent_of(depth),
    ensures
        final(lines).deep_view() == old(lines).deep_view() + flat_members(
            object@,
            object@.len(),
            depth,
            parent@,
        ),
    decreases object@,
{
    let n = object.len();
    let mut i: usize = 0;
    assert(lines.deep_view() =~= old(lines).deep_view() + flat_members(object@, 0, depth, parent@));
    while i < n
        invariant
            i <= n,
            n == object@.len(),
            indent@ == indent_of(depth),
            lines.deep_view() == old(lines).deep_view() + flat_members(
                object@,
                i as nat,
                depth,
                parent@,
            ),
        decreases n - i,
    {
        let ghost before = lines.deep_view();
        let member = object.member(i);
        let key = member.key.as_str();
        match &member.value {
            JsonValue::Null => {
                push_line(lines, bare(indent, key));
            },
            JsonValue::Bool(b) => {
                push_line(lines, valued(indent, key, shown_bool(*b)));
            },
            JsonValue::Number(number) => {
                push_line(lines, valued(indent, key, number.text.as_str()));
            },
            JsonValue::String(text) => {
                push_line(lines, valued(indent, key, text.as_str()));
            },
            JsonValue::Array(_) => {},
            JsonValue::Object(inner) => {
                if !indent.is_empty() && !is_array_key(key) {
                    push_line(lines, header(indent, key, parent));
                }
                let next = deeper(indent, Ghost(depth));
                proof {
                    let at = object@[i as int];
                    assert(at.1 == Json::Object(inner@));
                    assert(decreases_to!(object@ => object@[i as int]));
                    assert(decreases_to!(at => at.1));
                    assert(decreases_to!(at.1 => at.1->Object_0));
                    assert(indent@.len() == 0 <==> depth == 0);
                }
                flatten_members(lines, inner, next.as_str(), key, Ghost(depth + 1));
            },
        }
        proof {
            let at = object@[i as int];
            assert(lines.deep_view() =~= before + flat_member(at.0, at.1, depth, parent@));
        }
        i = i + 1;
    }
}

/// The display lines of a payload.
pub fn flatten(payload: &JsonObject) -> (lines: Vec<String>)
    ensures
        lines.deep_view() == flat_lines(payload@),
{
    let mut lines: Vec<String> = Vec::new();
    proof {
        reveal_strlit("");
        assert(""@ =~= indent_of(0));
        assert(""@ =~= Seq::<char>::empty());
        assert(lines.deep_view() =~= Seq::<Seq<char>>::empty());
    }
    flatten_members(&mut lines, payload, "", "", Ghost(0));
    lines
}

} // verus!
