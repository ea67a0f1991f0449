//! JSON values as the dashboard holds them, and the mathematical model that
//! the contracts of this crate speak of.

use vstd::prelude::*;
use crate::keys::{key_lt, lemma_key_lt_asymmetric, lemma_key_lt_irreflexive, rank_keys, Rank};
use crate::members::{
    keys_sorted, lemma_first_match, lemma_upsert_at, lemma_upsert_sorted, lookup, upsert,
    without,
};

verus! {

/// What a number stands for: its text as it is displayed, and its value where
/// it is an integer that fits in 64 signed bits.
pub struct Numeral {
    pub text: Seq<char>,
    pub integer: Option<i64>,
}

/// The model of a JSON value. An object is the sequence of its members.
pub enum Json {
    Null,
    Bool(bool),
    Number(Numeral),
    String(Seq<char>),
    Array(Seq<Json>),
    Object(Seq<(Seq<char>, Json)>),
}

/// The model of the members of an object: each key with its value.
pub type Members = Seq<(Seq<char>, Json)>;

/// A JSON number.
#[derive(Debug)]
pub struct JsonNumber {
    pub text: String,
    pub integer: Option<i64>,
}

/// One member of a JSON object.
#[derive(Debug)]
pub struct Member {
    pub key: String,
    pub value: JsonValue,
}

/// A JSON object: its members in ascending key order, no key twice.
#[derive(Debug)]
pub struct JsonObject {
    members: Vec<Member>,
}

/// A JSON value.
#[derive(Debug)]
pub enum JsonValue {
    Null,
    Bool(bool),
    Number(JsonNumber),
    String(String),
    Array(Vec<JsonValue>),
    Object(JsonObject),
}

impl View for JsonNumber {
    type V = Numeral;

    open spec fn view(&self) -> Numeral {
        Numeral { text: self.text@, integer: self.integer }
    }
}

/// The model of a value.
pub open spec fn json_of(v: JsonValue) -> Json
    decreases v, 0int,
{
    match v {
        JsonValue::Null => Json::Null,
        JsonValue::Bool(b) => Json::Bool(b),
        JsonValue::Number(n) => Json::Number(n@),
        JsonValue::String(s) => Json::String(s@),
        JsonValue::Array(items) => Json::Array(
            Seq::new(
                items.len() as nat,
                |i: int|
                    if 0 <= i < items.len() {
                        json_of(items[i])
                    } else {
                        Json::Null
                    },
            ),
        ),
        JsonValue::Object(o) => Json::Object(members_of(o)),
    }
}

/// The members of an object, in the order in which it holds them.
pub closed spec fn members_of(o: JsonObject) -> Members
    decreases o, 0int,
{
    Seq::new(
        o.members.len() as nat,
        |i: int|
            if 0 <= i < o.members.len() {
                (o.members[i].key@, json_of(o.members[i].value))
            } else {
                (Seq::empty(), Json::Null)
            },
    )
}

impl View for JsonValue {
    type V = Json;

    open spec fn view(&self) -> Json {
        json_of(*self)
    }
}

impl View for Member {
    type V = (Seq<char>, Json);

    open spec fn view(&self) -> (Seq<char>, Json) {
        (self.key@, self.value@)
    }
}

impl View for JsonObject {
    type V = Members;

    open spec fn view(&self) -> Members {
        members_of(*self)
    }
}

impl JsonObject {
    #[verifier::type_invariant]
    spec fn ascending(self) -> bool {
        keys_sorted(members_of(self))
    }

    /// The object without members.
    pub fn new() -> (o: JsonObject)
        ensures
            o@ == Members::empty(),
    {
        let o = JsonObject { members: Vec::new() };
        assert(o@ =~= Members::empty());
        o
    }

    /// The number of members. Their keys ascend.
    pub fn len(&self) -> (n: usize)
        ensures
            n == self@.len(),
            keys_sorted(self@),
    {
        proof {
            use_type_invariant(self);
        }
        self.members.len()
    }

    /// The member at position `i`.
    pub fn member(&self, i: usize) -> (m: &Member)
        requires
            i < self@.len(),
        ensures
            m@ == self@[i as int],
    {
        &self.members[i]
    }

    /// The value under `key`, if the object has that key.
    pub fn get(&self, key: &str) -> (found: Option<&JsonValue>)
        ensures
            match found {
                Some(value) => lookup(self@, key@) == Some(value@),
                None => lookup(self@, key@) is None,
            },
    {
        let mut i: usize = 0;
        proof {
            assert(self@.skip(0) =~= self@);
        }
        while i < self.members.len()
            invariant
                i <= self.members.len(),
                self.members.len() == self@.len(),
                lookup(self@, key@) == lookup(self@.skip(i as int), key@),
            decreases self.members.len() - i,
        {
            let m = &self.members[i];
            proof {
                assert(self@.skip(i as int)[0] == self@[i as int]);
                assert(self@.skip(i as int).drop_first() =~= self@.skip(i + 1));
            }
            if let Rank::Same = rank_keys(m.key.as_str(), key) {
                return Some(&m.value);
            }
            i = i + 1;
        }
        None
    }

    /// Puts `value` under `key`, in place of the value that `key` led to, if
    /// any.
    pub fn insert(&mut self, key: String, value: JsonValue)
        ensures
            final(self)@ == upsert(old(self)@, key@, value@),
            keys_sorted(final(self)@),
    {
        proof {
            use_type_invariant(&*self);
        }
        let ghost before = self@;
        let mut members: Vec<Member> = Vec::new();
        std::mem::swap(&mut members, &mut self.members);
        let mut at: usize = 0;
        let mut same: bool = false;
        while at < members.len()
            invariant_except_break
                !same,
            invariant
                at <= members.len(),
                members.len() == before.len(),
                forall|j: int| 0 <= j < members.len() ==> (#[trigger] members[j])@ == before[j],
                forall|j: int| 0 <= j < at ==> key_lt(#[trigger] before[j].0, key@),
            ensures
                at <= members.len(),
                at < members.len() ==> !key_lt(before[at as int].0, key@),
                same <==> at < members.len() && before[at as int].0 == key@,
            decreases members.len() - at,
        {
            match rank_keys(members[at].key.as_str(), key.as_str()) {
                Rank::Before => {
                    at = at + 1;
                },
                Rank::Same => {
                    same = true;
                    proof {
                        lemma_key_lt_irreflexive(key@);
                    }
                    break ;
                },
                Rank::After => {
                    proof {
                        lemma_key_lt_asymmetric(key@, before[at as int].0);
                    }
                    break ;
                },
            }
        }
        let ghost added = (key@, value@);
        let member = Member { key, value };
        if same {
            members.set(at, member);
        } else {
            members.insert(at, member);
        }
        proof {
            lemma_upsert_at(before, added.0, added.1, at as int);
            lemma_upsert_sorted(before, added.0, added.1);
            assert(members_of(JsonObject { members }) =~= upsert(before, added.0, added.1));
        }
        self.members = members;
    }

    /// Takes the member with `key` out of the object and hands its value
    /// over, if the object has that key.
    pub fn remove(&mut self, key: &str) -> (taken: Option<JsonValue>)
        ensures
            match taken {
                Some(value) => lookup(old(self)@, key@) == Some(value@),
                None => lookup(old(self)@, key@) is None,
            },
            final(self)@ == without(old(self)@, key@),
            keys_sorted(final(self)@),
    {
        proof {
            use_type_invariant(&*self);
        }
        let ghost before = self@;
        let mut members: Vec<Member> = Vec::new();
        std::mem::swap(&mut members, &mut self.members);
        let mut at: usize = 0;
        while at < members.len()
            invariant
                at <= members.len(),
                members.len() == before.len(),
                forall|j: int| 0 <= j < members.len() ==> (#[trigger] members[j])@ == before[j],
                forall|j: int| 0 <= j < at ==> (#[trigger] before[j]).0 != key@,
            ensures
                at <= members.len(),
                at < members.len() ==> before[at as int].0 == key@,
            decreases members.len() - at,
        {
            if let Rank::Same = rank_keys(members[at].key.as_str(), key) {
                break ;
            }
            at = at + 1;
        }
        proof {
            lemma_first_match(before, key@, at as int);
        }
        let taken = if at < members.len() {
            let member = members.remove(at);
            Some(member.value)
        } else {
            None
        };
        proof {
            assert(members_of(JsonObject { members }) =~= without(before, key@));
            let after = without(before, key@);
            assert forall|i: int, j: int| 0 <= i < j < after.len() implies key_lt(
                #[trigger] after[i].0,
                #[trigger] after[j].0,
            ) by {
                if at < before.len() {
                    let a = if i < at { i } else { i + 1 };
                    let b = if j < at { j } else { j + 1 };
                    assert(key_lt(before[a].0, before[b].0));
                }
            }
        }
        self.members = members;
        taken
    }
}

} // verus!
