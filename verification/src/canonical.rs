//! The normal form of a JSON value, in which every object has its members in
//! ascending key order.

use vstd::prelude::*;
use crate::json::{Json, Members};
use crate::members::{keys_sorted, lemma_upsert_members, lemma_upsert_sorted, upsert};

verus! {

/// The normal form of a value: in every object the members stand in
/// ascending key order, and of several members with one key the last one is
/// kept.
pub open spec fn canonical(value: Json) -> Json
    decreases value,
{
    match value {
        Json::Array(items) => Json::Array(
            Seq::new(
                items.len(),
                |i: int|
                    if 0 <= i < items.len() {
                        canonical(items[i])
                    } else {
                        Json::Null
                    },
            ),
        ),
        Json::Object(members) => Json::Object(canonical_members(members, members.len())),
        _ => value,
    }
}

/// The normal form of the first `n` members of `members`.
pub open spec fn canonical_members(members: Members, n: nat) -> Members
    decreases members, n,
{
    if n == 0 || n > members.len() {
        Seq::empty()
    } else {
        upsert(
            canonical_members(members, (n - 1) as nat),
            members[n - 1].0,
            canonical(members[n - 1].1),
        )
    }
}

/// Every object in `value`, at any depth, has its keys ascending.
pub open spec fn ordered(value: Json) -> bool
    decreases value,
{
    match value {
        Json::Array(items) => forall|i: int|
            0 <= i < items.len() ==> ordered(#[trigger] items[i]),
        Json::Object(members) => keys_sorted(members) && forall|i: int|
            0 <= i < members.len() ==> ordered((#[trigger] members[i]).1),
        _ => true,
    }
}

/// The normal form of the first `n` members has its keys ascending at every
/// depth.
pub proof fn lemma_canonical_members_ordered(members: Members, n: nat)
    ensures
        ordered(Json::Object(canonical_members(members, n))),
    decreases members, n,
{
    if n == 0 || n > members.len() {
    } else {
        let before = canonical_members(members, (n - 1) as nat);
        let key = members[n - 1].0;
        let value = canonical(members[n - 1].1);
        let after = upsert(before, key, value);
        lemma_canonical_members_ordered(members, (n - 1) as nat);
        lemma_canonical_ordered(members[n - 1].1);
        lemma_upsert_sorted(before, key, value);
        lemma_upsert_members(before, key, value);
        assert forall|i: int| 0 <= i < after.len() implies ordered((#[trigger] after[i]).1) by {
            if after[i] != (key, value) {
                let k = choose|k: int| 0 <= k < before.len() && before[k] == after[i];
                assert(ordered(before[k].1));
            }
        }
    }
}

/// The normal form of a value has the keys of every object ascending.
pub proof fn lemma_canonical_ordered(value: Json)
    ensures
        ordered(canonical(value)),
    decreases value,
{
    match value {
        Json::Array(items) => {
            let after = canonical(value)->Array_0;
            assert forall|i: int| 0 <= i < after.len() implies ordered(#[trigger] after[i]) by {
                lemma_canonical_ordered(items[i]);
            }
        },
        Json::Object(members) => {
            lemma_canonical_members_ordered(members, members.len());
        },
        _ => {},
    }
}

} // verus!
