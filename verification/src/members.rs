//! The members of a JSON object as a sequence of keys with their values:
//! finding, putting and taking a member, and what ascending key order gives.

use vstd::prelude::*;
use crate::json::{Json, Members};
use crate::keys::{
    key_lt, lemma_key_lt_asymmetric, lemma_key_lt_irreflexive, lemma_key_lt_total,
    lemma_key_lt_transitive,
};

verus! {

/// The keys of `members` ascend strictly, so that none occurs twice.
pub open spec fn keys_sorted(members: Members) -> bool {
    forall|i: int, j: int|
        0 <= i < j < members.len() ==> key_lt(#[trigger] members[i].0, #[trigger] members[j].0)
}

/// The value of the first member of `members` whose key is `key`.
pub open spec fn lookup(members: Members, key: Seq<char>) -> Option<Json>
    decreases members.len(),
{
    if members.len() == 0 {
        None
    } else if members[0].0 == key {
        Some(members[0].1)
    } else {
        lookup(members.drop_first(), key)
    }
}

/// `members` with `value` under `key`: in place of the member that has this
/// key, or else before the first member whose key comes after it.
pub open spec fn upsert(members: Members, key: Seq<char>, value: Json) -> Members
    decreases members.len(),
{
    if members.len() == 0 {
        seq![(key, value)]
    } else if members[0].0 == key {
        members.update(0, (key, value))
    } else if key_lt(key, members[0].0) {
        seq![(key, value)] + members
    } else {
        seq![members[0]] + upsert(members.drop_first(), key, value)
    }
}

/// Where `upsert` puts a member, given the first position whose key does not
/// come before `key`.
pub proof fn lemma_upsert_at(
    members: Members,
    key: Seq<char>,
    value: Json,
    at: int,
)
    requires
        0 <= at <= members.len(),
        forall|j: int| 0 <= j < at ==> key_lt(#[trigger] members[j].0, key),
        at < members.len() ==> !key_lt(members[at].0, key),
    ensures
        upsert(members, key, value) == if at < members.len() && members[at].0 == key {
            members.update(at, (key, value))
        } else {
            members.insert(at, (key, value))
        },
    decreases members.len(),
{
    if members.len() == 0 {
        assert(seq![(key, value)] =~= members.insert(at, (key, value)));
    } else if at == 0 {
        if members[0].0 != key {
            lemma_key_lt_total(key, members[0].0);
            assert(seq![(key, value)] + members =~= members.insert(0, (key, value)));
        }
    } else {
        lemma_key_lt_asymmetric(members[0].0, key);
        let rest = members.drop_first();
        assert forall|j: int| 0 <= j < at - 1 implies key_lt(#[trigger] rest[j].0, key) by {
            assert(rest[j] == members[j + 1]);
        }
        lemma_upsert_at(rest, key, value, at - 1);
        if at < members.len() && members[at].0 == key {
            assert(seq![members[0]] + rest.update(at - 1, (key, value)) =~= members.update(
                at,
                (key, value),
            ));
        } else {
            assert(seq![members[0]] + rest.insert(at - 1, (key, value)) =~= members.insert(
                at,
                (key, value),
            ));
        }
    }
}

/// `upsert` keeps ascending keys ascending.
pub proof fn lemma_upsert_sorted(members: Members, key: Seq<char>, value: Json)
    requires
        keys_sorted(members),
    ensures
        keys_sorted(upsert(members, key, value)),
    decreases members.len(),
{
    let after = upsert(members, key, value);
    if members.len() == 0 {
    } else if members[0].0 == key {
    } else if key_lt(key, members[0].0) {
        assert forall|i: int, j: int| 0 <= i < j < after.len() implies key_lt(
            #[trigger] after[i].0,
            #[trigger] after[j].0,
        ) by {
            if i == 0 {
                if j > 1 {
                    assert(key_lt(members[0].0, members[j - 1].0));
                    lemma_key_lt_transitive(key, members[0].0, members[j - 1].0);
                }
            } else {
                assert(key_lt(members[i - 1].0, members[j - 1].0));
            }
        }
    } else {
        let rest = members.drop_first();
        assert(keys_sorted(rest)) by {
            assert forall|i: int, j: int| 0 <= i < j < rest.len() implies key_lt(
                #[trigger] rest[i].0,
                #[trigger] rest[j].0,
            ) by {
                assert(key_lt(members[i + 1].0, members[j + 1].0));
            }
        }
        lemma_upsert_sorted(rest, key, value);
        lemma_upsert_members(rest, key, value);
        lemma_key_lt_total(key, members[0].0);
        let tail = upsert(rest, key, value);
        assert forall|i: int, j: int| 0 <= i < j < after.len() implies key_lt(
            #[trigger] after[i].0,
            #[trigger] after[j].0,
        ) by {
            if i == 0 {
                if tail[j - 1] != (key, value) {
                    let k = choose|k: int| 0 <= k < rest.len() && rest[k] == tail[j - 1];
                    assert(key_lt(members[0].0, members[k + 1].0));
                }
            } else {
                assert(key_lt(tail[i - 1].0, tail[j - 1].0));
            }
        }
    }
}

/// Every member of `upsert(members, key, value)` is the new one or a member
/// of `members`.
pub proof fn lemma_upsert_members(members: Members, key: Seq<char>, value: Json)
    ensures
        forall|i: int|
            #![trigger upsert(members, key, value)[i]]
            0 <= i < upsert(members, key, value).len() ==> upsert(members, key, value)[i] == (
                key,
                value,
            ) || exists|k: int|
                0 <= k < members.len() && members[k] == upsert(members, key, value)[i],
    decreases members.len(),
{
    let after = upsert(members, key, value);
    if members.len() == 0 {
    } else if members[0].0 == key {
        assert forall|i: int| 0 <= i < after.len() implies after[i] == (key, value) || exists|
            k: int,
        |
            0 <= k < members.len() && members[k] == #[trigger] after[i] by {
            if i > 0 {
                assert(members[i] == after[i]);
            }
        }
    } else if key_lt(key, members[0].0) {
        assert forall|i: int| 0 <= i < after.len() implies after[i] == (key, value) || exists|
            k: int,
        |
            0 <= k < members.len() && members[k] == #[trigger] after[i] by {
            if i > 0 {
                assert(members[i - 1] == after[i]);
            }
        }
    } else {
        let rest = members.drop_first();
        let tail = upsert(rest, key, value);
        lemma_upsert_members(rest, key, value);
        assert forall|i: int| 0 <= i < after.len() implies after[i] == (key, value) || exists|
            k: int,
        |
            0 <= k < members.len() && members[k] == #[trigger] after[i] by {
            if i == 0 {
                assert(members[0] == after[0]);
            } else {
                assert(after[i] == tail[i - 1]);
                if tail[i - 1] != (key, value) {
                    let k = choose|k: int| 0 <= k < rest.len() && rest[k] == tail[i - 1];
                    assert(members[k + 1] == after[i]);
                }
            }
        }
    }
}

/// After `upsert`, `key` leads to `value` and every other key to what it led
/// to before.
pub proof fn lemma_upsert_lookup(
    members: Members,
    key: Seq<char>,
    value: Json,
    other: Seq<char>,
)
    ensures
        lookup(upsert(members, key, value), key) == Some(value),
        other != key ==> lookup(upsert(members, key, value), other) == lookup(members, other),
    decreases members.len(),
{
    let after = upsert(members, key, value);
    if members.len() == 0 {
        assert(after.drop_first() =~= members);
    } else if members[0].0 == key {
        assert(after.drop_first() =~= members.drop_first());
    } else if key_lt(key, members[0].0) {
        assert(after.drop_first() =~= members);
    } else {
        lemma_upsert_lookup(members.drop_first(), key, value, other);
        assert(after.drop_first() =~= upsert(members.drop_first(), key, value));
    }
}

/// `members` without the first member whose key is `key`.
pub open spec fn without(members: Members, key: Seq<char>) -> Members
    decreases members.len(),
{
    if members.len() == 0 {
        members
    } else if members[0].0 == key {
        members.drop_first()
    } else {
        seq![members[0]] + without(members.drop_first(), key)
    }
}

/// What `lookup` and `without` give, from the first position that holds
/// `key`, or from the length where none does.
pub proof fn lemma_first_match(members: Members, key: Seq<char>, at: int)
    requires
        0 <= at <= members.len(),
        forall|j: int| 0 <= j < at ==> (#[trigger] members[j]).0 != key,
        at < members.len() ==> members[at].0 == key,
    ensures
        at < members.len() ==> lookup(members, key) == Some(members[at].1) && without(
            members,
            key,
        ) == members.remove(at),
        at == members.len() ==> lookup(members, key) is None && without(members, key)
            == members,
    decreases members.len(),
{
    if members.len() == 0 {
    } else if at == 0 {
        assert(members.drop_first() =~= members.remove(0));
    } else {
        let rest = members.drop_first();
        assert(members[0].0 != key);
        assert forall|j: int| 0 <= j < at - 1 implies (#[trigger] rest[j]).0 != key by {
            assert(rest[j] == members[j + 1]);
        }
        lemma_first_match(rest, key, at - 1);
        if at < members.len() {
            assert(seq![members[0]] + rest.remove(at - 1) =~= members.remove(at));
        } else {
            assert(seq![members[0]] + rest =~= members);
        }
    }
}

/// A key that `lookup` finds is the key of a member, and what it finds is
/// the value of that member.
pub proof fn lemma_lookup_found(members: Members, key: Seq<char>)
    requires
        lookup(members, key) is Some,
    ensures
        exists|i: int|
            0 <= i < members.len() && (#[trigger] members[i]).0 == key && lookup(members, key)
                == Some(members[i].1),
    decreases members.len(),
{
    if members[0].0 == key {
        assert(members[0].0 == key && lookup(members, key) == Some(members[0].1));
    } else {
        let rest = members.drop_first();
        lemma_lookup_found(rest, key);
        let i = choose|i: int|
            0 <= i < rest.len() && (#[trigger] rest[i]).0 == key && lookup(rest, key) == Some(
                rest[i].1,
            );
        assert(members[i + 1] == rest[i]);
    }
}

/// Members in ascending key order are fixed by what they lead each key to:
/// two such sequences that agree on every key are one sequence.
pub proof fn lemma_sorted_members_unique(a: Members, b: Members)
    requires
        keys_sorted(a),
        keys_sorted(b),
        forall|key: Seq<char>| lookup(a, key) == lookup(b, key),
    ensures
        a == b,
    decreases a.len(),
{
    if a.len() == 0 {
        if b.len() > 0 {
            assert(lookup(b, b[0].0) == lookup(a, b[0].0));
        }
        assert(a =~= b);
    } else if b.len() == 0 {
        assert(lookup(a, a[0].0) == lookup(b, a[0].0));
    } else {
        let ka = a[0].0;
        let kb = b[0].0;
        let ra = a.drop_first();
        let rb = b.drop_first();
        assert(lookup(a, ka) == lookup(b, ka));
        assert(lookup(a, kb) == lookup(b, kb));
        if ka != kb {
            lemma_lookup_found(rb, ka);
            let j = choose|j: int| 0 <= j < rb.len() && (#[trigger] rb[j]).0 == ka;
            assert(b[j + 1] == rb[j]);
            assert(key_lt(b[0].0, b[j + 1].0));
            lemma_lookup_found(ra, kb);
            let i = choose|i: int| 0 <= i < ra.len() && (#[trigger] ra[i]).0 == kb;
            assert(a[i + 1] == ra[i]);
            assert(key_lt(a[0].0, a[i + 1].0));
            lemma_key_lt_asymmetric(ka, kb);
        }
        assert(a[0] == b[0]);
        assert(keys_sorted(ra)) by {
            assert forall|i: int, j: int| 0 <= i < j < ra.len() implies key_lt(
                #[trigger] ra[i].0,
                #[trigger] ra[j].0,
            ) by {
                assert(key_lt(a[i + 1].0, a[j + 1].0));
            }
        }
        assert(keys_sorted(rb)) by {
            assert forall|i: int, j: int| 0 <= i < j < rb.len() implies key_lt(
                #[trigger] rb[i].0,
                #[trigger] rb[j].0,
            ) by {
                assert(key_lt(b[i + 1].0, b[j + 1].0));
            }
        }
        assert forall|key: Seq<char>| lookup(ra, key) == lookup(rb, key) by {
            if key == ka {
                lemma_key_lt_irreflexive(ka);
                if lookup(ra, key) is Some {
                    lemma_lookup_found(ra, key);
                    let i = choose|i: int| 0 <= i < ra.len() && (#[trigger] ra[i]).0 == key;
                    assert(a[i + 1] == ra[i]);
                    assert(key_lt(a[0].0, a[i + 1].0));
                }
                if lookup(rb, key) is Some {
                    lemma_lookup_found(rb, key);
                    let j = choose|j: int| 0 <= j < rb.len() && (#[trigger] rb[j]).0 == key;
                    assert(b[j + 1] == rb[j]);
                    assert(key_lt(b[0].0, b[j + 1].0));
                }
            } else {
                assert(lookup(a, key) == lookup(b, key));
            }
        }
        lemma_sorted_members_unique(ra, rb);
        assert(a =~= seq![a[0]] + ra);
        assert(b =~= seq![b[0]] + rb);
    }
}

} // verus!
