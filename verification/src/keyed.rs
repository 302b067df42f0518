//! Lists of distinct keys, the common ground of the tables.

use crate::text::same;
use vstd::prelude::*;

verus! {

/// Where `key` first stands among `keys`.
pub open spec fn position<K>(keys: Seq<K>, key: K) -> Option<int>
    decreases keys.len(),
{
    if keys.len() == 0 {
        None
    } else if keys[0] == key {
        Some(0)
    } else {
        match position(keys.skip(1), key) {
            Some(i) => Some(i + 1),
            None => None,
        }
    }
}

/// Whether no key stands twice among `keys`.
pub open spec fn distinct<K>(keys: Seq<K>) -> bool {
    forall|i: int, j: int| 0 <= i < j < keys.len() ==> keys[i] != keys[j]
}

/// The position of a key is where the key stands for the first time; there is
/// none exactly where the key stands nowhere.
pub proof fn lemma_position_found<K>(keys: Seq<K>, key: K)
    ensures
        position(keys, key) matches Some(i) ==> 0 <= i < keys.len() && keys[i] == key && forall|k: int|
            0 <= k < i ==> keys[k] != key,
        position(keys, key) is None ==> forall|k: int| 0 <= k < keys.len() ==> keys[k] != key,
    decreases keys.len(),
{
    if keys.len() == 0 {
    } else if keys[0] == key {
    } else {
        let rest = keys.skip(1);
        lemma_position_found(rest, key);
        match position(rest, key) {
            Some(i) => {
                assert(rest[i] == keys[i + 1]);
                assert forall|k: int| 0 <= k < i + 1 implies keys[k] != key by {
                    if k > 0 {
                        assert(rest[k - 1] == keys[k]);
                    }
                }
            },
            None => {
                assert forall|k: int| 0 <= k < keys.len() implies keys[k] != key by {
                    if k > 0 {
                        assert(rest[k - 1] == keys[k]);
                    }
                }
            },
        }
    }
}

/// What stands where the key stands for the first time, or nowhere, is its
/// position.
pub proof fn lemma_position_is<K>(keys: Seq<K>, key: K, at: Option<int>)
    requires
        match at {
            Some(i) => 0 <= i < keys.len() && keys[i] == key && forall|k: int|
                0 <= k < i ==> keys[k] != key,
            None => forall|k: int| 0 <= k < keys.len() ==> keys[k] != key,
        },
    ensures
        position(keys, key) == at,
{
    lemma_position_found(keys, key);
    match (position(keys, key), at) {
        (Some(p), Some(i)) => {
            if p < i {
                assert(keys[p] != key);
            } else if i < p {
                assert(keys[i] != key);
            }
        },
        (Some(p), None) => {
            assert(keys[p] != key);
        },
        (None, Some(i)) => {
            assert(keys[i] != key);
        },
        (None, None) => {},
    }
}

/// The keys of a list of entries, in its order.
pub open spec fn keys_of<V>(entries: Seq<(Vec<char>, V)>) -> Seq<Seq<char>> {
    entries.map_values(|e: (Vec<char>, V)| e.0@)
}

/// The index at which `key` first stands among the entries.
pub fn find_key<V>(entries: &Vec<(Vec<char>, V)>, key: &Vec<char>) -> (r: Option<usize>)
    ensures
        match r {
            Some(i) => position(keys_of(entries@), key@) == Some(i as int) && i < entries.len(),
            None => position(keys_of(entries@), key@) is None,
        },
{
    let mut i: usize = 0;
    while i < entries.len()
        invariant
            i <= entries.len(),
            forall|k: int| 0 <= k < i ==> keys_of(entries@)[k] != key@,
        decreases entries.len() - i,
    {
        if same(&entries[i].0, key) {
            proof {
                lemma_position_is(keys_of(entries@), key@, Some(i as int));
            }
            return Some(i);
        }
        i += 1;
    }
    proof {
        lemma_position_is(keys_of(entries@), key@, None);
    }
    None
}

/// Putting a key that is not there at the end, and removing an entry, keep the
/// keys distinct.
pub proof fn lemma_distinct_kept<K>(keys: Seq<K>, key: K)
    requires
        distinct(keys),
    ensures
        position(keys, key) is None ==> distinct(keys.push(key)),
        position(keys, key) matches Some(i) ==> distinct(keys.remove(i)) && position(
            keys.remove(i),
            key,
        ) is None,
{
    lemma_position_found(keys, key);
    match position(keys, key) {
        None => {
            let after = keys.push(key);
            assert forall|i: int, j: int| 0 <= i < j < after.len() implies after[i] != after[j] by {
                if j < keys.len() {
                    assert(after[i] == keys[i] && after[j] == keys[j]);
                } else {
                    assert(after[i] == keys[i]);
                }
            }
        },
        Some(p) => {
            let after = keys.remove(p);
            assert forall|i: int, j: int| 0 <= i < j < after.len() implies after[i] != after[j] by {
                let a = if i < p { i } else { i + 1 };
                let b = if j < p { j } else { j + 1 };
                assert(after[i] == keys[a] && after[j] == keys[b]);
            }
            assert forall|k: int| 0 <= k < after.len() implies after[k] != key by {
                let a = if k < p { k } else { k + 1 };
                assert(after[k] == keys[a]);
                assert(keys[a] != keys[p]);
            }
            lemma_position_is(after, key, None);
        },
    }
}

} // verus!
