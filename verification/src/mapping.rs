//! Ordered mappings as mathematical values: a sequence of entries, each a key
//! with its value, in which a key is found at the first entry that holds it.
//!
//! A mapping proper holds no key twice ([`distinct_keys`]). Writing a key into
//! one ([`put`]) replaces the value in place where the key is there already,
//! and adds an entry at the end where it is not, so an entry never moves.

use vstd::prelude::*;

verus! {

/// A key occurs among the entries.
pub open spec fn has_key<V>(entries: Seq<(Seq<char>, V)>, key: Seq<char>) -> bool {
    exists|i: int| 0 <= i < entries.len() && (#[trigger] entries[i]).0 == key
}

/// `i` is the place of the first entry that holds the key.
pub open spec fn first_at<V>(entries: Seq<(Seq<char>, V)>, key: Seq<char>, i: int) -> bool {
    &&& 0 <= i < entries.len()
    &&& entries[i].0 == key
    &&& forall|j: int| 0 <= j < i ==> (#[trigger] entries[j]).0 != key
}

/// The place of the first entry that holds the key, or `None` where no entry
/// holds it.
pub open spec fn index_of<V>(entries: Seq<(Seq<char>, V)>, key: Seq<char>) -> Option<int>
    decreases entries.len(),
{
    if entries.len() == 0 {
        None
    } else {
        match index_of(entries.drop_last(), key) {
            Some(i) => Some(i),
            None => if entries.last().0 == key {
                Some(entries.len() - 1)
            } else {
                None
            },
        }
    }
}

/// The value that the mapping gives for a key.
pub open spec fn lookup<V>(entries: Seq<(Seq<char>, V)>, key: Seq<char>) -> Option<V> {
    match index_of(entries, key) {
        Some(i) => Some(entries[i].1),
        None => None,
    }
}

/// The mapping after `value` is written under `key`.
pub open spec fn put<V>(entries: Seq<(Seq<char>, V)>, key: Seq<char>, value: V) -> Seq<
    (Seq<char>, V),
> {
    match index_of(entries, key) {
        Some(i) => entries.update(i, (key, value)),
        None => entries.push((key, value)),
    }
}

/// No key is held by two entries.
pub open spec fn distinct_keys<V>(entries: Seq<(Seq<char>, V)>) -> bool {
    forall|i: int, j: int|
        0 <= i < j < entries.len() ==> (#[trigger] entries[i]).0 != (#[trigger] entries[j]).0
}

/// `index_of` finds the first entry that holds the key, and finds none
/// exactly where no entry holds it.
pub proof fn lemma_index_of<V>(entries: Seq<(Seq<char>, V)>, key: Seq<char>)
    ensures
        index_of(entries, key) matches Some(i) ==> first_at(entries, key, i),
        index_of(entries, key) is None ==> !has_key(entries, key),
        forall|i: int| first_at(entries, key, i) ==> index_of(entries, key) == Some(i),
    decreases entries.len(),
{
    if entries.len() > 0 {
        let front = entries.drop_last();
        lemma_index_of(front, key);
        assert forall|j: int| 0 <= j < front.len() implies front[j] == entries[j] by {}
        match index_of(front, key) {
            Some(i) => {
                assert(front[i] == entries[i]);
                assert(first_at(entries, key, i));
                assert forall|k: int| first_at(entries, key, k) implies k == i by {
                    if k < i {
                        assert(entries[k].0 != key);
                    } else if k > i {
                        assert(entries[i].0 != key);
                    }
                }
            },
            None => {
                assert forall|j: int| 0 <= j < front.len() implies (#[trigger] entries[j]).0
                    != key by {
                    assert(front[j].0 == key ==> has_key(front, key));
                }
                assert forall|k: int| first_at(entries, key, k) implies index_of(entries, key)
                    == Some(k) by {
                    if k < front.len() {
                        assert(entries[k].0 != key);
                    }
                }
            },
        }
    }
}

/// Writing a key keeps the keys distinct.
pub proof fn lemma_put_keeps_distinct<V>(entries: Seq<(Seq<char>, V)>, key: Seq<char>, value: V)
    requires
        distinct_keys(entries),
    ensures
        distinct_keys(put(entries, key, value)),
{
    lemma_index_of(entries, key);
    let after = put(entries, key, value);
    match index_of(entries, key) {
        Some(i) => {
            assert forall|a: int, b: int| 0 <= a < b < after.len() implies (#[trigger] after[a]).0
                != (#[trigger] after[b]).0 by {
                assert(after[a].0 == entries[a].0);
                assert(after[b].0 == entries[b].0);
            }
        },
        None => {
            assert forall|a: int, b: int| 0 <= a < b < after.len() implies (#[trigger] after[a]).0
                != (#[trigger] after[b]).0 by {
                assert(after[a] == entries[a]);
                if b < entries.len() {
                    assert(after[b] == entries[b]);
                }
            }
        },
    }
}

/// A key that was written is found, with the value that was written.
pub proof fn lemma_put_then_lookup<V>(entries: Seq<(Seq<char>, V)>, key: Seq<char>, value: V)
    ensures
        lookup(put(entries, key, value), key) == Some(value),
{
    lemma_index_of(entries, key);
    let after = put(entries, key, value);
    lemma_index_of(after, key);
    match index_of(entries, key) {
        Some(i) => {
            assert forall|j: int| 0 <= j < i implies (#[trigger] after[j]).0 != key by {
                assert(after[j] == entries[j]);
            }
            assert(first_at(after, key, i));
        },
        None => {
            let i = entries.len() as int;
            assert forall|j: int| 0 <= j < i implies (#[trigger] after[j]).0 != key by {
                assert(after[j] == entries[j]);
            }
            assert(first_at(after, key, i));
        },
    }
}

/// Writing a key leaves what the mapping gives for every other key.
pub proof fn lemma_put_keeps_others<V>(
    entries: Seq<(Seq<char>, V)>,
    key: Seq<char>,
    value: V,
    other: Seq<char>,
)
    requires
        other != key,
    ensures
        lookup(put(entries, key, value), other) == lookup(entries, other),
{
    lemma_index_of(entries, key);
    lemma_index_of(entries, other);
    let after = put(entries, key, value);
    lemma_index_of(after, other);
    assert forall|j: int| 0 <= j < entries.len() implies ((#[trigger] after[j]).0 == other
        <==> entries[j].0 == other) && (entries[j].0 == other ==> after[j] == entries[j]) by {}
    match index_of(entries, other) {
        Some(i) => {
            assert forall|j: int| 0 <= j < i implies (#[trigger] after[j]).0 != other by {
                assert(entries[j].0 != other);
            }
            assert(first_at(after, other, i));
        },
        None => {
            if has_key(after, other) {
                let j = choose|j: int| 0 <= j < after.len() && (#[trigger] after[j]).0 == other;
                if j < entries.len() {
                    assert(entries[j].0 == other);
                }
            }
            assert(index_of(after, other) is None) by {
                if index_of(after, other) is Some {
                    let k = index_of(after, other)->Some_0;
                    assert(first_at(after, other, k));
                    assert(after[k].0 == other);
                }
            }
        },
    }
}

/// Writing a key moves no entry: every entry that was there keeps its place
/// and its key, and every entry but the one of the written key keeps its
/// value. The mapping grows by one entry exactly where the key is new.
pub proof fn lemma_put_keeps_places<V>(entries: Seq<(Seq<char>, V)>, key: Seq<char>, value: V)
    ensures
        put(entries, key, value).len() == if has_key(entries, key) {
            entries.len()
        } else {
            entries.len() + 1
        },
        forall|i: int|
            0 <= i < entries.len() ==> (#[trigger] put(entries, key, value)[i]).0 == entries[i].0,
        forall|i: int|
            0 <= i < entries.len() && entries[i].0 != key ==> #[trigger] put(
                entries,
                key,
                value,
            )[i] == entries[i],
        !has_key(entries, key) ==> put(entries, key, value).last() == (key, value),
{
    lemma_index_of(entries, key);
}

} // verus!
