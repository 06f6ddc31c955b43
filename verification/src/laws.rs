//! What holds of every conversion.
//!
//! Each proof function here states one property of [`converted`] for all
//! trees. [`crate::convert::convert`] returns `converted` of its argument, so
//! each of them holds of what the executable code returns.

use crate::convert::{converted, converted_entries, converted_items, outcome, ConversionError};
use crate::host::{finite_bits, HostObject, HostValue};
use crate::mapping::{
    distinct_keys, has_key, index_of, lemma_index_of, lemma_put_keeps_distinct,
    lemma_put_keeps_others, lemma_put_keeps_places, lemma_put_then_lookup, lookup, put,
};
use crate::tree::{Number, TreeNode, TreeValue};
use vstd::prelude::*;

verus! {

/// The tree can be converted: every node carries the payload of its kind, and
/// every number fits the numeric type that its literal asks for.
pub open spec fn convertible(t: TreeValue) -> bool
    decreases t,
{
    match t {
        TreeValue::Null => true,
        TreeValue::Bool(p) => p is Some,
        TreeValue::Number(p) => p matches Some(n) && number_fits(n),
        TreeValue::String(p) => p is Some,
        TreeValue::Array(p) => p matches Some(items) && forall|i: int|
            0 <= i < items.len() ==> convertible(#[trigger] items[i]),
        TreeValue::Object(p) => p matches Some(entries) && forall|i: int|
            0 <= i < entries.len() ==> convertible((#[trigger] entries[i]).1),
    }
}

/// The magnitude of the number fits the numeric type that its literal asks
/// for: a finite double where it was written as a fraction, a 64-bit signed
/// integer where it was not.
pub open spec fn number_fits(n: Number) -> bool {
    if n.fractional {
        n.float matches Some(bits) && finite_bits(bits)
    } else {
        n.integer is Some
    }
}

/// The first `n` entries hold the key.
pub open spec fn key_among(entries: Seq<(Seq<char>, TreeValue)>, n: nat, key: Seq<char>) -> bool {
    exists|i: int| 0 <= i < n && (#[trigger] entries[i]).0 == key
}

/// A number that was written as a fraction becomes a double and never an
/// integer; one that was written without becomes an integer and never a
/// double. The value plays no part: only how the literal was written.
pub proof fn lemma_number_follows_its_literal(n: Number)
    ensures
        n.fractional ==> (converted(TreeValue::Number(Some(n))) matches Ok(h) ==> h
            == HostValue::Float(n.float->Some_0)),
        !n.fractional ==> (converted(TreeValue::Number(Some(n))) matches Ok(h) ==> h
            == HostValue::Int(n.integer->Some_0 as int)),
        converted(TreeValue::Number(Some(n))) is Ok <==> number_fits(n),
{
}

/// A number that was written without a fraction and whose magnitude is no
/// 64-bit signed integer is a numeric error: it is neither wrapped nor turned
/// into a double, even where the magnitude is exactly a double.
pub proof fn lemma_integer_out_of_range_is_an_error(n: Number)
    requires
        !n.fractional,
        n.integer is None,
    ensures
        converted(TreeValue::Number(Some(n))) == Err::<HostValue, ConversionError>(
            ConversionError::Numeric,
        ),
{
}

/// What the conversion of the first `n` items of an array is, item by item:
/// where it succeeds, one host object for each item, in the order of the
/// items; where it fails, the error of the first item that has one.
pub proof fn lemma_converted_items(items: Seq<TreeValue>, n: nat)
    requires
        n <= items.len(),
    ensures
        match converted_items(items, n) {
            Ok(values) => values.len() == n && forall|i: int|
                0 <= i < n ==> converted(#[trigger] items[i]) == Ok::<HostValue, ConversionError>(
                    values[i],
                ),
            Err(e) => exists|k: int|
                0 <= k < n && converted(#[trigger] items[k]) == Err::<HostValue, ConversionError>(e)
                    && forall|j: int| 0 <= j < k ==> converted(#[trigger] items[j]) is Ok,
        },
    decreases n,
{
    if n > 0 {
        let m = (n - 1) as nat;
        lemma_converted_items(items, m);
        match converted_items(items, m) {
            Ok(values) => {
                match converted(items[m as int]) {
                    Ok(value) => {},
                    Err(e) => {
                        assert(converted(items[m as int]) == Err::<HostValue, ConversionError>(e)
                            && forall|j: int|
                            0 <= j < m ==> converted(#[trigger] items[j]) is Ok);
                    },
                }
            },
            Err(e) => {
                let k = choose|k: int|
                    0 <= k < m && converted(#[trigger] items[k]) == Err::<
                        HostValue,
                        ConversionError,
                    >(e) && forall|j: int| 0 <= j < k ==> converted(#[trigger] items[j]) is Ok;
                assert(0 <= k < n && converted(items[k]) == Err::<HostValue, ConversionError>(e)
                    && forall|j: int| 0 <= j < k ==> converted(#[trigger] items[j]) is Ok);
            },
        }
    }
}

/// What the conversion of the first `n` entries of an object is: where it
/// fails, the error of the first value that has one. Where it succeeds, a
/// mapping without a double key, which holds exactly the keys of those
/// entries, and gives for each key the host object of the last entry that
/// holds the key.
pub proof fn lemma_converted_entries(entries: Seq<(Seq<char>, TreeValue)>, n: nat)
    requires
        n <= entries.len(),
    ensures
        match converted_entries(entries, n) {
            Ok(mapping) => {
                &&& distinct_keys(mapping)
                &&& mapping.len() <= n
                &&& forall|i: int| 0 <= i < n ==> converted((#[trigger] entries[i]).1) is Ok
                &&& forall|key: Seq<char>| has_key(mapping, key) <==> key_among(entries, n, key)
                &&& forall|i: int|
                    0 <= i < n && (forall|j: int| i < j < n ==> (#[trigger] entries[j]).0
                        != entries[i].0) ==> converted((#[trigger] entries[i]).1) == Ok::<
                        HostValue,
                        ConversionError,
                    >(lookup(mapping, entries[i].0)->Some_0) && lookup(mapping, entries[i].0)
                        is Some
            },
            Err(e) => exists|k: int|
                0 <= k < n && converted((#[trigger] entries[k]).1) == Err::<
                    HostValue,
                    ConversionError,
                >(e) && forall|j: int| 0 <= j < k ==> converted((#[trigger] entries[j]).1) is Ok,
        },
    decreases n,
{
    if n == 0 {
        let empty = Seq::<(Seq<char>, HostValue)>::empty();
        assert forall|key: Seq<char>| !has_key(empty, key) by {}
        assert forall|key: Seq<char>| !key_among(entries, n, key) by {}
    } else {
        let m = (n - 1) as nat;
        lemma_converted_entries(entries, m);
        match converted_entries(entries, m) {
            Ok(before) => {
                let key = entries[m as int].0;
                match converted(entries[m as int].1) {
                    Ok(value) => {
                        let after = put(before, key, value);
                        lemma_put_keeps_distinct(before, key, value);
                        lemma_put_keeps_places(before, key, value);
                        lemma_put_then_lookup(before, key, value);
                        lemma_index_of(before, key);
                        lemma_index_of(after, key);
                        assert forall|k: Seq<char>| has_key(after, k) <==> key_among(
                            entries,
                            n,
                            k,
                        ) by {
                            lemma_index_of(before, k);
                            lemma_index_of(after, k);
                            if k != key {
                                lemma_put_keeps_others(before, key, value, k);
                            }
                            if k == key {
                                assert(entries[m as int].0 == k);
                                assert(lookup(after, k) is Some);
                                let at = index_of(after, k)->Some_0;
                                assert(after[at].0 == k);
                            } else {
                                if key_among(entries, n, k) {
                                    let i = choose|i: int|
                                        0 <= i < n && (#[trigger] entries[i]).0 == k;
                                    assert(i < m);
                                    assert(key_among(entries, m, k));
                                    assert(has_key(before, k));
                                    assert(index_of(before, k) is Some);
                                    let at = index_of(after, k)->Some_0;
                                    assert(after[at].0 == k);
                                }
                                if has_key(after, k) {
                                    assert(index_of(after, k) is Some);
                                    let at = index_of(before, k)->Some_0;
                                    assert(before[at].0 == k);
                                    assert(has_key(before, k));
                                    assert(key_among(entries, m, k));
                                    let i = choose|i: int|
                                        0 <= i < m && (#[trigger] entries[i]).0 == k;
                                    assert(0 <= i < n && entries[i].0 == k);
                                }
                            }
                        }
                        assert forall|i: int|
                            0 <= i < n && (forall|j: int|
                                i < j < n ==> (#[trigger] entries[j]).0
                                    != entries[i].0) implies converted((#[trigger] entries[i]).1)
                            == Ok::<HostValue, ConversionError>(
                            lookup(after, entries[i].0)->Some_0,
                        ) && lookup(after, entries[i].0) is Some by {
                            if i < m {
                                assert(entries[m as int].0 != entries[i].0);
                                lemma_put_keeps_others(before, key, value, entries[i].0);
                                assert forall|j: int| i < j < m implies (#[trigger] entries[j]).0
                                    != entries[i].0 by {}
                            }
                        }
                    },
                    Err(e) => {
                        assert(converted(entries[m as int].1) == Err::<HostValue, ConversionError>(
                            e,
                        ) && forall|j: int|
                            0 <= j < m ==> converted((#[trigger] entries[j]).1) is Ok);
                    },
                }
            },
            Err(e) => {
                let k = choose|k: int|
                    0 <= k < m && converted((#[trigger] entries[k]).1) == Err::<
                        HostValue,
                        ConversionError,
                    >(e) && forall|j: int|
                        0 <= j < k ==> converted((#[trigger] entries[j]).1) is Ok;
                assert(0 <= k < n && converted(entries[k].1) == Err::<HostValue, ConversionError>(
                    e,
                ) && forall|j: int| 0 <= j < k ==> converted((#[trigger] entries[j]).1) is Ok);
            },
        }
    }
}

/// Where no key stands twice among the first `n` entries of an object, their
/// conversion keeps them one for one: the mapping has an entry for each, in
/// the same order and under the same key.
pub proof fn lemma_converted_distinct_entries(entries: Seq<(Seq<char>, TreeValue)>, n: nat)
    requires
        n <= entries.len(),
        forall|i: int, j: int|
            0 <= i < j < n ==> (#[trigger] entries[i]).0 != (#[trigger] entries[j]).0,
    ensures
        converted_entries(entries, n) matches Ok(mapping) ==> mapping.len() == n && forall|i: int|
            0 <= i < n ==> (#[trigger] mapping[i]).0 == entries[i].0 && converted(entries[i].1)
                == Ok::<HostValue, ConversionError>(mapping[i].1),
    decreases n,
{
    if n > 0 {
        let m = (n - 1) as nat;
        lemma_converted_distinct_entries(entries, m);
        match converted_entries(entries, m) {
            Ok(before) => {
                let key = entries[m as int].0;
                match converted(entries[m as int].1) {
                    Ok(value) => {
                        lemma_index_of(before, key);
                        if index_of(before, key) is Some {
                            let at = index_of(before, key)->Some_0;
                            assert(before[at].0 == entries[at].0);
                            assert(entries[at].0 != entries[m as int].0);
                        }
                        let after = put(before, key, value);
                        assert(after == before.push((key, value)));
                        assert forall|i: int| 0 <= i < n implies (#[trigger] after[i]).0
                            == entries[i].0 && converted(entries[i].1) == Ok::<
                            HostValue,
                            ConversionError,
                        >(after[i].1) by {
                            if i < m {
                                assert(after[i] == before[i]);
                            }
                        }
                    },
                    Err(_) => {},
                }
            },
            Err(_) => {},
        }
    }
}

/// Every node becomes a host object of its own kind: null the null marker,
/// a boolean a boolean, a number an integer or a double, a string a text, an
/// array a sequence, an object a mapping.
pub proof fn lemma_kind_is_kept(t: TreeValue)
    ensures
        converted(t) matches Ok(h) ==> h.kind() == t.kind(),
{
}

/// An array becomes a sequence with one host object for each item, in the
/// order of the items: nothing is dropped, added or moved. Where it fails,
/// the error is that of the first item that has one.
pub proof fn lemma_array_keeps_its_items(items: Seq<TreeValue>)
    ensures
        match converted(TreeValue::Array(Some(items))) {
            Ok(h) => h is Sequence && h->Sequence_0.len() == items.len() && forall|i: int|
                0 <= i < items.len() ==> converted(#[trigger] items[i]) == Ok::<
                    HostValue,
                    ConversionError,
                >(h->Sequence_0[i]),
            Err(e) => exists|k: int|
                0 <= k < items.len() && converted(#[trigger] items[k]) == Err::<
                    HostValue,
                    ConversionError,
                >(e) && forall|j: int| 0 <= j < k ==> converted(#[trigger] items[j]) is Ok,
        },
{
    lemma_converted_items(items, items.len());
}

/// An object without a double key becomes a mapping with one entry for each
/// of its entries, in the same order and under the same key.
pub proof fn lemma_object_keeps_its_order(entries: Seq<(Seq<char>, TreeValue)>)
    requires
        forall|i: int, j: int|
            0 <= i < j < entries.len() ==> (#[trigger] entries[i]).0 != (#[trigger] entries[j]).0,
    ensures
        converted(TreeValue::Object(Some(entries))) matches Ok(h) ==> h is Mapping
            && h->Mapping_0.len() == entries.len() && forall|i: int|
            0 <= i < entries.len() ==> (#[trigger] h->Mapping_0[i]).0 == entries[i].0 && converted(
                entries[i].1,
            ) == Ok::<HostValue, ConversionError>(h->Mapping_0[i].1),
{
    lemma_converted_distinct_entries(entries, entries.len());
}

/// Where a key stands more than once in an object, the last write wins: the
/// mapping gives, for the key of an entry that no later entry repeats, the
/// host object of that entry. The mapping holds exactly the keys of the
/// object, each of them once.
pub proof fn lemma_last_write_wins(entries: Seq<(Seq<char>, TreeValue)>, i: int)
    requires
        0 <= i < entries.len(),
        forall|j: int| i < j < entries.len() ==> (#[trigger] entries[j]).0 != entries[i].0,
    ensures
        converted(TreeValue::Object(Some(entries))) matches Ok(h) ==> h is Mapping && lookup(
            h->Mapping_0,
            entries[i].0,
        ) is Some && converted(entries[i].1) == Ok::<HostValue, ConversionError>(
            lookup(h->Mapping_0, entries[i].0)->Some_0,
        ) && distinct_keys(h->Mapping_0) && forall|key: Seq<char>|
            has_key(h->Mapping_0, key) <==> key_among(entries, entries.len(), key),
{
    lemma_converted_entries(entries, entries.len());
}

/// The first error stops the walk of an object: where the conversion fails,
/// the error is that of the first entry, in source order, whose value has
/// one.
pub proof fn lemma_object_fails_at_its_first_error(entries: Seq<(Seq<char>, TreeValue)>)
    ensures
        converted(TreeValue::Object(Some(entries))) matches Err(e) ==> exists|k: int|
            0 <= k < entries.len() && converted((#[trigger] entries[k]).1) == Err::<
                HostValue,
                ConversionError,
            >(e) && forall|j: int| 0 <= j < k ==> converted((#[trigger] entries[j]).1) is Ok,
{
    lemma_converted_entries(entries, entries.len());
}

/// The conversion succeeds exactly on the trees in which every node carries
/// its payload and every number fits the type that its literal asks for.
pub proof fn lemma_succeeds_exactly_where_convertible(t: TreeValue)
    ensures
        converted(t) is Ok <==> convertible(t),
    decreases t,
{
    match t {
        TreeValue::Array(Some(items)) => {
            lemma_converted_items(items, items.len());
            assert forall|i: int| 0 <= i < items.len() implies (converted(#[trigger] items[i])
                is Ok <==> convertible(items[i])) by {
                lemma_succeeds_exactly_where_convertible(items[i]);
            }
        },
        TreeValue::Object(Some(entries)) => {
            lemma_converted_entries(entries, entries.len());
            assert forall|i: int| 0 <= i < entries.len() implies (converted(
                (#[trigger] entries[i]).1,
            ) is Ok <==> convertible(entries[i].1)) by {
                lemma_succeeds_exactly_where_convertible(entries[i].1);
            }
        },
        _ => {},
    }
}

/// A complete tree has no structural error: its conversion succeeds or fails
/// on a number.
pub proof fn lemma_complete_tree_fails_only_on_numbers(t: TreeValue)
    requires
        t.complete(),
    ensures
        converted(t) matches Err(e) ==> e == ConversionError::Numeric,
    decreases t,
{
    match t {
        TreeValue::Array(Some(items)) => {
            lemma_converted_items(items, items.len());
            assert forall|i: int| 0 <= i < items.len() implies (converted(
                #[trigger] items[i],
            ) matches Err(e) ==> e == ConversionError::Numeric) by {
                lemma_complete_tree_fails_only_on_numbers(items[i]);
            }
        },
        TreeValue::Object(Some(entries)) => {
            lemma_converted_entries(entries, entries.len());
            assert forall|i: int| 0 <= i < entries.len() implies (converted(
                (#[trigger] entries[i]).1,
            ) matches Err(e) ==> e == ConversionError::Numeric) by {
                lemma_complete_tree_fails_only_on_numbers(entries[i].1);
            }
        },
        _ => {},
    }
}

/// What a conversion hands out is well formed: no mapping in it, at any
/// depth, holds a key twice, and every double in it is finite.
pub proof fn lemma_converted_is_well_formed(t: TreeValue)
    ensures
        converted(t) matches Ok(h) ==> h.well_formed(),
    decreases t,
{
    match t {
        TreeValue::Array(Some(items)) => {
            lemma_converted_items(items, items.len());
            if converted(t) is Ok {
                let values = converted(t)->Ok_0->Sequence_0;
                assert forall|i: int| 0 <= i < values.len() implies (
                #[trigger] values[i]).well_formed() by {
                    lemma_converted_is_well_formed(items[i]);
                }
            }
        },
        TreeValue::Object(Some(entries)) => {
            lemma_entries_are_well_formed(entries, entries.len());
            lemma_converted_entries(entries, entries.len());
        },
        _ => {},
    }
}

/// The values of the mapping that the first `n` entries become are well
/// formed.
proof fn lemma_entries_are_well_formed(entries: Seq<(Seq<char>, TreeValue)>, n: nat)
    requires
        n <= entries.len(),
    ensures
        converted_entries(entries, n) matches Ok(mapping) ==> forall|i: int|
            0 <= i < mapping.len() ==> (#[trigger] mapping[i]).1.well_formed(),
    decreases entries, n,
{
    if n > 0 {
        let m = (n - 1) as nat;
        lemma_entries_are_well_formed(entries, m);
        match converted_entries(entries, m) {
            Ok(before) => {
                let key = entries[m as int].0;
                match converted(entries[m as int].1) {
                    Ok(value) => {
                        lemma_converted_is_well_formed(entries[m as int].1);
                        lemma_index_of(before, key);
                        let after = put(before, key, value);
                        assert forall|i: int| 0 <= i < after.len() implies (
                        #[trigger] after[i]).1.well_formed() by {
                            if i < before.len() && after[i] != (key, value) {
                                assert(after[i] == before[i]);
                            }
                        }
                    },
                    Err(_) => {},
                }
            },
            Err(_) => {},
        }
    }
}

/// Converting a tree is repeatable: two conversions of one tree, or of two
/// trees that are equal node for node, end alike, with host objects that are
/// equal node for node. Each result is owned by its caller; the type of
/// [`crate::convert::convert`] lets it share nothing with the tree or with
/// another result.
pub proof fn lemma_conversion_is_repeatable(
    first: TreeNode,
    second: TreeNode,
    a: Result<HostObject, ConversionError>,
    b: Result<HostObject, ConversionError>,
)
    requires
        first@ == second@,
        outcome(a) == converted(first@),
        outcome(b) == converted(second@),
    ensures
        outcome(a) == outcome(b),
        a is Ok <==> b is Ok,
        a matches Ok(x) ==> b matches Ok(y) && x@ == y@,
        a matches Err(e) ==> b == Err::<HostObject, ConversionError>(e),
{
}

} // verus!
