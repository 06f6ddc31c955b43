//! The host object: the dynamically typed value that a conversion hands to
//! its caller.

use crate::mapping::{distinct_keys, index_of, lemma_index_of, lemma_put_keeps_distinct, lookup, put};
use crate::tree::NodeKind;
use vstd::prelude::*;

verus! {

/// The bits of a double that are its exponent. A double is finite exactly
/// where not all of them are set.
pub const EXPONENT_BITS: u64 = 0x7ff0_0000_0000_0000;

/// The bit pattern is that of a finite double: neither an infinity nor a
/// NaN.
pub open spec fn finite_bits(bits: u64) -> bool {
    bits & EXPONENT_BITS != EXPONENT_BITS
}

/// Tells whether a bit pattern is that of a finite double.
pub fn is_finite_bits(bits: u64) -> (r: bool)
    ensures
        r == finite_bits(bits),
{
    bits & EXPONENT_BITS != EXPONENT_BITS
}

/// A host object as a mathematical value.
pub enum HostValue {
    Null,
    Bool(bool),
    Int(int),
    /// A double, by its bit pattern.
    Float(u64),
    Text(Seq<char>),
    Sequence(Seq<HostValue>),
    /// The entries of a mapping, in the order of the mapping.
    Mapping(Seq<(Seq<char>, HostValue)>),
}

impl HostValue {
    /// The kind of tree node that a host object of this shape stands for.
    pub open spec fn kind(self) -> NodeKind {
        match self {
            HostValue::Null => NodeKind::Null,
            HostValue::Bool(_) => NodeKind::Bool,
            HostValue::Int(_) => NodeKind::Number,
            HostValue::Float(_) => NodeKind::Number,
            HostValue::Text(_) => NodeKind::String,
            HostValue::Sequence(_) => NodeKind::Array,
            HostValue::Mapping(_) => NodeKind::Object,
        }
    }

    /// No mapping in the value, at any depth, holds a key twice, and every
    /// double in it is finite.
    pub open spec fn well_formed(self) -> bool
        decreases self,
    {
        match self {
            HostValue::Float(bits) => finite_bits(bits),
            HostValue::Sequence(items) => forall|i: int|
                0 <= i < items.len() ==> (#[trigger] items[i]).well_formed(),
            HostValue::Mapping(entries) => distinct_keys(entries) && forall|i: int|
                0 <= i < entries.len() ==> (#[trigger] entries[i]).1.well_formed(),
            _ => true,
        }
    }
}

/// A dynamically typed value: one of seven shapes.
#[derive(Debug, PartialEq, Eq)]
pub enum HostObject {
    /// The null marker.
    Null,
    Bool(bool),
    Int(i64),
    /// A double, held as its bit pattern.
    Float(u64),
    Text(String),
    Sequence(Vec<HostObject>),
    Mapping(HostMapping),
}

/// An ordered mapping from text keys to host objects.
///
/// It holds no key twice, and it keeps its entries in the order in which
/// their keys were first written.
#[derive(Debug, PartialEq, Eq)]
pub struct HostMapping {
    entries: Vec<(String, HostObject)>,
}

/// The values of a run of host objects, in order.
pub open spec fn views_of(items: Seq<HostObject>) -> Seq<HostValue>
    decreases items,
{
    Seq::new(
        items.len(),
        |i: int|
            if 0 <= i < items.len() {
                items[i]@
            } else {
                HostValue::Null
            },
    )
}

/// The keys of a run of entries, each with the value of its host object, in
/// order.
pub open spec fn entry_views_of(entries: Seq<(String, HostObject)>) -> Seq<(Seq<char>, HostValue)>
    decreases entries,
{
    Seq::new(
        entries.len(),
        |i: int|
            if 0 <= i < entries.len() {
                (entries[i].0@, entries[i].1@)
            } else {
                (Seq::empty(), HostValue::Null)
            },
    )
}

impl View for HostObject {
    type V = HostValue;

    open spec fn view(&self) -> HostValue
        decreases self,
    {
        match self {
            HostObject::Null => HostValue::Null,
            HostObject::Bool(b) => HostValue::Bool(*b),
            HostObject::Int(i) => HostValue::Int(*i as int),
            HostObject::Float(bits) => HostValue::Float(*bits),
            HostObject::Text(s) => HostValue::Text(s@),
            HostObject::Sequence(items) => HostValue::Sequence(views_of(items@)),
            HostObject::Mapping(m) => HostValue::Mapping(m@),
        }
    }
}

impl View for HostMapping {
    type V = Seq<(Seq<char>, HostValue)>;

    closed spec fn view(&self) -> Seq<(Seq<char>, HostValue)>
        decreases self,
    {
        entry_views_of(self.entries@)
    }
}

impl HostMapping {
    #[verifier::type_invariant]
    closed spec fn keys_are_distinct(&self) -> bool {
        distinct_keys(self@)
    }

    /// The mapping without entries.
    pub fn new() -> (m: HostMapping)
        ensures
            m@ == Seq::<(Seq<char>, HostValue)>::empty(),
    {
        let m = HostMapping { entries: Vec::new() };
        assert(m@ =~= Seq::<(Seq<char>, HostValue)>::empty());
        m
    }

    /// The number of entries, which is the number of keys: no key is held
    /// twice.
    pub fn len(&self) -> (n: usize)
        ensures
            n == self@.len(),
            distinct_keys(self@),
    {
        proof {
            use_type_invariant(self);
        }
        self.entries.len()
    }

    /// Tells whether the mapping has no entry.
    pub fn is_empty(&self) -> (r: bool)
        ensures
            r == (self@.len() == 0),
    {
        self.entries.len() == 0
    }

    /// The place of the entry that holds the key.
    fn find(&self, key: &str) -> (r: Option<usize>)
        ensures
            match r {
                Some(i) => i < self.entries.len() && index_of(self@, key@) == Some(i as int),
                None => index_of(self@, key@) is None,
            },
            self@.len() == self.entries.len(),
    {
        let wanted = key.to_owned();
        let mut i: usize = 0;
        while i < self.entries.len()
            invariant
                i <= self.entries.len(),
                wanted@ == key@,
                forall|j: int| 0 <= j < i ==> (#[trigger] self@[j]).0 != key@,
            decreases self.entries.len() - i,
        {
            if self.entries[i].0 == wanted {
                proof {
                    lemma_index_of(self@, key@);
                    assert(self@[i as int].0 == key@);
                }
                return Some(i);
            }
            i += 1;
        }
        proof {
            lemma_index_of(self@, key@);
            if index_of(self@, key@) is Some {
                let k = index_of(self@, key@)->Some_0;
                assert(self@[k].0 == key@);
            }
        }
        None
    }

    /// Tells whether an entry holds the key.
    pub fn contains_key(&self, key: &str) -> (r: bool)
        ensures
            r == lookup(self@, key@) is Some,
    {
        self.find(key).is_some()
    }

    /// The value under a key, or `None` where no entry holds the key.
    pub fn get(&self, key: &str) -> (r: Option<&HostObject>)
        ensures
            match r {
                Some(value) => lookup(self@, key@) == Some(value@),
                None => lookup(self@, key@) is None,
            },
    {
        match self.find(key) {
            Some(i) => Some(&self.entries[i].1),
            None => None,
        }
    }

    /// The entry at a place in the order of the mapping, or `None` where the
    /// mapping has no such place.
    pub fn entry(&self, i: usize) -> (r: Option<(&str, &HostObject)>)
        ensures
            r is Some <==> i < self@.len(),
            r matches Some(e) ==> (e.0@, e.1@) == self@[i as int],
    {
        if i < self.entries.len() {
            Some((self.entries[i].0.as_str(), &self.entries[i].1))
        } else {
            None
        }
    }

    /// Writes a value under a key. Where the key is there already its value
    /// is replaced and the entry keeps its place; where it is not, the entry
    /// is added at the end.
    pub fn insert(&mut self, key: String, value: HostObject)
        ensures
            final(self)@ == put(old(self)@, key@, value@),
    {
        proof {
            use_type_invariant(&*self);
            lemma_put_keeps_distinct(self@, key@, value@);
        }
        let ghost before = self@;
        let found = self.find(key.as_str());
        let mut entries: Vec<(String, HostObject)> = Vec::new();
        core::mem::swap(&mut entries, &mut self.entries);
        match found {
            Some(i) => {
                entries.set(i, (key, value));
            },
            None => {
                entries.push((key, value));
            },
        }
        assert(entry_views_of(entries@) =~= put(before, key@, value@));
        self.entries = entries;
    }
}

impl HostObject {
    /// Tells whether the object is the null marker.
    pub fn is_null(&self) -> (r: bool)
        ensures
            r == (self@ is Null),
    {
        match self {
            HostObject::Null => true,
            _ => false,
        }
    }

    /// The boolean, where the object is one.
    pub fn as_bool(&self) -> (r: Option<bool>)
        ensures
            r == (match self@ {
                HostValue::Bool(b) => Some(b),
                _ => None,
            }),
    {
        match self {
            HostObject::Bool(b) => Some(*b),
            _ => None,
        }
    }

    /// The integer, where the object is one.
    pub fn as_int(&self) -> (r: Option<i64>)
        ensures
            match self@ {
                HostValue::Int(i) => r is Some && r->Some_0 == i,
                _ => r is None,
            },
    {
        match self {
            HostObject::Int(i) => Some(*i),
            _ => None,
        }
    }

    /// The bit pattern of the double, where the object is one.
    pub fn as_float_bits(&self) -> (r: Option<u64>)
        ensures
            r == (match self@ {
                HostValue::Float(bits) => Some(bits),
                _ => None,
            }),
    {
        match self {
            HostObject::Float(bits) => Some(*bits),
            _ => None,
        }
    }

    /// The text, where the object is one.
    pub fn as_text(&self) -> (r: Option<&str>)
        ensures
            match self@ {
                HostValue::Text(s) => r is Some && r->Some_0@ == s,
                _ => r is None,
            },
    {
        match self {
            HostObject::Text(s) => Some(s.as_str()),
            _ => None,
        }
    }

    /// The items, where the object is a sequence.
    pub fn as_sequence(&self) -> (r: Option<&Vec<HostObject>>)
        ensures
            match self@ {
                HostValue::Sequence(items) => r is Some && items == views_of(r->Some_0@),
                _ => r is None,
            },
    {
        match self {
            HostObject::Sequence(items) => Some(items),
            _ => None,
        }
    }

    /// The mapping, where the object is one.
    pub fn as_mapping(&self) -> (r: Option<&HostMapping>)
        ensures
            match self@ {
                HostValue::Mapping(entries) => r is Some && r->Some_0@ == entries,
                _ => r is None,
            },
    {
        match self {
            HostObject::Mapping(m) => Some(m),
            _ => None,
        }
    }
}

} // verus!
