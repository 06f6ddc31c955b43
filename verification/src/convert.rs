//! The conversion of a value tree into a host object.
//!
//! [`converted`] says what the conversion of a tree is; [`convert`] computes
//! it. The walk is depth first and in source order, and it stops at the first
//! node that cannot be converted: what comes out is either the whole host
//! object or that node's error, never a part of an object.

use crate::host::{finite_bits, is_finite_bits, views_of, HostMapping, HostObject, HostValue};
use crate::mapping::put;
use crate::tree::{entry_node_views_of, node_views_of, NodeKind, Number, TreeNode, TreeValue};
use vstd::prelude::*;

verus! {

/// Why a tree could not be converted.
#[derive(Clone, Copy, Debug, PartialEq, Eq, Structural)]
pub enum ConversionError {
    /// The magnitude of a number cannot be held by the numeric type that its
    /// literal asks for.
    Numeric,
    /// A node is tagged with a kind and carries no payload of that kind.
    Structure(NodeKind),
}

impl ConversionError {
    /// The error as a message.
    pub open spec fn text(self) -> Seq<char> {
        match self {
            ConversionError::Numeric => "Failed to represent number"@,
            ConversionError::Structure(NodeKind::Null) => "Failed to convert into null"@,
            ConversionError::Structure(NodeKind::Bool) => "Failed to convert into bool"@,
            ConversionError::Structure(NodeKind::Number) => "Failed to convert into number"@,
            ConversionError::Structure(NodeKind::String) => "Failed to convert into string"@,
            ConversionError::Structure(NodeKind::Array) => "Failed to convert into array"@,
            ConversionError::Structure(NodeKind::Object) => "Failed to convert into object"@,
        }
    }

    /// The error as a message.
    pub fn message(&self) -> (s: String)
        ensures
            s@ == self.text(),
    {
        let text = match self {
            ConversionError::Numeric => "Failed to represent number",
            ConversionError::Structure(NodeKind::Null) => "Failed to convert into null",
            ConversionError::Structure(NodeKind::Bool) => "Failed to convert into bool",
            ConversionError::Structure(NodeKind::Number) => "Failed to convert into number",
            ConversionError::Structure(NodeKind::String) => "Failed to convert into string",
            ConversionError::Structure(NodeKind::Array) => "Failed to convert into array",
            ConversionError::Structure(NodeKind::Object) => "Failed to convert into object",
        };
        text.to_owned()
    }
}

/// The conversion of a number.
///
/// A number that was written as a fraction becomes a double, and one that was
/// not becomes an integer, whatever its value. It fails where the magnitude
/// is no finite double in the first case, and no 64-bit signed integer in the
/// second: nothing is rounded, clamped or moved to the other type.
pub open spec fn converted_number(n: Number) -> Result<HostValue, ConversionError> {
    if n.fractional {
        match n.float {
            Some(bits) => if finite_bits(bits) {
                Ok(HostValue::Float(bits))
            } else {
                Err(ConversionError::Numeric)
            },
            None => Err(ConversionError::Numeric),
        }
    } else {
        match n.integer {
            Some(i) => Ok(HostValue::Int(i as int)),
            None => Err(ConversionError::Numeric),
        }
    }
}

/// The conversion of a tree: the host object that it becomes, or the error of
/// the first node, in source order, that cannot be converted.
pub open spec fn converted(t: TreeValue) -> Result<HostValue, ConversionError>
    decreases t, 0nat,
{
    match t {
        TreeValue::Null => Ok(HostValue::Null),
        TreeValue::Bool(Some(b)) => Ok(HostValue::Bool(b)),
        TreeValue::Number(Some(n)) => converted_number(n),
        TreeValue::String(Some(s)) => Ok(HostValue::Text(s)),
        TreeValue::Array(Some(items)) => match converted_items(items, items.len()) {
            Ok(values) => Ok(HostValue::Sequence(values)),
            Err(e) => Err(e),
        },
        TreeValue::Object(Some(entries)) => match converted_entries(entries, entries.len()) {
            Ok(mapping) => Ok(HostValue::Mapping(mapping)),
            Err(e) => Err(e),
        },
        _ => Err(ConversionError::Structure(t.kind())),
    }
}

/// The conversion of the first `n` items of an array: their host objects in
/// the same order, or the error of the first of them that has one.
pub open spec fn converted_items(items: Seq<TreeValue>, n: nat) -> Result<
    Seq<HostValue>,
    ConversionError,
>
    decreases items, n,
{
    if n == 0 || n > items.len() {
        Ok(Seq::empty())
    } else {
        match converted_items(items, (n - 1) as nat) {
            Err(e) => Err(e),
            Ok(values) => match converted(items[n - 1]) {
                Err(e) => Err(e),
                Ok(value) => Ok(values.push(value)),
            },
        }
    }
}

/// The conversion of the first `n` entries of an object: the mapping that
/// comes of writing each key with the host object of its value, in order, or
/// the error of the first value that has one.
pub open spec fn converted_entries(entries: Seq<(Seq<char>, TreeValue)>, n: nat) -> Result<
    Seq<(Seq<char>, HostValue)>,
    ConversionError,
>
    decreases entries, n,
{
    if n == 0 || n > entries.len() {
        Ok(Seq::empty())
    } else {
        match converted_entries(entries, (n - 1) as nat) {
            Err(e) => Err(e),
            Ok(mapping) => match converted(entries[n - 1].1) {
                Err(e) => Err(e),
                Ok(value) => Ok(put(mapping, entries[n - 1].0, value)),
            },
        }
    }
}

/// A result of the conversion, as a mathematical value.
pub open spec fn outcome(r: Result<HostObject, ConversionError>) -> Result<
    HostValue,
    ConversionError,
> {
    match r {
        Ok(h) => Ok(h@),
        Err(e) => Err(e),
    }
}

/// Once an item has failed, the conversion of every longer run of items
/// fails with the same error.
pub proof fn lemma_items_error_stays(items: Seq<TreeValue>, n: nat, m: nat)
    requires
        n <= m <= items.len(),
        converted_items(items, n) is Err,
    ensures
        converted_items(items, m) == converted_items(items, n),
    decreases m,
{
    if n < m {
        lemma_items_error_stays(items, n, (m - 1) as nat);
    }
}

/// Once an entry has failed, the conversion of every longer run of entries
/// fails with the same error.
pub proof fn lemma_entries_error_stays(entries: Seq<(Seq<char>, TreeValue)>, n: nat, m: nat)
    requires
        n <= m <= entries.len(),
        converted_entries(entries, n) is Err,
    ensures
        converted_entries(entries, m) == converted_entries(entries, n),
    decreases m,
{
    if n < m {
        lemma_entries_error_stays(entries, n, (m - 1) as nat);
    }
}

/// Converts a number.
pub fn convert_number(n: &Number) -> (r: Result<HostObject, ConversionError>)
    ensures
        outcome(r) == converted_number(*n),
{
    if n.fractional {
        match n.float {
            Some(bits) => if is_finite_bits(bits) {
                Ok(HostObject::Float(bits))
            } else {
                Err(ConversionError::Numeric)
            },
            None => Err(ConversionError::Numeric),
        }
    } else {
        match n.integer {
            Some(i) => Ok(HostObject::Int(i)),
            None => Err(ConversionError::Numeric),
        }
    }
}

/// Converts a tree into a host object.
///
/// The result is the conversion of the tree, exactly: one host object for
/// each node, of the shape of that node, with the items of each array and the
/// keys of each object in their order; where a key stands twice in an object,
/// the later value is the one that the mapping gives. The tree is only read,
/// and what comes out shares nothing with it.
pub fn convert(node: &TreeNode) -> (r: Result<HostObject, ConversionError>)
    ensures
        outcome(r) == converted(node@),
    decreases node,
{
    match node {
        TreeNode::Null => Ok(HostObject::Null),
        TreeNode::Bool(Some(b)) => Ok(HostObject::Bool(*b)),
        TreeNode::Number(Some(n)) => convert_number(n),
        TreeNode::String(Some(s)) => Ok(HostObject::Text(s.clone())),
        TreeNode::Array(Some(items)) => {
            let ghost trees = node_views_of(items@);
            let mut out: Vec<HostObject> = Vec::new();
            let mut i: usize = 0;
            proof {
                assert(views_of(out@) =~= Seq::<HostValue>::empty());
            }
            while i < items.len()
                invariant
                    i <= items.len(),
                    *node == TreeNode::Array(Some(*items)),
                    trees == node_views_of(items@),
                    converted_items(trees, i as nat) == Ok::<Seq<HostValue>, ConversionError>(
                        views_of(out@),
                    ),
                decreases items.len() - i,
            {
                proof {
                    assert(decreases_to!(*node => node->Array_0->Some_0[i as int]));
                }
                match convert(&items[i]) {
                    Ok(value) => {
                        proof {
                            assert(views_of(out@.push(value)) =~= views_of(out@).push(value@));
                        }
                        out.push(value);
                        i += 1;
                    },
                    Err(e) => {
                        proof {
                            lemma_items_error_stays(trees, (i + 1) as nat, trees.len());
                        }
                        return Err(e);
                    },
                }
            }
            Ok(HostObject::Sequence(out))
        },
        TreeNode::Object(Some(entries)) => {
            let ghost trees = entry_node_views_of(entries@);
            let mut out = HostMapping::new();
            let mut i: usize = 0;
            while i < entries.len()
                invariant
                    i <= entries.len(),
                    *node == TreeNode::Object(Some(*entries)),
                    trees == entry_node_views_of(entries@),
                    converted_entries(trees, i as nat) == Ok::<
                        Seq<(Seq<char>, HostValue)>,
                        ConversionError,
                    >(out@),
                decreases entries.len() - i,
            {
                proof {
                    assert(decreases_to!(*node => node->Object_0->Some_0[i as int].1));
                }
                match convert(&entries[i].1) {
                    Ok(value) => {
                        out.insert(entries[i].0.clone(), value);
                        i += 1;
                    },
                    Err(e) => {
                        proof {
                            lemma_entries_error_stays(trees, (i + 1) as nat, trees.len());
                        }
                        return Err(e);
                    },
                }
            }
            Ok(HostObject::Mapping(out))
        },
        TreeNode::Bool(None) => Err(ConversionError::Structure(NodeKind::Bool)),
        TreeNode::Number(None) => Err(ConversionError::Structure(NodeKind::Number)),
        TreeNode::String(None) => Err(ConversionError::Structure(NodeKind::String)),
        TreeNode::Array(None) => Err(ConversionError::Structure(NodeKind::Array)),
        TreeNode::Object(None) => Err(ConversionError::Structure(NodeKind::Object)),
    }
}

} // verus!
