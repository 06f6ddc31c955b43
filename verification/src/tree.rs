//! The value tree that a parser hands to the converter: [`TreeNode`], and
//! [`TreeValue`], the mathematical value that the contracts speak of.

use vstd::prelude::*;

verus! {

/// The six kinds of node that a value tree is made of.
#[derive(Clone, Copy, Debug, PartialEq, Eq, Structural)]
pub enum NodeKind {
    Null,
    Bool,
    Number,
    String,
    Array,
    Object,
}

/// What a number node carries.
///
/// `fractional` records how the literal was written: with a decimal point or
/// an exponent, or without. It says nothing of the value: `5.0` is written as
/// a fraction and `5` is not. `integer` is the magnitude as a 64-bit signed
/// integer, where it is exactly one; `float` is the bit pattern of the
/// magnitude as an IEEE 754 double, where it is exactly one.
#[derive(Clone, Copy, Debug, PartialEq, Eq, Structural)]
pub struct Number {
    pub fractional: bool,
    pub integer: Option<i64>,
    pub float: Option<u64>,
}

/// A node of a value tree, as a mathematical value.
///
/// A payload that is `None` stands for a node that was tagged with a kind
/// while nothing of that kind was delivered for it.
pub enum TreeValue {
    Null,
    Bool(Option<bool>),
    Number(Option<Number>),
    String(Option<Seq<char>>),
    Array(Option<Seq<TreeValue>>),
    Object(Option<Seq<(Seq<char>, TreeValue)>>),
}

impl TreeValue {
    /// The kind that the node is tagged with.
    pub open spec fn kind(self) -> NodeKind {
        match self {
            TreeValue::Null => NodeKind::Null,
            TreeValue::Bool(_) => NodeKind::Bool,
            TreeValue::Number(_) => NodeKind::Number,
            TreeValue::String(_) => NodeKind::String,
            TreeValue::Array(_) => NodeKind::Array,
            TreeValue::Object(_) => NodeKind::Object,
        }
    }

    /// Every node of the tree carries the payload of its kind.
    pub open spec fn complete(self) -> bool
        decreases self,
    {
        match self {
            TreeValue::Null => true,
            TreeValue::Bool(p) => p is Some,
            TreeValue::Number(p) => p is Some,
            TreeValue::String(p) => p is Some,
            TreeValue::Array(p) => p matches Some(items) && forall|i: int|
                0 <= i < items.len() ==> (#[trigger] items[i]).complete(),
            TreeValue::Object(p) => p matches Some(entries) && forall|i: int|
                0 <= i < entries.len() ==> (#[trigger] entries[i]).1.complete(),
        }
    }
}

/// A node of a value tree.
///
/// A node owns its children. An array keeps its items and an object its
/// entries in their order, and an object may hold a key more than once. Each
/// variant carries what was delivered for the node; a payload that is `None`
/// marks a node that was tagged with a kind while nothing of that kind was
/// delivered for it, which no sound parser produces.
#[derive(Debug, PartialEq, Eq)]
pub enum TreeNode {
    Null,
    Bool(Option<bool>),
    Number(Option<Number>),
    String(Option<String>),
    Array(Option<Vec<TreeNode>>),
    Object(Option<Vec<(String, TreeNode)>>),
}

/// The values of a run of nodes, in order.
pub open spec fn node_views_of(items: Seq<TreeNode>) -> Seq<TreeValue>
    decreases items,
{
    Seq::new(
        items.len(),
        |i: int|
            if 0 <= i < items.len() {
                items[i]@
            } else {
                TreeValue::Null
            },
    )
}

/// The keys of a run of entries, each with the value of its node, in order.
pub open spec fn entry_node_views_of(entries: Seq<(String, TreeNode)>) -> Seq<
    (Seq<char>, TreeValue),
>
    decreases entries,
{
    Seq::new(
        entries.len(),
        |i: int|
            if 0 <= i < entries.len() {
                (entries[i].0@, entries[i].1@)
            } else {
                (Seq::empty(), TreeValue::Null)
            },
    )
}

impl View for TreeNode {
    type V = TreeValue;

    open spec fn view(&self) -> TreeValue
        decreases self,
    {
        match self {
            TreeNode::Null => TreeValue::Null,
            TreeNode::Bool(p) => TreeValue::Bool(*p),
            TreeNode::Number(p) => TreeValue::Number(*p),
            TreeNode::String(p) => TreeValue::String(
                match p {
                    Some(s) => Some(s@),
                    None => None,
                },
            ),
            TreeNode::Array(p) => TreeValue::Array(
                match p {
                    Some(items) => Some(node_views_of(items@)),
                    None => None,
                },
            ),
            TreeNode::Object(p) => TreeValue::Object(
                match p {
                    Some(entries) => Some(entry_node_views_of(entries@)),
                    None => None,
                },
            ),
        }
    }
}

impl TreeNode {
    /// The kind that the node is tagged with.
    pub fn kind(&self) -> (k: NodeKind)
        ensures
            k == self@.kind(),
    {
        match self {
            TreeNode::Null => NodeKind::Null,
            TreeNode::Bool(_) => NodeKind::Bool,
            TreeNode::Number(_) => NodeKind::Number,
            TreeNode::String(_) => NodeKind::String,
            TreeNode::Array(_) => NodeKind::Array,
            TreeNode::Object(_) => NodeKind::Object,
        }
    }
}

} // verus!
