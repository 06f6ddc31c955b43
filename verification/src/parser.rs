//! The two grammars, and the walk that turns what they deliver into a
//! [`TreeNode`].
//!
//! The grammars themselves are the work of `serde_json` and `serde_json5`,
//! and what they deliver is an `ijson::IValue`. Nothing in this module is
//! proved of those crates: the items marked `external_body` state what is
//! taken on trust from them, and everything else is proved from that.
//!
//! The walks here and in [`crate::convert`] use one stack frame for each level
//! of nesting. The strict grammar reads no text that nests deeper than 128
//! levels; a caller who reads texts of unknown origin by the relaxed grammar
//! should bound their nesting first.

use crate::tree::{NodeKind, Number, TreeNode, TreeValue};
use vstd::prelude::*;

verus! {

/// `ijson::IValue`, the value that both grammars deliver.
#[verifier::external_type_specification]
#[verifier::external_body]
pub struct ExIValue(ijson::IValue);

/// The tree that an `ijson::IValue` holds.
pub uninterp spec fn tree_of(v: ijson::IValue) -> TreeValue;

/// The tree that `serde_json::from_str` reads from a text, or `None` where it
/// rejects the text.
pub uninterp spec fn strict_json_tree(text: Seq<char>) -> Option<TreeValue>;

/// The tree that `serde_json5::from_str` reads from a text where nothing
/// stops its parser short, or `None` where the relaxed grammar rejects the
/// text.
pub uninterp spec fn relaxed_json_tree(text: Seq<char>) -> Option<TreeValue>;

/// The trees that a run of values holds, in order.
pub open spec fn trees_of(values: Seq<ijson::IValue>) -> Seq<TreeValue> {
    Seq::new(values.len(), |i: int| tree_of(values[i]))
}

/// The keys of a run of entries, each with the tree that its value holds, in
/// order.
pub open spec fn entry_trees_of(entries: Seq<(&str, &ijson::IValue)>) -> Seq<
    (Seq<char>, TreeValue),
> {
    Seq::new(entries.len(), |i: int| (entries[i].0@, tree_of(*entries[i].1)))
}

/// The grammar that a text is read by.
#[derive(Clone, Copy, Debug, PartialEq, Eq, Structural)]
pub enum Mode {
    /// Standard JSON and nothing else.
    Strict,
    /// The JSON5 family: comments, trailing commas, unquoted keys, single
    /// quotes.
    Relaxed,
}

/// A text that its grammar rejected.
#[derive(Clone, Debug, PartialEq, Eq)]
pub struct ParseError {
    /// The grammar that rejected the text.
    pub mode: Mode,
    /// What the grammar reported, for a reader. Nothing is promised of its
    /// wording.
    pub detail: String,
}

impl ParseError {
    /// The line that opens the message of an error of the given grammar.
    pub open spec fn heading(mode: Mode) -> Seq<char> {
        match mode {
            Mode::Strict => "Failed to load JSON:\n"@,
            Mode::Relaxed => "Failed to load JSONC:\n"@,
        }
    }

    /// The error as a message: the heading of its grammar, then the detail.
    pub fn message(&self) -> (s: String)
        ensures
            s@ == Self::heading(self.mode) + self.detail@,
    {
        let heading = match self.mode {
            Mode::Strict => "Failed to load JSON:\n",
            Mode::Relaxed => "Failed to load JSONC:\n",
        };
        heading.to_owned().concat(self.detail.as_str())
    }
}

/// `serde_json::from_str` at `ijson::IValue`: it accepts exactly the texts
/// that have a tree under the strict grammar, and the value that it returns
/// holds that tree. The error is handed on as its `Debug` rendering.
#[verifier::external_body]
fn strict_value(text: &str) -> (r: Result<ijson::IValue, String>)
    ensures
        r is Ok <==> strict_json_tree(text@) is Some,
        r matches Ok(v) ==> strict_json_tree(text@) == Some(tree_of(v)),
{
    serde_json::from_str::<ijson::IValue>(text).map_err(|e| format!("{:#?}", e))
}

/// `serde_json5::from_str` at `ijson::IValue`. Whether it accepts a text does
/// not rest on the text alone: its parser gives up where the native stack of
/// the calling thread runs short, and where a call limit that is set for the
/// whole process is reached, and answers with an error then. So nothing is
/// claimed of when it succeeds. Where it does succeed no limit was met, and
/// the value that it returns holds the tree that the relaxed grammar reads
/// from the text. The error is handed on as its `Debug` rendering.
#[verifier::external_body]
fn relaxed_value(text: &str) -> (r: Result<ijson::IValue, String>)
    ensures
        r matches Ok(v) ==> relaxed_json_tree(text@) == Some(tree_of(v)),
{
    serde_json5::from_str::<ijson::IValue>(text).map_err(|e| format!("{:#?}", e))
}

/// `ijson::IValue::type_`: the one of the six JSON types that the value has.
#[verifier::external_body]
fn kind_of(v: &ijson::IValue) -> (k: NodeKind)
    ensures
        k == tree_of(*v).kind(),
{
    match v.type_() {
        ijson::ValueType::Null => NodeKind::Null,
        ijson::ValueType::Bool => NodeKind::Bool,
        ijson::ValueType::Number => NodeKind::Number,
        ijson::ValueType::String => NodeKind::String,
        ijson::ValueType::Array => NodeKind::Array,
        ijson::ValueType::Object => NodeKind::Object,
    }
}

/// `ijson::IValue::to_bool`: the boolean where the value is one, and `None`
/// where it is of another type.
#[verifier::external_body]
fn bool_of(v: &ijson::IValue) -> (r: Option<bool>)
    ensures
        r is Some <==> tree_of(*v) is Bool,
        tree_of(*v) matches TreeValue::Bool(p) ==> p == r,
{
    v.to_bool()
}

/// `ijson::IValue::as_number` and `ijson::INumber::has_decimal_point`: whether
/// the number was written with a decimal point or an exponent, and `None`
/// where the value is no number.
#[verifier::external_body]
fn fraction_of(v: &ijson::IValue) -> (r: Option<bool>)
    ensures
        r is Some <==> tree_of(*v) is Number,
        tree_of(*v) matches TreeValue::Number(p) ==> r == (match p {
            Some(n) => Some(n.fractional),
            None => None,
        }),
{
    v.as_number().map(|n| n.has_decimal_point())
}

/// `ijson::IValue::to_i64`: the number as an `i64` where it is exactly one.
#[verifier::external_body]
fn integer_of(v: &ijson::IValue) -> (r: Option<i64>)
    ensures
        tree_of(*v) matches TreeValue::Number(Some(n)) ==> r == n.integer,
{
    v.to_i64()
}

/// `ijson::IValue::to_f64`: the number as a double where it is exactly one,
/// handed on as the bit pattern of that double.
#[verifier::external_body]
fn float_of(v: &ijson::IValue) -> (r: Option<u64>)
    ensures
        tree_of(*v) matches TreeValue::Number(Some(n)) ==> r == n.float,
{
    v.to_f64().map(|x| x.to_bits())
}

/// `ijson::IValue::as_string` and `ijson::IString::as_str`: the text where the
/// value is a string, and `None` where it is of another type.
#[verifier::external_body]
fn text_of(v: &ijson::IValue) -> (r: Option<&str>)
    ensures
        r is Some <==> tree_of(*v) is String,
        r matches Some(s) ==> tree_of(*v) == TreeValue::String(Some(s@)),
{
    v.as_string().map(|s| s.as_str())
}

/// `ijson::IValue::as_array` and `ijson::IArray::as_slice`: the items in
/// their order where the value is an array, and `None` where it is of another
/// type.
#[verifier::external_body]
fn items_of(v: &ijson::IValue) -> (r: Option<&[ijson::IValue]>)
    ensures
        r is Some <==> tree_of(*v) is Array,
        r matches Some(items) ==> tree_of(*v) == TreeValue::Array(Some(trees_of(items@))),
{
    v.as_array().map(|a| a.as_slice())
}

/// `ijson::IValue::as_object` and `ijson::IObject::iter`: the entries where
/// the value is an object, and `None` where it is of another type. The order
/// of the entries of the tree is the order in which the object hands them
/// out, whatever that is: an `ijson` object keeps its entries in the order of
/// their insertion only as long as it need not grow.
#[verifier::external_body]
fn entries_of(v: &ijson::IValue) -> (r: Option<Vec<(&str, &ijson::IValue)>>)
    ensures
        r is Some <==> tree_of(*v) is Object,
        r matches Some(entries) ==> tree_of(*v) == TreeValue::Object(
            Some(entry_trees_of(entries@)),
        ),
{
    v.as_object().map(|o| o.iter().map(|(k, x)| (k.as_str(), x)).collect())
}

/// Reads what a number value carries.
fn number_of(v: &ijson::IValue) -> (r: Option<Number>)
    ensures
        r is Some <==> tree_of(*v) is Number,
        tree_of(*v) is Number ==> tree_of(*v) == TreeValue::Number(r),
{
    match fraction_of(v) {
        Some(fractional) => Some(
            Number { fractional, integer: integer_of(v), float: float_of(v) },
        ),
        None => None,
    }
}

/// Reads the tree that a value holds, node by node.
///
/// The tree that comes out is the tree of the value, and it is complete: the
/// value delivers for each node the payload of the kind that it reports.
pub fn read_tree(v: &ijson::IValue) -> (t: TreeNode)
    ensures
        t@ == tree_of(*v),
        t@.complete(),
    decreases tree_of(*v),
{
    match kind_of(v) {
        NodeKind::Null => TreeNode::Null,
        NodeKind::Bool => TreeNode::Bool(bool_of(v)),
        NodeKind::Number => TreeNode::Number(number_of(v)),
        NodeKind::String => match text_of(v) {
            Some(s) => TreeNode::String(Some(s.to_owned())),
            None => TreeNode::String(None),
        },
        NodeKind::Array => match items_of(v) {
            Some(items) => {
                let mut out: Vec<TreeNode> = Vec::new();
                let mut i: usize = 0;
                while i < items.len()
                    invariant
                        i <= items.len(),
                        out.len() == i,
                        tree_of(*v) == TreeValue::Array(Some(trees_of(items@))),
                        forall|j: int|
                            0 <= j < i ==> (#[trigger] out[j])@ == tree_of(items[j])
                                && out[j]@.complete(),
                    decreases items.len() - i,
                {
                    proof {
                        let children = tree_of(*v)->Array_0->Some_0;
                        assert(children[i as int] == tree_of(items[i as int]));
                        assert(decreases_to!(tree_of(*v) => children[i as int]));
                    }
                    let child = read_tree(&items[i]);
                    out.push(child);
                    i += 1;
                }
                let t = TreeNode::Array(Some(out));
                proof {
                    assert(t@->Array_0->Some_0 =~= trees_of(items@));
                }
                t
            },
            None => TreeNode::Array(None),
        },
        NodeKind::Object => match entries_of(v) {
            Some(entries) => {
                let mut out: Vec<(String, TreeNode)> = Vec::new();
                let mut i: usize = 0;
                while i < entries.len()
                    invariant
                        i <= entries.len(),
                        out.len() == i,
                        tree_of(*v) == TreeValue::Object(Some(entry_trees_of(entries@))),
                        forall|j: int|
                            0 <= j < i ==> (#[trigger] out[j]).0@ == entries[j].0@ && out[j].1@
                                == tree_of(*entries[j].1) && out[j].1@.complete(),
                    decreases entries.len() - i,
                {
                    proof {
                        let children = tree_of(*v)->Object_0->Some_0;
                        assert(children[i as int].1 == tree_of(*entries[i as int].1));
                        assert(decreases_to!(tree_of(*v) => children[i as int].1));
                    }
                    let key = entries[i].0.to_owned();
                    let child = read_tree(entries[i].1);
                    out.push((key, child));
                    i += 1;
                }
                let t = TreeNode::Object(Some(out));
                proof {
                    assert(t@->Object_0->Some_0 =~= entry_trees_of(entries@));
                }
                t
            },
            None => TreeNode::Object(None),
        },
    }
}

/// The tree that a text holds under a grammar, or `None` where the grammar
/// rejects the text.
pub open spec fn grammar_tree(text: Seq<char>, mode: Mode) -> Option<TreeValue> {
    match mode {
        Mode::Strict => strict_json_tree(text),
        Mode::Relaxed => relaxed_json_tree(text),
    }
}

/// Turns the answer of a grammar into the answer of this library: the value
/// that the grammar delivered is read into its tree, and what it reported is
/// handed on as a parse error of the given mode.
pub fn read_answer(answer: Result<ijson::IValue, String>, mode: Mode) -> (r: Result<
    TreeNode,
    ParseError,
>)
    ensures
        match answer {
            Ok(v) => r matches Ok(t) && t@ == tree_of(v) && t@.complete(),
            Err(detail) => r == Err::<TreeNode, ParseError>(ParseError { mode, detail }),
        },
{
    match answer {
        Ok(v) => Ok(read_tree(&v)),
        Err(detail) => Err(ParseError { mode, detail }),
    }
}

/// Reads a text by the strict grammar.
///
/// Succeeds exactly on the texts that the grammar accepts, with the tree
/// that the grammar reads from the text; that tree is complete.
///
/// The tree is what `serde_json` and `ijson` make of the text. The items of
/// an array stand in the order of the text. So do the entries of an object of
/// up to four keys; in a larger one `ijson` has reversed the entries that it
/// held each time the object grew. A key that stands twice in the text
/// stands once in the tree, at its first place and with its last value.
pub fn parse_strict(text: &str) -> (r: Result<TreeNode, ParseError>)
    ensures
        r is Ok <==> strict_json_tree(text@) is Some,
        r matches Ok(t) ==> strict_json_tree(text@) == Some(t@) && t@.complete(),
        r matches Err(e) ==> e.mode == Mode::Strict,
{
    read_answer(strict_value(text), Mode::Strict)
}

/// Reads a text by the relaxed grammar.
///
/// A tree that comes out is the tree that the grammar reads from the text,
/// and it is complete; so a text that the grammar rejects gives an error. An
/// error that comes out is one of this grammar. A text that the grammar
/// accepts may give an error all the same: the parser behind the grammar
/// gives up where the stack runs short, so success is not owed on any text.
///
/// The tree is what `serde_json5` and `ijson` make of the text: items and
/// entries stand in the order of the text, and a key that stands twice in the
/// text stands once in the tree, at its first place and with its last value.
pub fn parse_relaxed(text: &str) -> (r: Result<TreeNode, ParseError>)
    ensures
        r matches Ok(t) ==> relaxed_json_tree(text@) == Some(t@) && t@.complete(),
        relaxed_json_tree(text@) is None ==> r is Err,
        r matches Err(e) ==> e.mode == Mode::Relaxed,
{
    read_answer(relaxed_value(text), Mode::Relaxed)
}

/// Reads a text by the grammar of the given mode: [`parse_strict`] or
/// [`parse_relaxed`].
pub fn parse(text: &str, mode: Mode) -> (r: Result<TreeNode, ParseError>)
    ensures
        r matches Ok(t) ==> grammar_tree(text@, mode) == Some(t@) && t@.complete(),
        grammar_tree(text@, mode) is None ==> r is Err,
        mode == Mode::Strict && grammar_tree(text@, mode) is Some ==> r is Ok,
        r matches Err(e) ==> e.mode == mode,
{
    match mode {
        Mode::Strict => parse_strict(text),
        Mode::Relaxed => parse_relaxed(text),
    }
}

} // verus!
