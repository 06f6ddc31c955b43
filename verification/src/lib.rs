//! Conversion of JSON text into a dynamically typed host object.
//!
//! A text is read by one of two grammars, strict JSON or the relaxed JSON5
//! family, into a value tree ([`tree::TreeNode`]), and the tree is rewritten
//! node by node into a host object ([`host::HostObject`]).
//! [`api::parse_and_convert`] does both; [`parser::parse`] and
//! [`convert::convert`] are the two halves.

pub mod api;
pub mod convert;
pub mod host;
pub mod laws;
pub mod mapping;
pub mod parser;
pub mod tree;

pub use api::{convert_parsed, parse_and_convert, Error};
pub use convert::{convert, convert_number, ConversionError};
pub use host::{HostMapping, HostObject};
pub use parser::{
    parse, parse_relaxed, parse_strict, read_answer, read_tree, Mode, ParseError,
};
pub use tree::{NodeKind, Number, TreeNode};
