//! From text to host object in one call.

use crate::convert::{convert, converted, ConversionError};
use crate::host::HostObject;
use crate::laws::{lemma_complete_tree_fails_only_on_numbers, lemma_converted_is_well_formed};
use crate::parser::{grammar_tree, parse, Mode, ParseError};
use crate::tree::{TreeNode, TreeValue};
use vstd::prelude::*;

verus! {

/// Why a text gave no host object.
#[derive(Debug, PartialEq, Eq)]
pub enum Error {
    /// The grammar rejected the text.
    Parse(ParseError),
    /// The text was read, and its tree could not be converted.
    Conversion(ConversionError),
}

impl Error {
    /// The error as a message.
    pub fn message(&self) -> (s: String)
        ensures
            s@ == (match *self {
                Error::Parse(e) => ParseError::heading(e.mode) + e.detail@,
                Error::Conversion(e) => e.text(),
            }),
    {
        match self {
            Error::Parse(e) => e.message(),
            Error::Conversion(e) => e.message(),
        }
    }
}

/// What becomes of a text once its grammar has answered: the conversion of
/// its tree, or the rejection handed on.
pub open spec fn settled(
    parsed: Result<TreeValue, ParseError>,
    r: Result<HostObject, Error>,
) -> bool {
    match parsed {
        Err(e) => r == Err::<HostObject, Error>(Error::Parse(e)),
        Ok(tree) => match converted(tree) {
            Ok(h) => r matches Ok(x) && x@ == h,
            Err(e) => r == Err::<HostObject, Error>(Error::Conversion(e)),
        },
    }
}

/// Converts what a grammar answered: a tree is converted, and a rejection is
/// handed on as it is.
pub fn convert_parsed(parsed: Result<TreeNode, ParseError>) -> (r: Result<HostObject, Error>)
    ensures
        settled(
            match parsed {
                Ok(tree) => Ok(tree@),
                Err(e) => Err(e),
            },
            r,
        ),
{
    match parsed {
        Ok(tree) => match convert(&tree) {
            Ok(h) => Ok(h),
            Err(e) => Err(Error::Conversion(e)),
        },
        Err(e) => Err(Error::Parse(e)),
    }
}

/// Reads a text by the grammar of the given mode and converts its tree.
///
/// A text that the grammar rejects gives a parse error of that mode. Where
/// the text is read, the result is the conversion of the tree that the
/// grammar reads from it: the host object, or the error of the first number,
/// in source order, that does not fit its type. In strict mode every text
/// that the grammar accepts is read; in relaxed mode a text that the grammar
/// accepts may give a parse error all the same, where its parser runs short
/// of stack. A text never gives a structural error, and a host object that
/// comes out is well formed.
pub fn parse_and_convert(text: &str, mode: Mode) -> (r: Result<HostObject, Error>)
    ensures
        match grammar_tree(text@, mode) {
            None => r matches Err(Error::Parse(_)),
            Some(tree) => settled(Ok(tree), r) || (mode == Mode::Relaxed && r matches Err(
                Error::Parse(_),
            )),
        },
        r matches Err(Error::Parse(e)) ==> e.mode == mode,
        r matches Err(Error::Conversion(e)) ==> e == ConversionError::Numeric,
        r matches Ok(x) ==> x@.well_formed(),
{
    let parsed = parse(text, mode);
    proof {
        if parsed is Ok {
            lemma_complete_tree_fails_only_on_numbers(parsed->Ok_0@);
            lemma_converted_is_well_formed(parsed->Ok_0@);
        }
    }
    let r = convert_parsed(parsed);
    proof {
        if parsed is Ok {
            assert(settled(Ok(parsed->Ok_0@), r));
        }
    }
    r
}

} // verus!
