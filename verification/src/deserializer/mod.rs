//! From text to a value tree.

pub mod cursor;
pub mod lexer;
pub mod parser;
pub mod tokens;

use crate::deserializer::lexer::{lex, tokenize};
use crate::deserializer::parser::{parse_tokens, parsed_document, value_outcome_view};
use crate::error::{AonError, AonErrorView};
use crate::representation::value::{Value, ValueView};
use vstd::prelude::*;

verus! {

/// The value that the text denotes, or the first error in it: those of the
/// lexer come before those of the parser.
pub open spec fn deserialized(aon: Seq<char>) -> Result<ValueView, AonErrorView> {
    match lex(aon) {
        Ok(tokens) => parsed_document(tokens),
        Err(e) => Err(e),
    }
}

/// Reads the text of a document into its value.
pub fn deserialize(aon: &str) -> (outcome: Result<Value, AonError>)
    ensures
        value_outcome_view(outcome) == deserialized(aon@),
{
    match tokenize(aon) {
        Ok(tokens) => parse_tokens(&tokens),
        Err(e) => Err(e),
    }
}

} // verus!
