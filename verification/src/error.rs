//! What can go wrong while a document is read.

use crate::deserializer::tokens::{Token, TokenView};
use vstd::prelude::*;
use vstd::string::StringExecFns;

verus! {

/// The reason why a text is no document. The first error found ends the
/// reading.
#[derive(Debug, PartialEq)]
pub enum AonError {
    /// A character that cannot stand where it was found.
    UnexpectedCharacter(char),
    /// A run of digits and points that denotes no number.
    InvalidNumber(String),
    /// The input ended where more was needed.
    UnexpectedEndOfFile,
    /// A token that cannot stand where it was found.
    UnexpectedToken(Token),
    /// Structs, unions and arrays are nested deeper than the parser follows.
    NestingTooDeep,
}

/// The mathematical model of an [`AonError`].
pub enum AonErrorView {
    UnexpectedCharacter(char),
    InvalidNumber(Seq<char>),
    UnexpectedEndOfFile,
    UnexpectedToken(TokenView),
    NestingTooDeep,
}

impl View for AonError {
    type V = AonErrorView;

    open spec fn view(&self) -> AonErrorView {
        match self {
            AonError::UnexpectedCharacter(c) => AonErrorView::UnexpectedCharacter(*c),
            AonError::InvalidNumber(text) => AonErrorView::InvalidNumber(text@),
            AonError::UnexpectedEndOfFile => AonErrorView::UnexpectedEndOfFile,
            AonError::UnexpectedToken(token) => AonErrorView::UnexpectedToken(token@),
            AonError::NestingTooDeep => AonErrorView::NestingTooDeep,
        }
    }
}

impl AonErrorView {
    /// The message that tells a reader of the error.
    pub open spec fn text(self) -> Seq<char> {
        match self {
            AonErrorView::UnexpectedCharacter(c) => "Unexpected character: "@.push(c),
            AonErrorView::InvalidNumber(text) => "Invalid number format: "@ + text,
            AonErrorView::UnexpectedEndOfFile => "Unexpected end of file"@,
            AonErrorView::UnexpectedToken(token) => "Unexpected token: "@ + token.text(),
            AonErrorView::NestingTooDeep => "Nesting too deep"@,
        }
    }
}

impl AonError {
    /// The message that tells a reader of the error.
    pub fn to_string(&self) -> (text: String)
        ensures
            text@ == self@.text(),
    {
        match self {
            AonError::UnexpectedCharacter(c) => {
                let mut text = String::from_str("Unexpected character: ");
                text.push(*c);
                text
            },
            AonError::InvalidNumber(number) => {
                let mut text = String::from_str("Invalid number format: ");
                text.append(number.as_str());
                text
            },
            AonError::UnexpectedEndOfFile => String::from_str("Unexpected end of file"),
            AonError::UnexpectedToken(token) => {
                let mut text = String::from_str("Unexpected token: ");
                let shown = token.to_string();
                text.append(shown.as_str());
                text
            },
            AonError::NestingTooDeep => String::from_str("Nesting too deep"),
        }
    }
}

impl Clone for AonError {
    fn clone(&self) -> (copy: Self)
        ensures
            copy@ == self@,
    {
        match self {
            AonError::UnexpectedCharacter(c) => AonError::UnexpectedCharacter(*c),
            AonError::InvalidNumber(text) => AonError::InvalidNumber(text.clone()),
            AonError::UnexpectedEndOfFile => AonError::UnexpectedEndOfFile,
            AonError::UnexpectedToken(token) => AonError::UnexpectedToken(token.clone()),
            AonError::NestingTooDeep => AonError::NestingTooDeep,
        }
    }
}

} // verus!
