//! The tokens that the text of a document is cut into.

use crate::representation::value::{Number, NumberView};
use crate::text::{bool_text, quote, quoted};
use vstd::prelude::*;
use vstd::string::StringExecFns;

verus! {

pub const SINGLE_QUOTE: char = '\'';

pub const DOUBLE_QUOTE: char = '"';

pub const SLASH: char = '/';

pub const COLON: char = ':';

pub const COMMA: char = ',';

pub const HASH: char = '#';

pub const LEFT_BRACE: char = '{';

pub const RIGHT_BRACE: char = '}';

pub const LEFT_BRACKET: char = '[';

pub const RIGHT_BRACKET: char = ']';

pub const MINUS: char = '-';

pub const NEW_LINE: char = '\n';

/// One token of a document.
#[derive(Debug, PartialEq)]
pub enum Token {
    /// A line comment, without its two slashes and without the line break.
    Comment(String),
    Colon,
    Comma,
    Hash,
    LeftBrace,
    RightBrace,
    LeftBracket,
    RightBracket,
    Null,
    Bool(bool),
    Number(Number),
    /// A quoted text or a bare identifier: a string value, a key of a struct
    /// or the tag of a union, by where it stands.
    Word(String),
    /// The end of the input.
    EOF,
}

/// The mathematical model of a [`Token`].
pub enum TokenView {
    Comment(Seq<char>),
    Colon,
    Comma,
    Hash,
    LeftBrace,
    RightBrace,
    LeftBracket,
    RightBracket,
    Null,
    Bool(bool),
    Number(NumberView),
    Word(Seq<char>),
    EOF,
}

impl View for Token {
    type V = TokenView;

    open spec fn view(&self) -> TokenView {
        match self {
            Token::Comment(text) => TokenView::Comment(text@),
            Token::Colon => TokenView::Colon,
            Token::Comma => TokenView::Comma,
            Token::Hash => TokenView::Hash,
            Token::LeftBrace => TokenView::LeftBrace,
            Token::RightBrace => TokenView::RightBrace,
            Token::LeftBracket => TokenView::LeftBracket,
            Token::RightBracket => TokenView::RightBracket,
            Token::Null => TokenView::Null,
            Token::Bool(b) => TokenView::Bool(*b),
            Token::Number(n) => TokenView::Number(n@),
            Token::Word(text) => TokenView::Word(text@),
            Token::EOF => TokenView::EOF,
        }
    }
}

/// The models of a sequence of tokens.
pub open spec fn tokens_view(tokens: Seq<Token>) -> Seq<TokenView> {
    tokens.map_values(|t: Token| t@)
}

impl TokenView {
    /// The text that shows the token to a reader.
    pub open spec fn text(self) -> Seq<char> {
        match self {
            TokenView::Comment(text) => "//"@ + text,
            TokenView::Colon => ":"@,
            TokenView::Comma => ","@,
            TokenView::Hash => "#"@,
            TokenView::LeftBrace => "{"@,
            TokenView::RightBrace => "}"@,
            TokenView::LeftBracket => "["@,
            TokenView::RightBracket => "]"@,
            TokenView::Null => "null"@,
            TokenView::Bool(b) => bool_text(b),
            TokenView::Number(n) => n.text(),
            TokenView::Word(text) => quoted(text),
            TokenView::EOF => ""@,
        }
    }
}

impl Token {
    /// The text that shows the token to a reader.
    pub fn to_string(&self) -> (text: String)
        ensures
            text@ == self@.text(),
    {
        match self {
            Token::Comment(comment) => {
                let mut text = String::from_str("//");
                text.append(comment.as_str());
                text
            },
            Token::Colon => String::from_str(":"),
            Token::Comma => String::from_str(","),
            Token::Hash => String::from_str("#"),
            Token::LeftBrace => String::from_str("{"),
            Token::RightBrace => String::from_str("}"),
            Token::LeftBracket => String::from_str("["),
            Token::RightBracket => String::from_str("]"),
            Token::Null => String::from_str("null"),
            Token::Bool(b) => {
                if *b {
                    String::from_str("true")
                } else {
                    String::from_str("false")
                }
            },
            Token::Number(n) => n.to_string(),
            Token::Word(word) => quote(word.as_str()),
            Token::EOF => String::from_str(""),
        }
    }
}

impl Clone for Token {
    fn clone(&self) -> (copy: Self)
        ensures
            copy@ == self@,
    {
        match self {
            Token::Comment(text) => Token::Comment(text.clone()),
            Token::Colon => Token::Colon,
            Token::Comma => Token::Comma,
            Token::Hash => Token::Hash,
            Token::LeftBrace => Token::LeftBrace,
            Token::RightBrace => Token::RightBrace,
            Token::LeftBracket => Token::LeftBracket,
            Token::RightBracket => Token::RightBracket,
            Token::Null => Token::Null,
            Token::Bool(b) => Token::Bool(*b),
            Token::Number(n) => Token::Number(n.clone()),
            Token::Word(text) => Token::Word(text.clone()),
            Token::EOF => Token::EOF,
        }
    }
}

} // verus!
