//! The parser: from tokens to a value tree, by recursive descent with one
//! token of lookahead.

use crate::deserializer::tokens::{tokens_view, Token, TokenView};
use crate::error::{AonError, AonErrorView};
use crate::representation::value::{items_view, pairs_view, Value, ValueView};
use vstd::prelude::*;

verus! {

/// How many structs, unions and arrays may stand inside one another. A
/// document that nests deeper is refused with `NestingTooDeep`.
pub const MAX_DEPTH: usize = 128;

/// The tokens without the comments among them.
pub open spec fn strip_comments(tokens: Seq<TokenView>) -> Seq<TokenView>
    decreases tokens.len(),
{
    if tokens.len() == 0 {
        tokens
    } else if tokens.last() is Comment {
        strip_comments(tokens.drop_last())
    } else {
        strip_comments(tokens.drop_last()).push(tokens.last())
    }
}

/// The token at `pos`, or `EOF` where there is none.
pub open spec fn token_at(tokens: Seq<TokenView>, pos: int) -> TokenView {
    if 0 <= pos < tokens.len() {
        tokens[pos]
    } else {
        TokenView::EOF
    }
}

/// The error for a token that cannot stand where it does.
pub open spec fn unexpected(token: TokenView) -> AonErrorView {
    if token is EOF {
        AonErrorView::UnexpectedEndOfFile
    } else {
        AonErrorView::UnexpectedToken(token)
    }
}

/// The value that begins at `pos`, below `depth` containers, and the number
/// of tokens that it takes after its first.
///
/// ```text
/// value  := 'null' | bool | number | Word | struct | union | array
/// struct := '{' pairs
/// union  := '#' Word '{' pairs
/// array  := '[' items
/// ```
pub open spec fn parsed_value(tokens: Seq<TokenView>, pos: int, depth: nat) -> Result<
    (ValueView, nat),
    AonErrorView,
>
    decreases tokens.len() - pos, 0nat,
{
    match token_at(tokens, pos) {
        TokenView::Null => Ok((ValueView::Null, 0)),
        TokenView::Bool(b) => Ok((ValueView::Bool(b), 0)),
        TokenView::Number(n) => Ok((ValueView::Number(n), 0)),
        TokenView::Word(text) => Ok((ValueView::String(text), 0)),
        TokenView::LeftBrace => {
            if depth >= MAX_DEPTH {
                Err(AonErrorView::NestingTooDeep)
            } else {
                match parsed_pairs(tokens, pos + 1, depth + 1) {
                    Ok((pairs, more)) => Ok((ValueView::Struct(pairs), 1 + more)),
                    Err(e) => Err(e),
                }
            }
        },
        TokenView::Hash => {
            match token_at(tokens, pos + 1) {
                TokenView::Word(tag) => {
                    match token_at(tokens, pos + 2) {
                        TokenView::LeftBrace => {
                            if depth >= MAX_DEPTH {
                                Err(AonErrorView::NestingTooDeep)
                            } else {
                                match parsed_pairs(tokens, pos + 3, depth + 1) {
                                    Ok((pairs, more)) => Ok(
                                        (ValueView::Union(tag, pairs), 3 + more),
                                    ),
                                    Err(e) => Err(e),
                                }
                            }
                        },
                        other => Err(unexpected(other)),
                    }
                },
                other => Err(unexpected(other)),
            }
        },
        TokenView::LeftBracket => {
            if depth >= MAX_DEPTH {
                Err(AonErrorView::NestingTooDeep)
            } else {
                match parsed_items(tokens, pos + 1, depth + 1) {
                    Ok((items, more)) => Ok((ValueView::Array(items), 1 + more)),
                    Err(e) => Err(e),
                }
            }
        },
        other => Err(unexpected(other)),
    }
}

/// The pairs of a struct or union body from `pos` up to its closing brace,
/// and the number of tokens that they take after the first.
///
/// ```text
/// pairs := '}' | Word ':' value ( '}' | ',' pairs )
/// ```
pub open spec fn parsed_pairs(tokens: Seq<TokenView>, pos: int, depth: nat) -> Result<
    (Seq<(Seq<char>, ValueView)>, nat),
    AonErrorView,
>
    decreases tokens.len() - pos, 1nat,
{
    match token_at(tokens, pos) {
        TokenView::RightBrace => Ok((Seq::empty(), 0)),
        TokenView::Word(key) => {
            match token_at(tokens, pos + 1) {
                TokenView::Colon => {
                    match parsed_value(tokens, pos + 2, depth) {
                        Ok((value, more)) => {
                            let next = pos + 3 + more;
                            match token_at(tokens, next) {
                                TokenView::RightBrace => Ok((seq![(key, value)], 3 + more)),
                                TokenView::Comma => {
                                    match parsed_pairs(tokens, next + 1, depth) {
                                        Ok((rest, rest_more)) => Ok(
                                            (seq![(key, value)] + rest, 4 + more + rest_more),
                                        ),
                                        Err(e) => Err(e),
                                    }
                                },
                                other => Err(unexpected(other)),
                            }
                        },
                        Err(e) => Err(e),
                    }
                },
                other => Err(unexpected(other)),
            }
        },
        other => Err(unexpected(other)),
    }
}

/// The items of an array from `pos` up to its closing bracket, and the
/// number of tokens that they take after the first.
///
/// ```text
/// items := ']' | value ( ']' | ',' items )
/// ```
pub open spec fn parsed_items(tokens: Seq<TokenView>, pos: int, depth: nat) -> Result<
    (Seq<ValueView>, nat),
    AonErrorView,
>
    decreases tokens.len() - pos, 1nat,
{
    match token_at(tokens, pos) {
        TokenView::RightBracket => Ok((Seq::empty(), 0)),
        TokenView::EOF => Err(AonErrorView::UnexpectedEndOfFile),
        _ => {
            match parsed_value(tokens, pos, depth) {
                Ok((value, more)) => {
                    let next = pos + 1 + more;
                    match token_at(tokens, next) {
                        TokenView::RightBracket => Ok((seq![value], 1 + more)),
                        TokenView::Comma => {
                            match parsed_items(tokens, next + 1, depth) {
                                Ok((rest, rest_more)) => Ok(
                                    (seq![value] + rest, 2 + more + rest_more),
                                ),
                                Err(e) => Err(e),
                            }
                        },
                        other => Err(unexpected(other)),
                    }
                },
                Err(e) => Err(e),
            }
        },
    }
}

/// The value that the tokens denote: one value, with comments anywhere and
/// nothing but `EOF` after it.
pub open spec fn parsed_document(tokens: Seq<TokenView>) -> Result<ValueView, AonErrorView> {
    let stripped = strip_comments(tokens);
    match parsed_value(stripped, 0, 0) {
        Ok((value, more)) => {
            match token_at(stripped, 1 + more as int) {
                TokenView::EOF => Ok(value),
                other => Err(AonErrorView::UnexpectedToken(other)),
            }
        },
        Err(e) => Err(e),
    }
}

/// The model of a value that was parsed from `pos` on, with the place where
/// the parser stands after it.
pub open spec fn value_step_view(outcome: Result<(Value, usize), AonError>, pos: int) -> Result<
    (ValueView, nat),
    AonErrorView,
> {
    match outcome {
        Ok((value, next)) => Ok((value@, (next - pos - 1) as nat)),
        Err(e) => Err(e@),
    }
}

/// The model of the pairs that were parsed from `pos` on.
pub open spec fn pairs_step_view(
    outcome: Result<(Vec<(String, Value)>, usize), AonError>,
    pos: int,
) -> Result<(Seq<(Seq<char>, ValueView)>, nat), AonErrorView> {
    match outcome {
        Ok((pairs, next)) => Ok((pairs_view(pairs@), (next - pos - 1) as nat)),
        Err(e) => Err(e@),
    }
}

/// The model of the items that were parsed from `pos` on.
pub open spec fn items_step_view(outcome: Result<(Vec<Value>, usize), AonError>, pos: int) -> Result<
    (Seq<ValueView>, nat),
    AonErrorView,
> {
    match outcome {
        Ok((items, next)) => Ok((items_view(items@), (next - pos - 1) as nat)),
        Err(e) => Err(e@),
    }
}

/// The model of what [`parse_tokens`] returns.
pub open spec fn value_outcome_view(outcome: Result<Value, AonError>) -> Result<
    ValueView,
    AonErrorView,
> {
    match outcome {
        Ok(value) => Ok(value@),
        Err(e) => Err(e@),
    }
}

/// What was read before, followed by what `outcome` holds; `offset` tokens
/// lie between the two beginnings.
pub open spec fn after_read<T>(
    before: Seq<T>,
    offset: int,
    outcome: Result<(Seq<T>, nat), AonErrorView>,
) -> Result<(Seq<T>, nat), AonErrorView> {
    match outcome {
        Ok((rest, more)) => Ok((before + rest, (offset + more) as nat)),
        Err(e) => Err(e),
    }
}

/// The error for the token at `pos`, which cannot stand there.
fn unexpected_at(tokens: &Vec<Token>, pos: usize) -> (e: AonError)
    ensures
        e@ == unexpected(token_at(tokens_view(tokens@), pos as int)),
{
    if pos < tokens.len() {
        match &tokens[pos] {
            Token::EOF => AonError::UnexpectedEndOfFile,
            token => AonError::UnexpectedToken(token.clone()),
        }
    } else {
        AonError::UnexpectedEndOfFile
    }
}

/// Parses the value at `pos` that is one token long: a string, a number, a
/// boolean or null.
fn parse_primitive(tokens: &Vec<Token>, pos: usize) -> (outcome: Result<(Value, usize), AonError>)
    requires
        !(token_at(tokens_view(tokens@), pos as int) is LeftBrace),
        !(token_at(tokens_view(tokens@), pos as int) is LeftBracket),
        !(token_at(tokens_view(tokens@), pos as int) is Hash),
    ensures
        forall|depth: nat|
            value_step_view(outcome, pos as int) == #[trigger] parsed_value(
                tokens_view(tokens@),
                pos as int,
                depth,
            ),
        outcome matches Ok((_, next)) ==> pos < next <= tokens.len(),
{
    if pos >= tokens.len() {
        return Err(AonError::UnexpectedEndOfFile);
    }
    match &tokens[pos] {
        Token::Word(text) => Ok((Value::String(text.clone()), pos + 1)),
        Token::Number(number) => Ok((Value::Number(number.clone()), pos + 1)),
        Token::Bool(b) => Ok((Value::Bool(*b), pos + 1)),
        Token::Null => Ok((Value::Null, pos + 1)),
        _ => Err(unexpected_at(tokens, pos)),
    }
}

/// Parses the value at `pos`, which stands inside `depth` containers.
fn parse_value(tokens: &Vec<Token>, pos: usize, depth: usize) -> (outcome: Result<
    (Value, usize),
    AonError,
>)
    requires
        depth <= MAX_DEPTH,
    ensures
        value_step_view(outcome, pos as int) == parsed_value(
            tokens_view(tokens@),
            pos as int,
            depth as nat,
        ),
        outcome matches Ok((_, next)) ==> pos < next <= tokens.len(),
    decreases tokens.len() - pos, 0nat,
{
    if pos >= tokens.len() {
        return Err(AonError::UnexpectedEndOfFile);
    }
    match &tokens[pos] {
        Token::LeftBrace => {
            if depth >= MAX_DEPTH {
                return Err(AonError::NestingTooDeep);
            }
            match parse_pairs(tokens, pos + 1, depth + 1) {
                Ok((pairs, next)) => Ok((Value::Struct(pairs), next)),
                Err(e) => Err(e),
            }
        },
        Token::Hash => {
            if pos + 1 >= tokens.len() {
                return Err(AonError::UnexpectedEndOfFile);
            }
            match &tokens[pos + 1] {
                Token::Word(tag) => {
                    if pos + 2 >= tokens.len() {
                        return Err(AonError::UnexpectedEndOfFile);
                    }
                    match &tokens[pos + 2] {
                        Token::LeftBrace => {
                            if depth >= MAX_DEPTH {
                                return Err(AonError::NestingTooDeep);
                            }
                            match parse_pairs(tokens, pos + 3, depth + 1) {
                                Ok((pairs, next)) => Ok((Value::Union(tag.clone(), pairs), next)),
                                Err(e) => Err(e),
                            }
                        },
                        _ => Err(unexpected_at(tokens, pos + 2)),
                    }
                },
                _ => Err(unexpected_at(tokens, pos + 1)),
            }
        },
        Token::LeftBracket => {
            if depth >= MAX_DEPTH {
                return Err(AonError::NestingTooDeep);
            }
            match parse_list(tokens, pos + 1, depth + 1) {
                Ok((items, next)) => Ok((Value::Array(items), next)),
                Err(e) => Err(e),
            }
        },
        _ => parse_primitive(tokens, pos),
    }
}

/// Parses the pairs of a struct or union body from `pos` up to its closing
/// brace.
fn parse_pairs(tokens: &Vec<Token>, pos: usize, depth: usize) -> (outcome: Result<
    (Vec<(String, Value)>, usize),
    AonError,
>)
    requires
        depth <= MAX_DEPTH,
    ensures
        pairs_step_view(outcome, pos as int) == parsed_pairs(
            tokens_view(tokens@),
            pos as int,
            depth as nat,
        ),
        outcome matches Ok((_, next)) ==> pos < next <= tokens.len(),
    decreases tokens.len() - pos, 1nat,
{
    let ghost t = tokens_view(tokens@);
    let mut pairs: Vec<(String, Value)> = Vec::new();
    let mut at: usize = pos;
    proof {
        assert(pairs_view(pairs@) =~= Seq::empty());
        match parsed_pairs(t, pos as int, depth as nat) {
            Ok((rest, more)) => {
                assert(Seq::<(Seq<char>, ValueView)>::empty() + rest =~= rest);
            },
            Err(e) => {},
        }
    }
    loop
        invariant
            depth <= MAX_DEPTH,
            t == tokens_view(tokens@),
            pos <= at,
            after_read(pairs_view(pairs@), at - pos, parsed_pairs(t, at as int, depth as nat))
                == parsed_pairs(t, pos as int, depth as nat),
        decreases tokens.len() - at,
    {
        if at >= tokens.len() {
            return Err(AonError::UnexpectedEndOfFile);
        }
        match &tokens[at] {
            Token::RightBrace => {
                assert(pairs_view(pairs@) + Seq::empty() =~= pairs_view(pairs@));
                return Ok((pairs, at + 1));
            },
            Token::Word(key) => {
                if at + 1 >= tokens.len() {
                    return Err(AonError::UnexpectedEndOfFile);
                }
                match &tokens[at + 1] {
                    Token::Colon => {},
                    _ => {
                        return Err(unexpected_at(tokens, at + 1));
                    },
                }
                let (value, next) = match parse_value(tokens, at + 2, depth) {
                    Ok(found) => found,
                    Err(e) => {
                        return Err(e);
                    },
                };
                if next >= tokens.len() {
                    return Err(AonError::UnexpectedEndOfFile);
                }
                let ghost read = pairs_view(pairs@);
                let ghost pair = (key@, value@);
                match &tokens[next] {
                    Token::RightBrace => {
                        pairs.push((key.clone(), value));
                        assert(pairs_view(pairs@) =~= read + seq![pair]);
                        return Ok((pairs, next + 1));
                    },
                    Token::Comma => {
                        pairs.push((key.clone(), value));
                        proof {
                            assert(pairs_view(pairs@) =~= read + seq![pair]);
                            match parsed_pairs(t, next + 1, depth as nat) {
                                Ok((rest, more)) => {
                                    assert(read + (seq![pair] + rest) =~= (read + seq![pair])
                                        + rest);
                                },
                                Err(e) => {},
                            }
                        }
                        at = next + 1;
                    },
                    _ => {
                        return Err(unexpected_at(tokens, next));
                    },
                }
            },
            _ => {
                return Err(unexpected_at(tokens, at));
            },
        }
    }
}

/// Parses the items of an array from `pos` up to its closing bracket.
fn parse_list(tokens: &Vec<Token>, pos: usize, depth: usize) -> (outcome: Result<
    (Vec<Value>, usize),
    AonError,
>)
    requires
        depth <= MAX_DEPTH,
    ensures
        items_step_view(outcome, pos as int) == parsed_items(
            tokens_view(tokens@),
            pos as int,
            depth as nat,
        ),
        outcome matches Ok((_, next)) ==> pos < next <= tokens.len(),
    decreases tokens.len() - pos, 1nat,
{
    let ghost t = tokens_view(tokens@);
    let mut items: Vec<Value> = Vec::new();
    let mut at: usize = pos;
    proof {
        assert(items_view(items@) =~= Seq::empty());
        match parsed_items(t, pos as int, depth as nat) {
            Ok((rest, more)) => {
                assert(Seq::<ValueView>::empty() + rest =~= rest);
            },
            Err(e) => {},
        }
    }
    loop
        invariant
            depth <= MAX_DEPTH,
            t == tokens_view(tokens@),
            pos <= at,
            after_read(items_view(items@), at - pos, parsed_items(t, at as int, depth as nat))
                == parsed_items(t, pos as int, depth as nat),
        decreases tokens.len() - at,
    {
        if at >= tokens.len() {
            return Err(AonError::UnexpectedEndOfFile);
        }
        match &tokens[at] {
            Token::RightBracket => {
                assert(items_view(items@) + Seq::empty() =~= items_view(items@));
                return Ok((items, at + 1));
            },
            Token::EOF => {
                return Err(AonError::UnexpectedEndOfFile);
            },
            _ => {},
        }
        let (value, next) = match parse_value(tokens, at, depth) {
            Ok(found) => found,
            Err(e) => {
                return Err(e);
            },
        };
        if next >= tokens.len() {
            return Err(AonError::UnexpectedEndOfFile);
        }
        let ghost read = items_view(items@);
        let ghost item = value@;
        match &tokens[next] {
            Token::RightBracket => {
                items.push(value);
                assert(items_view(items@) =~= read + seq![item]);
                return Ok((items, next + 1));
            },
            Token::Comma => {
                items.push(value);
                proof {
                    assert(items_view(items@) =~= read + seq![item]);
                    match parsed_items(t, next + 1, depth as nat) {
                        Ok((rest, more)) => {
                            assert(read + (seq![item] + rest) =~= (read + seq![item]) + rest);
                        },
                        Err(e) => {},
                    }
                }
                at = next + 1;
            },
            _ => {
                return Err(unexpected_at(tokens, next));
            },
        }
    }
}

/// The tokens without the comments among them.
fn without_comments(tokens: &Vec<Token>) -> (kept: Vec<Token>)
    ensures
        tokens_view(kept@) == strip_comments(tokens_view(tokens@)),
{
    let ghost t = tokens_view(tokens@);
    let mut kept: Vec<Token> = Vec::new();
    let mut i: usize = 0;
    assert(t.take(0) =~= Seq::empty());
    assert(tokens_view(kept@) =~= Seq::empty());
    while i < tokens.len()
        invariant
            i <= tokens.len(),
            t == tokens_view(tokens@),
            tokens_view(kept@) == strip_comments(t.take(i as int)),
        decreases tokens.len() - i,
    {
        let ghost before = tokens_view(kept@);
        assert(t.take(i + 1).drop_last() =~= t.take(i as int));
        assert(t.take(i + 1).last() == tokens[i as int]@);
        match &tokens[i] {
            Token::Comment(_) => {},
            token => {
                kept.push(token.clone());
                assert(tokens_view(kept@) =~= before.push(token@));
            },
        }
        i += 1;
    }
    assert(t.take(i as int) =~= t);
    kept
}

/// Parses the tokens of a document into its value.
///
/// The tokens hold one value, with comments anywhere among them, and `EOF`
/// after it. A sequence that ends without `EOF` is read as if it had one.
pub fn parse_tokens(tokens: &Vec<Token>) -> (outcome: Result<Value, AonError>)
    ensures
        value_outcome_view(outcome) == parsed_document(tokens_view(tokens@)),
{
    let stripped = without_comments(tokens);
    match parse_value(&stripped, 0, 0) {
        Ok((value, next)) => {
            if next >= stripped.len() {
                Ok(value)
            } else {
                match &stripped[next] {
                    Token::EOF => Ok(value),
                    token => Err(AonError::UnexpectedToken(token.clone())),
                }
            }
        },
        Err(e) => Err(e),
    }
}

} // verus!
