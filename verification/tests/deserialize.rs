use aon::deserializer::deserialize;
use aon::deserializer::lexer::tokenize;
use aon::deserializer::parser::{parse_tokens, MAX_DEPTH};
use aon::deserializer::tokens::Token;
use aon::error::AonError;
use aon::representation::value::Number;
use aon::representation::Value;

fn float(v: f64) -> Number {
    Number::Float(v.to_string())
}

#[test]
fn test_deserialize() {
    let aon = r#"
        {
            "num": -3.2,
            "maybe": #some {
                "value": "Hello, World" // Sample value
            },
            "hasName": true,
            "name": "Brian"
        }
        "#;

    let value = deserialize(&aon);

    assert!(value.is_ok());
    println!("{:?}", value)
}

#[test]
fn full_document_with_comment() {
    let text = "{\"num\":-3.2, // a comment\n\"hasName\":true,\"name\":\"Brian\"}";
    let value = deserialize(text);
    assert_eq!(
        value,
        Ok(Value::Struct(vec![
            ("num".to_owned(), Value::Number(float(-3.2))),
            ("hasName".to_owned(), Value::Bool(true)),
            ("name".to_owned(), Value::String("Brian".to_owned())),
        ]))
    );
}

#[test]
fn error_on_empty_input() {
    assert_eq!(deserialize(""), Err(AonError::UnexpectedEndOfFile));
}

#[test]
fn error_on_unexpected_character() {
    assert_eq!(deserialize("@"), Err(AonError::UnexpectedCharacter('@')));
}

#[test]
fn error_on_missing_closing_brace() {
    assert_eq!(deserialize("{\"a\":1"), Err(AonError::UnexpectedEndOfFile));
}

#[test]
fn error_on_invalid_number() {
    assert_eq!(deserialize("1.2.3"), Err(AonError::InvalidNumber("1.2.3".to_owned())));
}

#[test]
fn error_on_unexpected_token() {
    assert_eq!(deserialize("}"), Err(AonError::UnexpectedToken(Token::RightBrace)));
    assert_eq!(deserialize("1 2"), Err(AonError::UnexpectedToken(Token::Number(Number::PosInt(2)))));
    assert_eq!(deserialize("{\"a\" 1}"), Err(AonError::UnexpectedToken(Token::Number(Number::PosInt(1)))));
    assert_eq!(deserialize("[1,,2]"), Err(AonError::UnexpectedToken(Token::Comma)));
}

#[test]
fn error_on_single_slash() {
    assert_eq!(deserialize("/x"), Err(AonError::UnexpectedCharacter('x')));
    assert_eq!(deserialize("/"), Err(AonError::UnexpectedCharacter('\0')));
}

#[test]
fn error_on_unterminated_quote() {
    assert_eq!(deserialize("\"abc"), Err(AonError::UnexpectedEndOfFile));
    assert_eq!(deserialize("'abc\""), Err(AonError::UnexpectedEndOfFile));
}

#[test]
fn error_on_broken_keyword() {
    assert_eq!(deserialize("nul"), Err(AonError::UnexpectedCharacter('\0')));
    assert_eq!(deserialize("trux"), Err(AonError::UnexpectedCharacter('x')));
    assert_eq!(deserialize("none"), Err(AonError::UnexpectedCharacter('o')));
}

#[test]
fn error_on_lonely_minus() {
    assert_eq!(deserialize("-"), Err(AonError::UnexpectedCharacter('-')));
    assert_eq!(deserialize("-x"), Err(AonError::UnexpectedCharacter('-')));
}

#[test]
fn keywords_and_primitives() {
    assert_eq!(deserialize("null"), Ok(Value::Null));
    assert_eq!(deserialize("true"), Ok(Value::Bool(true)));
    assert_eq!(deserialize(" false "), Ok(Value::Bool(false)));
    assert_eq!(deserialize("'single'"), Ok(Value::String("single".to_owned())));
    assert_eq!(deserialize("\"it's\""), Ok(Value::String("it's".to_owned())));
    assert_eq!(deserialize("bare_word1"), Ok(Value::String("bare_word1".to_owned())));
    assert_eq!(deserialize("42"), Ok(Value::Number(Number::PosInt(42))));
    assert_eq!(deserialize("-42"), Ok(Value::Number(Number::NegInt(-42))));
}

#[test]
fn tokens_of_a_union() {
    let tokens = tokenize("#person{age:42,} // done").unwrap();
    assert_eq!(
        tokens,
        vec![
            Token::Hash,
            Token::Word("person".to_owned()),
            Token::LeftBrace,
            Token::Word("age".to_owned()),
            Token::Colon,
            Token::Number(Number::PosInt(42)),
            Token::Comma,
            Token::RightBrace,
            Token::Comment(" done".to_owned()),
            Token::EOF,
        ]
    );
    assert_eq!(
        parse_tokens(&tokens),
        Ok(Value::Union(
            "person".to_owned(),
            vec![("age".to_owned(), Value::Number(Number::PosInt(42)))]
        ))
    );
}

#[test]
fn tokenize_ends_with_eof() {
    assert_eq!(tokenize(""), Ok(vec![Token::EOF]));
    assert_eq!(tokenize("  \n\t "), Ok(vec![Token::EOF]));
    assert_eq!(tokenize(":"), Ok(vec![Token::Colon, Token::EOF]));
}

#[test]
fn comment_stops_at_line_break() {
    assert_eq!(
        tokenize("// one\n1"),
        Ok(vec![
            Token::Comment(" one".to_owned()),
            Token::Number(Number::PosInt(1)),
            Token::EOF
        ])
    );
}

#[test]
fn arrays_and_trailing_commas() {
    assert_eq!(deserialize("[]"), Ok(Value::Array(vec![])));
    assert_eq!(deserialize("{}"), Ok(Value::Struct(vec![])));
    assert_eq!(
        deserialize("[1, [2, 3,], {\"a\": null,},]"),
        Ok(Value::Array(vec![
            Value::Number(Number::PosInt(1)),
            Value::Array(vec![Value::Number(Number::PosInt(2)), Value::Number(Number::PosInt(3))]),
            Value::Struct(vec![("a".to_owned(), Value::Null)]),
        ]))
    );
    assert_eq!(deserialize("[,]"), Err(AonError::UnexpectedToken(Token::Comma)));
}

#[test]
fn duplicate_keys_are_kept_in_order() {
    assert_eq!(
        deserialize("{\"a\":1,\"a\":2}"),
        Ok(Value::Struct(vec![
            ("a".to_owned(), Value::Number(Number::PosInt(1))),
            ("a".to_owned(), Value::Number(Number::PosInt(2))),
        ]))
    );
}

#[test]
fn parse_without_eof_token() {
    assert_eq!(parse_tokens(&vec![Token::Null]), Ok(Value::Null));
    assert_eq!(parse_tokens(&vec![]), Err(AonError::UnexpectedEndOfFile));
    assert_eq!(parse_tokens(&vec![Token::EOF]), Err(AonError::UnexpectedEndOfFile));
    assert_eq!(
        parse_tokens(&vec![Token::Null, Token::Null]),
        Err(AonError::UnexpectedToken(Token::Null))
    );
}

#[test]
fn nesting_limit() {
    let deep = "[".repeat(MAX_DEPTH) + &"]".repeat(MAX_DEPTH);
    assert!(deserialize(&deep).is_ok());
    let too_deep = "[".repeat(MAX_DEPTH + 1) + &"]".repeat(MAX_DEPTH + 1);
    assert_eq!(deserialize(&too_deep), Err(AonError::NestingTooDeep));
}

#[test]
fn number_classification_boundaries() {
    assert_eq!(Number::new("18446744073709551615"), Some(Number::PosInt(u64::MAX)));
    assert_eq!(
        Number::new("18446744073709551616"),
        Some(Number::BigPosInt(18446744073709551616u128))
    );
    assert_eq!(Number::new("-1"), Some(Number::NegInt(-1)));
    assert_eq!(Number::new("-9223372036854775808"), Some(Number::NegInt(i64::MIN)));
    assert_eq!(
        Number::new("-9223372036854775809"),
        Some(Number::BigNegInt(-9223372036854775809i128))
    );
    assert_eq!(
        Number::new("-170141183460469231731687303715884105728"),
        Some(Number::BigNegInt(i128::MIN))
    );
    assert_eq!(
        Number::new("340282366920938463463374607431768211455"),
        Some(Number::BigPosInt(u128::MAX))
    );
    assert_eq!(
        Number::new("340282366920938463463374607431768211456"),
        Some(Number::Float("340282366920938463463374607431768211456".to_owned()))
    );
    assert_eq!(
        Number::new("-170141183460469231731687303715884105729"),
        Some(Number::Float("-170141183460469231731687303715884105729".to_owned()))
    );
    assert_eq!(Number::new("1.5"), Some(float(1.5)));
    assert_eq!(Number::new("0.0"), Some(Number::Float("0.0".to_owned())));
    assert_eq!(Number::new("5."), Some(Number::Float("5.".to_owned())));
    assert_eq!(Number::new("+7"), Some(Number::PosInt(7)));
    assert_eq!(Number::new("007"), Some(Number::PosInt(7)));
    assert_eq!(Number::new("-0"), Some(Number::NegInt(0)));
    assert_eq!(Number::new(""), None);
    assert_eq!(Number::new("-"), None);
    assert_eq!(Number::new("+"), None);
    assert_eq!(Number::new("1.2.3"), None);
    assert_eq!(Number::new(".5"), None);
    assert_eq!(Number::new("abc"), None);
    assert_eq!(Number::new("1e5"), None);
}
