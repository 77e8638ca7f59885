use aon::deserializer::tokens::Token;
use aon::error::AonError;
use aon::representation::value::Number;
use aon::representation::Value;
use aon::serializer::formatter::FormatContext;

#[test]
fn numbers_as_text() {
    assert_eq!(Number::PosInt(0).to_string(), "0");
    assert_eq!(Number::PosInt(10).to_string(), "10");
    assert_eq!(Number::PosInt(u64::MAX).to_string(), u64::MAX.to_string());
    assert_eq!(Number::BigPosInt(u128::MAX).to_string(), u128::MAX.to_string());
    assert_eq!(Number::NegInt(i64::MIN).to_string(), i64::MIN.to_string());
    assert_eq!(Number::NegInt(5).to_string(), "5");
    assert_eq!(Number::BigNegInt(i128::MIN).to_string(), i128::MIN.to_string());
    assert_eq!(Number::BigNegInt(-1).to_string(), "-1");
    assert_eq!(Number::Float(1.5f64.to_string()).to_string(), "1.5");
}

#[test]
fn tokens_as_text() {
    assert_eq!(Token::Comment(" c".to_owned()).to_string(), "// c");
    assert_eq!(Token::Colon.to_string(), ":");
    assert_eq!(Token::Comma.to_string(), ",");
    assert_eq!(Token::Hash.to_string(), "#");
    assert_eq!(Token::LeftBrace.to_string(), "{");
    assert_eq!(Token::RightBrace.to_string(), "}");
    assert_eq!(Token::LeftBracket.to_string(), "[");
    assert_eq!(Token::RightBracket.to_string(), "]");
    assert_eq!(Token::Null.to_string(), "null");
    assert_eq!(Token::Bool(true).to_string(), "true");
    assert_eq!(Token::Bool(false).to_string(), "false");
    assert_eq!(Token::Number(Number::NegInt(-3)).to_string(), "-3");
    assert_eq!(Token::Word("w".to_owned()).to_string(), "\"w\"");
    assert_eq!(Token::EOF.to_string(), "");
}

#[test]
fn errors_as_text() {
    assert_eq!(AonError::UnexpectedCharacter('@').to_string(), "Unexpected character: @");
    assert_eq!(AonError::InvalidNumber("1.2.3".to_owned()).to_string(), "Invalid number format: 1.2.3");
    assert_eq!(AonError::UnexpectedEndOfFile.to_string(), "Unexpected end of file");
    assert_eq!(AonError::UnexpectedToken(Token::Comma).to_string(), "Unexpected token: ,");
    assert_eq!(AonError::NestingTooDeep.to_string(), "Nesting too deep");
}

#[test]
fn contexts_as_text() {
    assert_eq!(FormatContext::List.to_string(), "list");
    assert_eq!(FormatContext::Struct.to_string(), "struct");
    assert_eq!(FormatContext::Union.to_string(), "union");
    assert_eq!(FormatContext::All.to_string(), "liststructunion");
}

#[test]
fn values_as_text() {
    assert_eq!(Value::Null.to_string(), "null");
    assert_eq!(Value::Bool(true).to_string(), "true");
    assert_eq!(Value::Number(Number::PosInt(7)).to_string(), "7");
    assert_eq!(Value::String("s".to_owned()).to_string(), "\"s\"");
    let pairs = vec![
        ("a".to_owned(), Value::Null),
        ("b".to_owned(), Value::Array(vec![Value::Bool(false), Value::Number(Number::NegInt(-1))])),
    ];
    assert_eq!(Value::Struct(pairs.clone()).to_string(), "{\"a\":null, \"b\":[false, -1]}");
    assert_eq!(Value::Union("t".to_owned(), pairs).to_string(), "#t:{\"a\":null, \"b\":[false, -1]}");
    assert_eq!(Value::Struct(vec![]).to_string(), "{}");
    assert_eq!(Value::Array(vec![]).to_string(), "[]");
}

#[test]
fn clones_are_equal() {
    let value = Value::Union(
        "t".to_owned(),
        vec![("a".to_owned(), Value::Array(vec![Value::Number(Number::Float("1.5".to_owned()))]))],
    );
    assert_eq!(value.clone(), value);
    let error = AonError::UnexpectedToken(Token::Word("w".to_owned()));
    assert_eq!(error.clone(), error);
}
