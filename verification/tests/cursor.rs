use aon::deserializer::cursor::{Cursor, EOF};
use aon::deserializer::lexer::{tokenize, tokenize_next};
use aon::deserializer::tokens::Token;
use aon::error::AonError;
use aon::representation::value::Number;

#[test]
fn cursor_looks_ahead_without_consuming() {
    let cursor = Cursor::new("ab");
    assert_eq!(cursor.first(), 'a');
    assert_eq!(cursor.second(), 'b');
    assert_eq!(cursor.first(), 'a');
    assert!(!cursor.is_eof());
}

#[test]
fn cursor_shows_eof_past_the_end() {
    let mut cursor = Cursor::new("a");
    assert_eq!(cursor.second(), EOF);
    assert_eq!(cursor.bump(), Some('a'));
    assert_eq!(cursor.first(), EOF);
    assert_eq!(cursor.second(), EOF);
    assert!(cursor.is_eof());
    assert_eq!(cursor.bump(), None);
    assert!(Cursor::new("").is_eof());
}

#[test]
fn cursor_eats_while_the_test_holds() {
    let mut cursor = Cursor::new("aaab");
    assert_eq!(cursor.eat_while(|c| c == 'a'), "aaa");
    assert_eq!(cursor.first(), 'b');
    assert_eq!(cursor.eat_while(|c| c == 'a'), "");
    assert_eq!(cursor.eat_while(|_| true), "b");
    assert!(cursor.is_eof());
    assert_eq!(cursor.eat_while(|_| true), "");
}

#[test]
fn cursor_eats_a_text_and_advances() {
    let mut cursor = Cursor::new("nullx");
    assert_eq!(cursor.eat_text("null"), Ok(()));
    assert_eq!(cursor.first(), 'x');
    assert_eq!(cursor.eat_text(""), Ok(()));
    assert_eq!(cursor.first(), 'x');
}

#[test]
fn cursor_stops_at_the_first_mismatch() {
    let mut cursor = Cursor::new("nuxl");
    assert_eq!(cursor.eat_text("null"), Err(AonError::UnexpectedCharacter('x')));
    assert_eq!(cursor.first(), 'x');
    let mut cursor = Cursor::new("nu");
    assert_eq!(cursor.eat_text("null"), Err(AonError::UnexpectedCharacter(EOF)));
    assert!(cursor.is_eof());
}

#[test]
fn next_token_passes_white_space() {
    let mut cursor = Cursor::new("  \n\t-12.5 ,");
    assert_eq!(tokenize_next(&mut cursor), Ok(Token::Number(Number::Float("-12.5".to_owned()))));
    assert_eq!(cursor.first(), ' ');
    assert_eq!(tokenize_next(&mut cursor), Ok(Token::Comma));
    assert_eq!(tokenize_next(&mut cursor), Ok(Token::EOF));
    assert_eq!(tokenize_next(&mut cursor), Ok(Token::EOF));
}

#[test]
fn next_token_leaves_the_cursor_at_the_error() {
    let mut cursor = Cursor::new("tru@");
    assert_eq!(tokenize_next(&mut cursor), Err(AonError::UnexpectedCharacter('@')));
    assert_eq!(cursor.first(), '@');
    let mut cursor = Cursor::new("/@");
    assert_eq!(tokenize_next(&mut cursor), Err(AonError::UnexpectedCharacter('@')));
    assert_eq!(cursor.first(), '@');
    let mut cursor = Cursor::new("@1");
    assert_eq!(tokenize_next(&mut cursor), Err(AonError::UnexpectedCharacter('@')));
    assert_eq!(cursor.first(), '@');
    let mut cursor = Cursor::new("1..2,");
    assert_eq!(tokenize_next(&mut cursor), Err(AonError::InvalidNumber("1..2".to_owned())));
    assert_eq!(cursor.first(), ',');
}

#[test]
fn unicode_white_space_separates_tokens() {
    assert_eq!(
        tokenize("\u{a0}1\u{2003}2\u{3000}"),
        Ok(vec![
            Token::Number(Number::PosInt(1)),
            Token::Number(Number::PosInt(2)),
            Token::EOF
        ])
    );
    assert_eq!(tokenize("\u{200b}"), Err(AonError::UnexpectedCharacter('\u{200b}')));
}

#[test]
fn keyword_runs_into_identifier() {
    assert_eq!(
        tokenize("nullable"),
        Ok(vec![Token::Null, Token::Word("able".to_owned()), Token::EOF])
    );
    assert_eq!(
        tokenize("a-1"),
        Ok(vec![
            Token::Word("a".to_owned()),
            Token::Number(Number::NegInt(-1)),
            Token::EOF
        ])
    );
}
