//! The lexer: from the characters of a text to its tokens.

use crate::deserializer::cursor::{char_at, common_prefix_len, lemma_common_prefix_bounds, Cursor};
use crate::deserializer::tokens::{
    tokens_view, Token, TokenView, DOUBLE_QUOTE, HASH, LEFT_BRACE, LEFT_BRACKET, COLON, COMMA,
    MINUS, NEW_LINE, RIGHT_BRACE, RIGHT_BRACKET, SINGLE_QUOTE, SLASH,
};
use crate::error::{AonError, AonErrorView};
use crate::representation::decimal::{is_digit, is_digit_char};
use crate::representation::value::{classify, Number};
use crate::text::{is_ident_char, is_ident_start};
use vstd::prelude::*;
use vstd::string::StringExecFns;

verus! {

/// Whether `c` is white space, which separates tokens and is no token.
pub open spec fn is_whitespace(c: char) -> bool {
    ||| c == ' '
    ||| ('\u{9}' <= c && c <= '\u{d}')
    ||| c == '\u{85}'
    ||| c == '\u{a0}'
    ||| c == '\u{1680}'
    ||| ('\u{2000}' <= c && c <= '\u{200a}')
    ||| c == '\u{2028}'
    ||| c == '\u{2029}'
    ||| c == '\u{202f}'
    ||| c == '\u{205f}'
    ||| c == '\u{3000}'
}

/// A set of characters that a run is made of.
pub enum CharClass {
    /// Every character but the given one.
    Except(char),
    /// The digits and the decimal point.
    Numeric,
    /// The characters of a bare identifier.
    Identifier,
}

/// Whether `c` belongs to `class`.
pub open spec fn in_class(class: CharClass, c: char) -> bool {
    match class {
        CharClass::Except(other) => c != other,
        CharClass::Numeric => is_digit(c) || c == '.',
        CharClass::Identifier => is_ident_char(c),
    }
}

/// The end of the longest run of characters of `class` that begins at `from`.
pub open spec fn run_end(s: Seq<char>, class: CharClass, from: int) -> int
    decreases s.len() - from,
{
    if 0 <= from < s.len() && in_class(class, s[from]) {
        run_end(s, class, from + 1)
    } else {
        from
    }
}

/// A run ends where the first character outside the class stands.
pub proof fn lemma_run_end(s: Seq<char>, class: CharClass, from: int, end: int)
    requires
        0 <= from <= end <= s.len(),
        forall|k: int| from <= k < end ==> in_class(class, #[trigger] s[k]),
        end < s.len() ==> !in_class(class, s[end]),
    ensures
        run_end(s, class, from) == end,
    decreases end - from,
{
    if from < end {
        lemma_run_end(s, class, from + 1, end);
    }
}

/// A run ends within the text, at or after the place where it begins.
pub proof fn lemma_run_end_bounds(s: Seq<char>, class: CharClass, from: int)
    requires
        0 <= from <= s.len(),
    ensures
        from <= run_end(s, class, from) <= s.len(),
    decreases s.len() - from,
{
    if from < s.len() && in_class(class, s[from]) {
        lemma_run_end_bounds(s, class, from + 1);
    }
}

/// What the lexer makes of the beginning of a text: a token or an error,
/// and the number of characters that it has consumed for it.
pub struct Scan {
    pub outcome: Result<TokenView, AonErrorView>,
    pub consumed: int,
}

/// The scan of a token that is one character long.
pub open spec fn single(token: TokenView) -> Scan {
    Scan { outcome: Ok(token), consumed: 1 }
}

/// The scan of the keyword `word`, which stands for `token`. The characters
/// that agree with the keyword are consumed; the first that does not is the
/// error.
pub open spec fn scan_keyword(s: Seq<char>, word: Seq<char>, token: TokenView) -> Scan {
    let agreed = common_prefix_len(word, s);
    Scan {
        outcome: if agreed == word.len() {
            Ok(token)
        } else {
            Err(AonErrorView::UnexpectedCharacter(char_at(s, agreed)))
        },
        consumed: agreed,
    }
}

/// The scan of a numeric literal: an optional minus sign, then the longest
/// run of digits and points, read as a number.
pub open spec fn scan_number(s: Seq<char>) -> Scan {
    let start: int = if s[0] == MINUS {
        1
    } else {
        0
    };
    let end = run_end(s, CharClass::Numeric, start);
    let literal = s.take(end);
    Scan {
        outcome: match classify(literal) {
            Some(number) => Ok(TokenView::Number(number)),
            None => Err(AonErrorView::InvalidNumber(literal)),
        },
        consumed: end,
    }
}

/// The scan of a text between two quotes of the kind that `s` begins with.
/// Nothing escapes a quote: the text ends at the next one.
pub open spec fn scan_quoted(s: Seq<char>) -> Scan {
    let end = run_end(s, CharClass::Except(s[0]), 1);
    if end < s.len() {
        Scan { outcome: Ok(TokenView::Word(s.subrange(1, end))), consumed: end + 1 }
    } else {
        Scan { outcome: Err(AonErrorView::UnexpectedEndOfFile), consumed: end }
    }
}

/// The scan of what follows a slash: a second slash and a comment up to the
/// end of the line.
pub open spec fn scan_comment(s: Seq<char>) -> Scan {
    if char_at(s, 1) == SLASH {
        let end = run_end(s, CharClass::Except(NEW_LINE), 2);
        Scan { outcome: Ok(TokenView::Comment(s.subrange(2, end))), consumed: end }
    } else {
        Scan { outcome: Err(AonErrorView::UnexpectedCharacter(char_at(s, 1))), consumed: 1 }
    }
}

/// The scan of the token that the text `s` begins with; `s` is not empty and
/// does not begin with white space.
pub open spec fn scan_token(s: Seq<char>) -> Scan {
    let c = s[0];
    if c == SLASH {
        scan_comment(s)
    } else if c == SINGLE_QUOTE || c == DOUBLE_QUOTE {
        scan_quoted(s)
    } else if c == COLON {
        single(TokenView::Colon)
    } else if c == COMMA {
        single(TokenView::Comma)
    } else if c == HASH {
        single(TokenView::Hash)
    } else if c == LEFT_BRACE {
        single(TokenView::LeftBrace)
    } else if c == RIGHT_BRACE {
        single(TokenView::RightBrace)
    } else if c == LEFT_BRACKET {
        single(TokenView::LeftBracket)
    } else if c == RIGHT_BRACKET {
        single(TokenView::RightBracket)
    } else if is_digit(c) || (c == MINUS && is_digit(char_at(s, 1))) {
        scan_number(s)
    } else if c == 'n' {
        scan_keyword(s, "null"@, TokenView::Null)
    } else if c == 't' {
        scan_keyword(s, "true"@, TokenView::Bool(true))
    } else if c == 'f' {
        scan_keyword(s, "false"@, TokenView::Bool(false))
    } else if is_ident_start(c) {
        let end = run_end(s, CharClass::Identifier, 0);
        Scan { outcome: Ok(TokenView::Word(s.take(end))), consumed: end }
    } else {
        Scan { outcome: Err(AonErrorView::UnexpectedCharacter(c)), consumed: 0 }
    }
}

/// What the lexer finds next in a text, and the text that is left after it.
pub struct Step {
    pub outcome: Result<TokenView, AonErrorView>,
    pub rest: Seq<char>,
}

/// The next token of `s`: white space is passed over, and the end of the
/// text gives the token `EOF`.
pub open spec fn next_token(s: Seq<char>) -> Step
    decreases s.len(),
{
    if s.len() == 0 {
        Step { outcome: Ok(TokenView::EOF), rest: s }
    } else if is_whitespace(s[0]) {
        next_token(s.skip(1))
    } else {
        let scan = scan_token(s);
        Step { outcome: scan.outcome, rest: s.skip(scan.consumed) }
    }
}

/// A scan consumes no more than there is, and a token takes one character or
/// more.
pub proof fn lemma_scan_consumes(s: Seq<char>)
    requires
        s.len() > 0,
    ensures
        0 <= scan_token(s).consumed <= s.len(),
        scan_token(s).outcome.is_ok() ==> scan_token(s).consumed >= 1,
{
    reveal_strlit("null");
    reveal_strlit("true");
    reveal_strlit("false");
    let c = s[0];
    lemma_run_end_bounds(s, CharClass::Except(s[0]), 1);
    if s.len() >= 2 {
        lemma_run_end_bounds(s, CharClass::Except(NEW_LINE), 2);
    }
    lemma_run_end_bounds(s, CharClass::Identifier, 0);
    lemma_run_end_bounds(s, CharClass::Identifier, 1);
    lemma_run_end_bounds(s, CharClass::Numeric, 0);
    lemma_run_end_bounds(s, CharClass::Numeric, 1);
    lemma_common_prefix_bounds("null"@, s, 0);
    lemma_common_prefix_bounds("true"@, s, 0);
    lemma_common_prefix_bounds("false"@, s, 0);
}

/// After a token, less of the text is left than before it.
pub proof fn lemma_next_token_advances(s: Seq<char>)
    ensures
        next_token(s).rest.len() <= s.len(),
        next_token(s).outcome.is_ok() && next_token(s).outcome != Ok::<
            TokenView,
            AonErrorView,
        >(TokenView::EOF) ==> next_token(s).rest.len() < s.len(),
    decreases s.len(),
{
    if s.len() == 0 {
    } else if is_whitespace(s[0]) {
        lemma_next_token_advances(s.skip(1));
    } else {
        lemma_scan_consumes(s);
    }
}

/// The tokens of the text `s`, the last of which is `EOF`, or the first
/// error that the lexer meets in it.
pub open spec fn lex(s: Seq<char>) -> Result<Seq<TokenView>, AonErrorView>
    decreases s.len(),
{
    let step = next_token(s);
    match step.outcome {
        Err(e) => Err(e),
        Ok(TokenView::EOF) => Ok(seq![TokenView::EOF]),
        Ok(token) => {
            proof {
                lemma_next_token_advances(s);
            }
            match lex(step.rest) {
                Ok(tokens) => Ok(seq![token] + tokens),
                Err(e) => Err(e),
            }
        },
    }
}

/// Whether `c` is white space.
pub fn is_whitespace_char(c: char) -> (b: bool)
    ensures
        b == is_whitespace(c),
{
    c == ' ' || ('\u{9}' <= c && c <= '\u{d}') || c == '\u{85}' || c == '\u{a0}' || c
        == '\u{1680}' || ('\u{2000}' <= c && c <= '\u{200a}') || c == '\u{2028}' || c
        == '\u{2029}' || c == '\u{202f}' || c == '\u{205f}' || c == '\u{3000}'
}

/// Whether a bare identifier can begin with `c`.
pub fn is_ident_start_char(c: char) -> (b: bool)
    ensures
        b == is_ident_start(c),
{
    ('a' <= c && c <= 'z') || ('A' <= c && c <= 'Z') || c == '_'
}

/// Whether `c` can stand in a bare identifier.
pub fn is_identifier_char(c: char) -> (b: bool)
    ensures
        b == in_class(CharClass::Identifier, c),
{
    is_ident_start_char(c) || is_digit_char(c)
}

/// Whether `c` can stand in a numeric literal after its sign.
pub fn is_numeric_char(c: char) -> (b: bool)
    ensures
        b == in_class(CharClass::Numeric, c),
{
    is_digit_char(c) || c == '.'
}

/// The test that holds of every character but `other`.
fn is_not_char(other: char) -> (test: impl Fn(char) -> bool)
    ensures
        forall|c: char| call_requires(test, (c,)),
        forall|c: char, b: bool|
            call_ensures(test, (c,), b) ==> b == in_class(CharClass::Except(other), c),
{
    move |c: char| -> (b: bool)
        ensures
            b == in_class(CharClass::Except(other), c),
        { c != other }
}

/// The model of what [`tokenize_next`] returns.
pub open spec fn token_outcome_view(outcome: Result<Token, AonError>) -> Result<
    TokenView,
    AonErrorView,
> {
    match outcome {
        Ok(token) => Ok(token@),
        Err(e) => Err(e@),
    }
}

/// The model of what [`tokenize`] returns.
pub open spec fn tokens_outcome_view(outcome: Result<Vec<Token>, AonError>) -> Result<
    Seq<TokenView>,
    AonErrorView,
> {
    match outcome {
        Ok(tokens) => Ok(tokens_view(tokens@)),
        Err(e) => Err(e@),
    }
}

/// The tokens `before`, followed by those of `outcome`.
pub open spec fn with_tokens(
    before: Seq<TokenView>,
    outcome: Result<Seq<TokenView>, AonErrorView>,
) -> Result<Seq<TokenView>, AonErrorView> {
    match outcome {
        Ok(tokens) => Ok(before + tokens),
        Err(e) => Err(e),
    }
}

/// What is known of a run that the cursor has eaten from `from` on.
proof fn lemma_eaten_run(
    s: Seq<char>,
    class: CharClass,
    from: int,
    before: Seq<char>,
    eaten: Seq<char>,
)
    requires
        0 <= from <= s.len(),
        before == s.skip(from),
        eaten.len() <= before.len(),
        eaten == before.take(eaten.len() as int),
        forall|i: int| 0 <= i < eaten.len() ==> in_class(class, #[trigger] eaten[i]),
        eaten.len() < before.len() ==> !in_class(class, before[eaten.len() as int]),
    ensures
        run_end(s, class, from) == from + eaten.len(),
        from + eaten.len() <= s.len(),
        eaten == s.subrange(from, from + eaten.len()),
        before.skip(eaten.len() as int) == s.skip(from + eaten.len()),
{
    let end = from + eaten.len();
    assert forall|k: int| from <= k < end implies in_class(class, #[trigger] s[k]) by {
        assert(eaten[k - from] == s[k]);
    }
    lemma_run_end(s, class, from, end);
    assert(eaten =~= s.subrange(from, end));
    assert(before.skip(eaten.len() as int) =~= s.skip(end));
}

/// Reads the next token at the cursor and consumes it.
///
/// White space before the token is passed over. At the end of the input the
/// token is `EOF`. After an error the cursor stands behind what had been
/// read of the token when the error showed.
pub fn tokenize_next(cursor: &mut Cursor) -> (outcome: Result<Token, AonError>)
    ensures
        token_outcome_view(outcome) == next_token(old(cursor).remaining()).outcome,
        final(cursor).remaining() == next_token(old(cursor).remaining()).rest,
{
    while !cursor.is_eof() && is_whitespace_char(cursor.first())
        invariant
            next_token(cursor.remaining()) == next_token(old(cursor).remaining()),
        decreases cursor.remaining().len(),
    {
        cursor.bump();
    }
    if cursor.is_eof() {
        return Ok(Token::EOF);
    }
    let ghost s = cursor.remaining();
    let c = cursor.first();
    assert(s.skip(0) =~= s);
    if c == SLASH {
        cursor.bump();
        let next = cursor.first();
        if next == SLASH {
            cursor.bump();
            assert(s.skip(1).skip(1) =~= s.skip(2));
            let comment = cursor.eat_while(is_not_char(NEW_LINE));
            proof {
                lemma_eaten_run(s, CharClass::Except(NEW_LINE), 2, s.skip(2), comment@);
            }
            Ok(Token::Comment(comment))
        } else {
            Err(AonError::UnexpectedCharacter(next))
        }
    } else if c == SINGLE_QUOTE || c == DOUBLE_QUOTE {
        cursor.bump();
        let word = cursor.eat_while(is_not_char(c));
        proof {
            lemma_eaten_run(s, CharClass::Except(c), 1, s.skip(1), word@);
        }
        if cursor.is_eof() {
            Err(AonError::UnexpectedEndOfFile)
        } else {
            cursor.bump();
            assert(s.skip(1 + word@.len() as int).skip(1) =~= s.skip(1 + word@.len() as int + 1));
            Ok(Token::Word(word))
        }
    } else if c == COLON {
        cursor.bump();
        Ok(Token::Colon)
    } else if c == COMMA {
        cursor.bump();
        Ok(Token::Comma)
    } else if c == HASH {
        cursor.bump();
        Ok(Token::Hash)
    } else if c == LEFT_BRACE {
        cursor.bump();
        Ok(Token::LeftBrace)
    } else if c == RIGHT_BRACE {
        cursor.bump();
        Ok(Token::RightBrace)
    } else if c == LEFT_BRACKET {
        cursor.bump();
        Ok(Token::LeftBracket)
    } else if c == RIGHT_BRACKET {
        cursor.bump();
        Ok(Token::RightBracket)
    } else if is_digit_char(c) || (c == MINUS && is_digit_char(cursor.second())) {
        let mut number = String::new();
        if c == MINUS {
            cursor.bump();
            number.push(MINUS);
        }
        let ghost start: int = if c == MINUS {
            1
        } else {
            0
        };
        let digits = cursor.eat_while(is_numeric_char);
        proof {
            lemma_eaten_run(s, CharClass::Numeric, start, s.skip(start), digits@);
        }
        number.append(digits.as_str());
        assert(number@ =~= s.take(start + digits@.len() as int));
        match Number::new(number.as_str()) {
            Some(n) => Ok(Token::Number(n)),
            None => Err(AonError::InvalidNumber(number)),
        }
    } else if c == 'n' {
        match cursor.eat_text("null") {
            Ok(()) => Ok(Token::Null),
            Err(e) => Err(e),
        }
    } else if c == 't' {
        match cursor.eat_text("true") {
            Ok(()) => Ok(Token::Bool(true)),
            Err(e) => Err(e),
        }
    } else if c == 'f' {
        match cursor.eat_text("false") {
            Ok(()) => Ok(Token::Bool(false)),
            Err(e) => Err(e),
        }
    } else if is_ident_start_char(c) {
        let word = cursor.eat_while(is_identifier_char);
        proof {
            lemma_eaten_run(s, CharClass::Identifier, 0, s, word@);
            assert(word@ =~= s.take(word@.len() as int));
        }
        Ok(Token::Word(word))
    } else {
        Err(AonError::UnexpectedCharacter(c))
    }
}

/// Cuts the text `aon` into its tokens, the last of which is `EOF`.
///
/// The first error ends the reading, and no token is returned with it.
pub fn tokenize(aon: &str) -> (outcome: Result<Vec<Token>, AonError>)
    ensures
        tokens_outcome_view(outcome) == lex(aon@),
{
    let mut tokens: Vec<Token> = Vec::new();
    let mut cursor = Cursor::new(aon);
    assert(tokens_view(tokens@) =~= Seq::<TokenView>::empty());
    assert(with_tokens(tokens_view(tokens@), lex(cursor.remaining())) == lex(aon@)) by {
        match lex(aon@) {
            Ok(found) => {
                assert(Seq::<TokenView>::empty() + found =~= found);
            },
            Err(e) => {},
        }
    }
    loop
        invariant
            with_tokens(tokens_view(tokens@), lex(cursor.remaining())) == lex(aon@),
        decreases cursor.remaining().len(),
    {
        let ghost before = cursor.remaining();
        let ghost read = tokens_view(tokens@);
        proof {
            lemma_next_token_advances(before);
        }
        match tokenize_next(&mut cursor) {
            Err(e) => {
                return Err(e);
            },
            Ok(token) => {
                let done = match token {
                    Token::EOF => true,
                    _ => false,
                };
                tokens.push(token);
                assert(tokens_view(tokens@) =~= read.push(token@));
                if done {
                    assert(read + seq![TokenView::EOF] =~= read.push(TokenView::EOF));
                    return Ok(tokens);
                }
                proof {
                    match lex(cursor.remaining()) {
                        Ok(found) => {
                            assert(read + (seq![token@] + found) =~= read.push(token@) + found);
                        },
                        Err(e) => {},
                    }
                }
            },
        }
    }
}

} // verus!
