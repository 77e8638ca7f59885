//! The lexer reads the text of a value as the tokens of that value.

use crate::deserializer::cursor::common_prefix_end;
use crate::deserializer::lexer::{
    in_class, is_whitespace, lemma_run_end, lex, next_token, scan_token, with_tokens, CharClass,
};
use crate::deserializer::tokens::TokenView;
use crate::error::AonErrorView;
use crate::representation::decimal::{is_digit, lemma_nat_text, nat_text};
use crate::representation::value::{
    begins_like_keyword, lemma_number_reads_back, unsigned_part, NumberView, ValueView,
};
use crate::serializer::formatter::{ContextOptions, FormatOptions};
use crate::serializer::layout::{
    colon, comma, container_text, fits, framed, indentation, inner_break, joined_items, joined_pairs,
    lead, line_break, options_for, render, trailing,
};
use crate::text::{bool_text, is_ident_char, is_identifier, quoted};
use vstd::prelude::*;

verus! {

/// Whether `s` holds white space only.
pub open spec fn all_whitespace(s: Seq<char>) -> bool {
    forall|i: int| 0 <= i < s.len() ==> is_whitespace(#[trigger] s[i])
}

/// Whether a number can stand before `s`: `s` is empty or begins with
/// something else than a digit or a point.
pub open spec fn ends_number(s: Seq<char>) -> bool {
    s.len() == 0 || !in_class(CharClass::Numeric, s[0])
}

/// Tokens before tokens before an outcome are their sum before it.
proof fn lemma_with_tokens_twice(
    a: Seq<TokenView>,
    b: Seq<TokenView>,
    outcome: Result<Seq<TokenView>, AonErrorView>,
)
    ensures
        with_tokens(a, with_tokens(b, outcome)) == with_tokens(a + b, outcome),
{
    match outcome {
        Ok(tokens) => {
            assert(a + (b + tokens) =~= (a + b) + tokens);
        },
        Err(e) => {},
    }
}

/// White space before a text changes nothing in its tokens.
proof fn lemma_lex_whitespace(ws: Seq<char>, s: Seq<char>)
    requires
        all_whitespace(ws),
    ensures
        next_token(ws + s) == next_token(s),
        lex(ws + s) == lex(s),
    decreases ws.len(),
{
    if ws.len() == 0 {
        assert(ws + s =~= s);
    } else {
        assert((ws + s)[0] == ws[0]);
        assert((ws + s).skip(1) =~= ws.skip(1) + s);
        assert forall|i: int| 0 <= i < ws.skip(1).len() implies is_whitespace(
            #[trigger] ws.skip(1)[i],
        ) by {
            assert(ws.skip(1)[i] == ws[i + 1]);
        }
        lemma_lex_whitespace(ws.skip(1), s);
    }
}

/// The tokens of a text that begins with a token.
proof fn lemma_lex_token(s: Seq<char>, token: TokenView, consumed: int)
    requires
        s.len() > 0,
        !is_whitespace(s[0]),
        scan_token(s).outcome == Ok::<TokenView, AonErrorView>(token),
        scan_token(s).consumed == consumed,
    ensures
        lex(s) == with_tokens(seq![token], lex(s.skip(consumed))),
{
    reveal_strlit("null");
    reveal_strlit("true");
    reveal_strlit("false");
}

/// Whether `c` is one of the seven marks that are a token each.
pub open spec fn is_mark(c: char) -> bool {
    c == ':' || c == ',' || c == '#' || c == '{' || c == '}' || c == '[' || c == ']'
}

/// The token that the mark `c` is.
pub open spec fn mark_token(c: char) -> TokenView {
    if c == ':' {
        TokenView::Colon
    } else if c == ',' {
        TokenView::Comma
    } else if c == '#' {
        TokenView::Hash
    } else if c == '{' {
        TokenView::LeftBrace
    } else if c == '}' {
        TokenView::RightBrace
    } else if c == '[' {
        TokenView::LeftBracket
    } else {
        TokenView::RightBracket
    }
}

/// The tokens of a text that begins with a mark.
proof fn lemma_lex_mark(c: char, s: Seq<char>)
    requires
        is_mark(c),
    ensures
        lex(seq![c] + s) == with_tokens(seq![mark_token(c)], lex(s)),
{
    let text = seq![c] + s;
    assert(text[0] == c);
    assert(text.skip(1) =~= s);
    lemma_lex_token(text, mark_token(c), 1);
}

/// The tokens of a text that begins with a quoted text.
proof fn lemma_lex_quoted(word: Seq<char>, s: Seq<char>)
    requires
        !word.contains('"'),
    ensures
        lex(quoted(word) + s) == with_tokens(seq![TokenView::Word(word)], lex(s)),
{
    let text = quoted(word) + s;
    let end: int = 1 + word.len() as int;
    assert(text[0] == '"');
    assert forall|k: int| 1 <= k < end implies in_class(
        CharClass::Except('"'),
        #[trigger] text[k],
    ) by {
        assert(text[k] == word[k - 1]);
        assert(word.contains(word[k - 1]));
    }
    assert(text[end] == '"');
    lemma_run_end(text, CharClass::Except('"'), 1, end);
    assert(text.subrange(1, end) =~= word);
    assert(text.skip(end + 1) =~= s);
    lemma_lex_token(text, TokenView::Word(word), end + 1);
}

/// A word that a text begins with is the whole of what the two share.
proof fn lemma_common_prefix_whole(word: Seq<char>, text: Seq<char>, from: int)
    requires
        0 <= from <= word.len() <= text.len(),
        text.take(word.len() as int) == word,
    ensures
        common_prefix_end(word, text, from) == word.len(),
    decreases word.len() - from,
{
    if from < word.len() {
        assert(text.take(word.len() as int)[from] == text[from]);
        lemma_common_prefix_whole(word, text, from + 1);
    }
}

/// The tokens of a text that begins with the keyword `word`, which is one
/// of `null`, `true` and `false` and stands for `token`.
proof fn lemma_lex_keyword(word: Seq<char>, token: TokenView, s: Seq<char>)
    requires
        (word == "null"@ && token == TokenView::Null) || (word == "true"@ && token
            == TokenView::Bool(true)) || (word == "false"@ && token == TokenView::Bool(false)),
    ensures
        lex(word + s) == with_tokens(seq![token], lex(s)),
{
    reveal_strlit("null");
    reveal_strlit("true");
    reveal_strlit("false");
    let text = word + s;
    assert(text.take(word.len() as int) =~= word);
    lemma_common_prefix_whole(word, text, 0);
    assert(text[0] == word[0]);
    assert(text.skip(word.len() as int) =~= s);
    lemma_lex_token(text, token, word.len() as int);
}

/// The tokens of a text that begins with a bare identifier.
proof fn lemma_lex_identifier(word: Seq<char>, s: Seq<char>)
    requires
        is_identifier(word),
        !begins_like_keyword(word),
        s.len() > 0,
        !is_ident_char(s[0]),
    ensures
        lex(word + s) == with_tokens(seq![TokenView::Word(word)], lex(s)),
{
    let text = word + s;
    let end = word.len() as int;
    assert(text[0] == word[0]);
    assert forall|k: int| 0 <= k < end implies in_class(
        CharClass::Identifier,
        #[trigger] text[k],
    ) by {
        assert(text[k] == word[k]);
    }
    assert(text[end] == s[0]);
    lemma_run_end(text, CharClass::Identifier, 0, end);
    assert(text.take(end) =~= word);
    assert(text.skip(end) =~= s);
    lemma_lex_token(text, TokenView::Word(word), end);
}

/// The text of a well-formed number is an optional minus sign, a digit,
/// and digits and points after it.
proof fn lemma_number_text(n: NumberView)
    requires
        n.wf(),
    ensures
        unsigned_part(n.text()).len() > 0,
        is_digit(unsigned_part(n.text())[0]),
        forall|i: int|
            0 <= i < unsigned_part(n.text()).len() ==> in_class(
                CharClass::Numeric,
                #[trigger] unsigned_part(n.text())[i],
            ),
{
    let s = n.text();
    match n {
        NumberView::PosInt(v) => {
            lemma_nat_text(v as nat);
            assert(is_digit(s[0]));
        },
        NumberView::BigPosInt(v) => {
            lemma_nat_text(v as nat);
            assert(is_digit(s[0]));
        },
        NumberView::NegInt(v) => {
            lemma_nat_text((-v) as nat);
            assert(s.skip(1) =~= nat_text((-v) as nat));
            assert(is_digit(s.skip(1)[0]));
        },
        NumberView::BigNegInt(v) => {
            lemma_nat_text((-v) as nat);
            assert(s.skip(1) =~= nat_text((-v) as nat));
            assert(is_digit(s.skip(1)[0]));
        },
        NumberView::Float(text) => {},
    }
}

/// The tokens of a text that begins with a number.
proof fn lemma_lex_number(n: NumberView, s: Seq<char>)
    requires
        n.wf(),
        ends_number(s),
    ensures
        lex(n.text() + s) == with_tokens(seq![TokenView::Number(n)], lex(s)),
{
    let literal = n.text();
    let text = literal + s;
    let end = literal.len() as int;
    let start: int = if literal[0] == '-' {
        1
    } else {
        0
    };
    lemma_number_text(n);
    lemma_number_reads_back(n);
    let body = unsigned_part(literal);
    assert(text[0] == literal[0]);
    assert(body[0] == literal[start]);
    assert(text[start] == literal[start]);
    assert forall|k: int| start <= k < end implies in_class(
        CharClass::Numeric,
        #[trigger] text[k],
    ) by {
        assert(text[k] == literal[k]);
        assert(body[k - start] == literal[k]);
    }
    if s.len() > 0 {
        assert(text[end] == s[0]);
    }
    lemma_run_end(text, CharClass::Numeric, start, end);
    assert(text.take(end) =~= literal);
    assert(text.skip(end) =~= s);
    lemma_lex_token(text, TokenView::Number(n), end);
}

/// The tokens of the text of `v` under the options `f`, which do not ask
/// for unions as structs. Of the options only the trailing commas show in
/// them.
pub open spec fn tokens_of(v: ValueView, f: FormatOptions) -> Seq<TokenView>
    decreases v, 0nat, 0nat,
{
    match v {
        ValueView::Null => seq![TokenView::Null],
        ValueView::Bool(b) => seq![TokenView::Bool(b)],
        ValueView::Number(n) => seq![TokenView::Number(n)],
        ValueView::String(text) => seq![TokenView::Word(text)],
        ValueView::Struct(pairs) => seq![TokenView::LeftBrace] + pair_tokens(
            pairs,
            f.structure,
            f,
            0,
        ),
        ValueView::Union(tag, pairs) => seq![
            TokenView::Hash,
            TokenView::Word(tag),
            TokenView::LeftBrace,
        ] + pair_tokens(pairs, f.union, f, 0),
        ValueView::Array(items) => seq![TokenView::LeftBracket] + item_tokens(
            items,
            f.list,
            f,
            0,
        ),
    }
}

/// The comma after the element at `at` of `len`, where there is one: after
/// each but the last, and after the last where the options ask for it.
pub open spec fn comma_tokens(o: ContextOptions, at: int, len: nat) -> Seq<TokenView> {
    if at + 1 < len || o.trailing_comma == Some(true) {
        seq![TokenView::Comma]
    } else {
        Seq::empty()
    }
}

/// The tokens of the pairs from `from` on, and of the closing brace.
pub open spec fn pair_tokens(
    pairs: Seq<(Seq<char>, ValueView)>,
    o: ContextOptions,
    f: FormatOptions,
    from: int,
) -> Seq<TokenView>
    decreases pairs, 0nat, pairs.len() - from,
{
    if 0 <= from < pairs.len() {
        seq![TokenView::Word(pairs[from].0), TokenView::Colon] + tokens_of(pairs[from].1, f)
            + comma_tokens(o, from, pairs.len()) + pair_tokens(pairs, o, f, from + 1)
    } else {
        seq![TokenView::RightBrace]
    }
}

/// The tokens of the items from `from` on, and of the closing bracket.
pub open spec fn item_tokens(
    items: Seq<ValueView>,
    o: ContextOptions,
    f: FormatOptions,
    from: int,
) -> Seq<TokenView>
    decreases items, 0nat, items.len() - from,
{
    if 0 <= from < items.len() {
        tokens_of(items[from], f) + comma_tokens(o, from, items.len()) + item_tokens(
            items,
            o,
            f,
            from + 1,
        )
    } else {
        seq![TokenView::RightBracket]
    }
}

/// What the short texts of the layout are made of.
proof fn lemma_literals()
    ensures
        "{"@ == seq!['{'],
        "}"@ == seq!['}'],
        "["@ == seq!['['],
        "]"@ == seq![']'],
        ","@ == seq![','],
        ", "@ == seq![',', ' '],
        ":"@ == seq![':'],
        ": "@ == seq![':', ' '],
        "    "@ == seq![' ', ' ', ' ', ' '],
{
    reveal_strlit("{");
    reveal_strlit("}");
    reveal_strlit("[");
    reveal_strlit("]");
    reveal_strlit(",");
    reveal_strlit(", ");
    reveal_strlit(":");
    reveal_strlit(": ");
    reveal_strlit("    ");
    assert("{"@ =~= seq!['{']);
    assert("}"@ =~= seq!['}']);
    assert("["@ =~= seq!['[']);
    assert("]"@ =~= seq![']']);
    assert(","@ =~= seq![',']);
    assert(", "@ =~= seq![',', ' ']);
    assert(":"@ =~= seq![':']);
    assert(": "@ =~= seq![':', ' ']);
    assert("    "@ =~= seq![' ', ' ', ' ', ' ']);
}

/// Indentation is white space.
proof fn lemma_indentation_is_whitespace(level: nat)
    ensures
        all_whitespace(indentation(level)),
    decreases level,
{
    if level > 0 {
        lemma_literals();
        lemma_indentation_is_whitespace((level - 1) as nat);
        let before = indentation((level - 1) as nat);
        assert forall|i: int| 0 <= i < indentation(level).len() implies is_whitespace(
            #[trigger] indentation(level)[i],
        ) by {
            if i < before.len() {
                assert(indentation(level)[i] == before[i]);
            } else {
                assert(indentation(level)[i] == "    "@[i - before.len()]);
            }
        }
    }
}

/// What the layout puts around the delimiters is white space.
proof fn lemma_breaks_are_whitespace(o: ContextOptions, level: nat)
    ensures
        all_whitespace(line_break(o, level)),
        all_whitespace(lead(o, level)),
        all_whitespace(inner_break(o, level)),
{
    lemma_indentation_is_whitespace(level);
    let text = line_break(o, level);
    assert forall|i: int| 0 <= i < text.len() implies is_whitespace(#[trigger] text[i]) by {
        if o.indented && i > 0 {
            assert(text[i] == indentation(level)[i - 1]);
        }
    }
}

/// The tokens of a text that begins with what stands between a key and its
/// value.
proof fn lemma_lex_colon(f: FormatOptions, s: Seq<char>)
    ensures
        lex(colon(f) + s) == with_tokens(seq![TokenView::Colon], lex(s)),
{
    lemma_literals();
    if f.space_after_colon {
        assert(colon(f) + s =~= seq![':'] + (seq![' '] + s));
        lemma_lex_mark(':', seq![' '] + s);
        lemma_lex_whitespace(seq![' '], s);
    } else {
        lemma_lex_mark(':', s);
    }
}

/// The tokens of a text that begins with what stands between two elements.
proof fn lemma_lex_comma(o: ContextOptions, f: FormatOptions, level: nat, flat: bool, s: Seq<char>)
    ensures
        lex(comma(o, f, level, flat) + s) == with_tokens(seq![TokenView::Comma], lex(s)),
        comma(o, f, level, flat).len() > 0,
        comma(o, f, level, flat)[0] == ',',
{
    lemma_literals();
    if !flat && o.new_line_after {
        let ws = line_break(o, level);
        lemma_breaks_are_whitespace(o, level);
        assert(comma(o, f, level, flat) + s =~= seq![','] + (ws + s));
        lemma_lex_mark(',', ws + s);
        lemma_lex_whitespace(ws, s);
    } else if f.space_after_comma {
        assert(comma(o, f, level, flat) + s =~= seq![','] + (seq![' '] + s));
        lemma_lex_mark(',', seq![' '] + s);
        lemma_lex_whitespace(seq![' '], s);
    } else {
        lemma_lex_mark(',', s);
    }
}

/// What ends a container: the trailing comma where the options ask for it,
/// white space, and the closing delimiter.
pub open spec fn closing(o: ContextOptions, ws: Seq<char>, close: char) -> Seq<char> {
    trailing(o, false) + ws + seq![close]
}

/// The tokens of a text that begins with the end of a container that is
/// not empty.
proof fn lemma_lex_closing(o: ContextOptions, ws: Seq<char>, close: char, s: Seq<char>)
    requires
        all_whitespace(ws),
        close == '}' || close == ']',
    ensures
        lex(closing(o, ws, close) + s) == with_tokens(
            comma_tokens(o, 0, 1) + seq![mark_token(close)],
            lex(s),
        ),
        ends_number(closing(o, ws, close) + s),
{
    lemma_literals();
    let end = seq![close] + s;
    lemma_lex_mark(close, s);
    lemma_lex_whitespace(ws, end);
    if o.trailing_comma == Some(true) {
        assert(closing(o, ws, close) + s =~= seq![','] + (ws + end));
        lemma_lex_mark(',', ws + end);
        lemma_with_tokens_twice(seq![TokenView::Comma], seq![mark_token(close)], lex(s));
    } else {
        assert(closing(o, ws, close) + s =~= ws + end);
        assert(comma_tokens(o, 0, 1) + seq![mark_token(close)] =~= seq![mark_token(close)]);
        if ws.len() > 0 {
            assert((ws + end)[0] == ws[0]);
        } else {
            assert((ws + end)[0] == close);
        }
    }
}

/// The tokens that end a container which is not empty: the trailing comma
/// where the options ask for it, and the closing delimiter.
pub open spec fn closing_tokens(o: ContextOptions, close: char) -> Seq<TokenView> {
    comma_tokens(o, 0, 1) + seq![mark_token(close)]
}

/// The tokens of a text that begins with a key and what follows a key.
proof fn lemma_lex_key(key: Seq<char>, f: FormatOptions, s: Seq<char>)
    requires
        !key.contains('"'),
    ensures
        lex(quoted(key) + (colon(f) + s)) == with_tokens(
            seq![TokenView::Word(key), TokenView::Colon],
            lex(s),
        ),
{
    lemma_lex_quoted(key, colon(f) + s);
    lemma_lex_colon(f, s);
    lemma_with_tokens_twice(seq![TokenView::Word(key)], seq![TokenView::Colon], lex(s));
    assert(seq![TokenView::Word(key)] + seq![TokenView::Colon] =~= seq![
        TokenView::Word(key),
        TokenView::Colon,
    ]);
}

/// What follows the value of the element at `from`: a comma and the later
/// elements, whose text is `later`, where there are any, and then `end`.
pub open spec fn after_element(
    o: ContextOptions,
    f: FormatOptions,
    level: nat,
    flat: bool,
    from: int,
    len: nat,
    later: Seq<char>,
    end: Seq<char>,
) -> Seq<char> {
    if from + 1 < len {
        comma(o, f, level, flat) + (later + end)
    } else {
        end
    }
}

/// The text of the pairs from `from` on, taken apart.
proof fn lemma_joined_pairs_parts(
    pairs: Seq<(Seq<char>, ValueView)>,
    o: ContextOptions,
    f: FormatOptions,
    level: nat,
    flat: bool,
    from: int,
    end: Seq<char>,
)
    requires
        0 <= from < pairs.len(),
    ensures
        joined_pairs(pairs, o, f, level, flat, from) + end == quoted(pairs[from].0) + (colon(f)
            + (render(pairs[from].1, f, level, flat) + after_element(
            o,
            f,
            level,
            flat,
            from,
            pairs.len(),
            joined_pairs(pairs, o, f, level, flat, from + 1),
            end,
        ))),
{
    let later = joined_pairs(pairs, o, f, level, flat, from + 1);
    let whole = joined_pairs(pairs, o, f, level, flat, from) + end;
    let parts = quoted(pairs[from].0) + (colon(f) + (render(pairs[from].1, f, level, flat)
        + after_element(o, f, level, flat, from, pairs.len(), later, end)));
    assert(whole =~= parts);
}

/// The text of the items from `from` on, taken apart.
proof fn lemma_joined_items_parts(
    items: Seq<ValueView>,
    o: ContextOptions,
    f: FormatOptions,
    level: nat,
    flat: bool,
    from: int,
    end: Seq<char>,
)
    requires
        0 <= from < items.len(),
    ensures
        joined_items(items, o, f, level, flat, from) + end == render(items[from], f, level, flat)
            + after_element(
            o,
            f,
            level,
            flat,
            from,
            items.len(),
            joined_items(items, o, f, level, flat, from + 1),
            end,
        ),
{
    let later = joined_items(items, o, f, level, flat, from + 1);
    let whole = joined_items(items, o, f, level, flat, from) + end;
    let parts = render(items[from], f, level, flat) + after_element(
        o,
        f,
        level,
        flat,
        from,
        items.len(),
        later,
        end,
    );
    assert(whole =~= parts);
}

/// The tokens of what follows the value of an element, given those of the
/// later elements and of the end of the container.
proof fn lemma_lex_after_element(
    o: ContextOptions,
    f: FormatOptions,
    level: nat,
    flat: bool,
    from: int,
    len: nat,
    later: Seq<char>,
    end: Seq<char>,
    later_tokens: Seq<TokenView>,
    close: char,
    rest: Seq<char>,
)
    requires
        0 <= from < len,
        lex(end) == with_tokens(closing_tokens(o, close), lex(rest)),
        ends_number(end),
        from + 1 < len ==> lex(later + end) == with_tokens(later_tokens, lex(rest)),
        from + 1 >= len ==> later_tokens == seq![mark_token(close)],
    ensures
        lex(after_element(o, f, level, flat, from, len, later, end)) == with_tokens(
            comma_tokens(o, from, len) + later_tokens,
            lex(rest),
        ),
        ends_number(after_element(o, f, level, flat, from, len, later, end)),
{
    if from + 1 < len {
        lemma_lex_comma(o, f, level, flat, later + end);
        lemma_with_tokens_twice(seq![TokenView::Comma], later_tokens, lex(rest));
        assert((comma(o, f, level, flat) + (later + end))[0] == ',');
    }
}

/// The tokens of a text that begins with the pairs from `from` on, and
/// goes on with the end of their container.
proof fn lemma_lex_pairs(
    pairs: Seq<(Seq<char>, ValueView)>,
    o: ContextOptions,
    f: FormatOptions,
    level: nat,
    flat: bool,
    from: int,
    end: Seq<char>,
    rest: Seq<char>,
)
    requires
        0 <= from < pairs.len(),
        forall|i: int| 0 <= i < pairs.len() ==> (#[trigger] pairs[i]).1.wf(),
        forall|i: int|
            0 <= i < pairs.len() ==> !(#[trigger] pairs[i]).0.contains('"')
                && pairs[i].1.unambiguous(),
        !f.json_compatible_unions,
        lex(end) == with_tokens(closing_tokens(o, '}'), lex(rest)),
        ends_number(end),
    ensures
        lex(joined_pairs(pairs, o, f, level, flat, from) + end) == with_tokens(
            pair_tokens(pairs, o, f, from),
            lex(rest),
        ),
    decreases pairs, 0nat, pairs.len() - from,
{
    let key = pairs[from].0;
    let value = pairs[from].1;
    let later = joined_pairs(pairs, o, f, level, flat, from + 1);
    let later_tokens = pair_tokens(pairs, o, f, from + 1);
    let after = after_element(o, f, level, flat, from, pairs.len(), later, end);
    if from + 1 < pairs.len() {
        lemma_lex_pairs(pairs, o, f, level, flat, from + 1, end, rest);
    }
    lemma_lex_after_element(
        o,
        f,
        level,
        flat,
        from,
        pairs.len(),
        later,
        end,
        later_tokens,
        '}',
        rest,
    );
    let tail = comma_tokens(o, from, pairs.len()) + later_tokens;
    lemma_lex_value(value, f, level, flat, after);
    lemma_with_tokens_twice(tokens_of(value, f), tail, lex(rest));
    lemma_lex_key(key, f, render(value, f, level, flat) + after);
    lemma_with_tokens_twice(
        seq![TokenView::Word(key), TokenView::Colon],
        tokens_of(value, f) + tail,
        lex(rest),
    );
    lemma_joined_pairs_parts(pairs, o, f, level, flat, from, end);
    assert(seq![TokenView::Word(key), TokenView::Colon] + (tokens_of(value, f) + tail)
        =~= pair_tokens(pairs, o, f, from));
}

/// The tokens of a text that begins with the items from `from` on, and
/// goes on with the end of their array.
proof fn lemma_lex_items(
    items: Seq<ValueView>,
    o: ContextOptions,
    f: FormatOptions,
    level: nat,
    flat: bool,
    from: int,
    end: Seq<char>,
    rest: Seq<char>,
)
    requires
        0 <= from < items.len(),
        forall|i: int| 0 <= i < items.len() ==> (#[trigger] items[i]).wf(),
        forall|i: int| 0 <= i < items.len() ==> (#[trigger] items[i]).unambiguous(),
        !f.json_compatible_unions,
        lex(end) == with_tokens(closing_tokens(o, ']'), lex(rest)),
        ends_number(end),
    ensures
        lex(joined_items(items, o, f, level, flat, from) + end) == with_tokens(
            item_tokens(items, o, f, from),
            lex(rest),
        ),
    decreases items, 0nat, items.len() - from,
{
    let value = items[from];
    let later = joined_items(items, o, f, level, flat, from + 1);
    let later_tokens = item_tokens(items, o, f, from + 1);
    let after = after_element(o, f, level, flat, from, items.len(), later, end);
    if from + 1 < items.len() {
        lemma_lex_items(items, o, f, level, flat, from + 1, end, rest);
    }
    lemma_lex_after_element(
        o,
        f,
        level,
        flat,
        from,
        items.len(),
        later,
        end,
        later_tokens,
        ']',
        rest,
    );
    let tail = comma_tokens(o, from, items.len()) + later_tokens;
    lemma_lex_value(value, f, level, flat, after);
    lemma_with_tokens_twice(tokens_of(value, f), tail, lex(rest));
    lemma_joined_items_parts(items, o, f, level, flat, from, end);
    assert(tokens_of(value, f) + tail =~= item_tokens(items, o, f, from));
}

/// The white space before the opening delimiter of a container.
pub open spec fn space_before(o: ContextOptions, level: nat, flat: bool) -> Seq<char> {
    if flat {
        Seq::empty()
    } else {
        lead(o, level)
    }
}

/// The white space after the opening delimiter of a container that is not
/// empty.
pub open spec fn space_inside(o: ContextOptions, level: nat, flat: bool) -> Seq<char> {
    if flat {
        Seq::empty()
    } else {
        inner_break(o, level + 1)
    }
}

/// The end of a container: of one that is not empty, the trailing comma
/// where the options ask for it, white space and the closing delimiter; of
/// an empty one, the closing delimiter.
pub open spec fn container_end(
    o: ContextOptions,
    level: nat,
    flat: bool,
    close: char,
    empty: bool,
) -> Seq<char> {
    if empty {
        seq![close]
    } else if flat {
        closing(o, Seq::empty(), close)
    } else {
        closing(o, inner_break(o, level), close)
    }
}

/// The parts of a container on one line, grouped from the right.
proof fn lemma_regroup_flat(
    open: Seq<char>,
    body: Seq<char>,
    comma: Seq<char>,
    last: Seq<char>,
    rest: Seq<char>,
)
    ensures
        open + body + comma + last + rest == Seq::<char>::empty() + (open + (Seq::<char>::empty()
            + (body + ((comma + Seq::<char>::empty() + last) + rest)))),
{
    let nothing = Seq::<char>::empty();
    assert(open + body + comma + last + rest =~= nothing + (open + (nothing + (body + ((comma
        + nothing + last) + rest)))));
}

/// The parts of an empty container, grouped from the right.
proof fn lemma_regroup_empty(before: Seq<char>, open: Seq<char>, last: Seq<char>, rest: Seq<char>)
    ensures
        before + open + last + rest == before + (open + (Seq::<char>::empty() + (Seq::<
            char,
        >::empty() + (last + rest)))),
        before + open + Seq::<char>::empty() + Seq::<char>::empty() + last + rest == before + (open
            + (Seq::<char>::empty() + (Seq::<char>::empty() + (last + rest)))),
{
    let nothing = Seq::<char>::empty();
    assert(before + open + last + rest =~= before + (open + (nothing + (nothing + (last
        + rest)))));
    assert(before + open + nothing + nothing + last + rest =~= before + (open + (nothing + (
    nothing + (last + rest)))));
}

/// The parts of a container on several lines, grouped from the right.
proof fn lemma_regroup_broken(
    before: Seq<char>,
    open: Seq<char>,
    inside: Seq<char>,
    body: Seq<char>,
    comma: Seq<char>,
    outside: Seq<char>,
    last: Seq<char>,
    rest: Seq<char>,
)
    ensures
        before + open + inside + body + comma + outside + last + rest == before + (open + (inside
            + (body + ((comma + outside + last) + rest)))),
{
    assert(before + open + inside + body + comma + outside + last + rest =~= before + (open + (
    inside + (body + ((comma + outside + last) + rest)))));
}

/// A container between its delimiters, taken apart.
proof fn lemma_framed_parts(
    o: ContextOptions,
    level: nat,
    flat: bool,
    open: Seq<char>,
    close: char,
    empty: bool,
    body: Seq<char>,
    rest: Seq<char>,
)
    requires
        empty ==> body == Seq::<char>::empty(),
    ensures
        framed(o, level, flat, open, seq![close], empty, body) + rest == space_before(
            o,
            level,
            flat,
        ) + (open + (if empty {
            Seq::empty()
        } else {
            space_inside(o, level, flat)
        } + (body + (container_end(o, level, flat, close, empty) + rest)))),
{
    let nothing = Seq::<char>::empty();
    let last = seq![close];
    let comma = trailing(o, empty);
    if flat {
        if empty {
            assert(comma == nothing);
            lemma_regroup_empty(nothing, open, last, rest);
            lemma_regroup_flat(open, body, comma, last, rest);
            assert(nothing + open =~= open);
            assert(open + body =~= open);
            assert(open + comma =~= open);
        } else {
            lemma_regroup_flat(open, body, comma, last, rest);
        }
    } else if empty {
        lemma_regroup_empty(lead(o, level), open, last, rest);
    } else {
        lemma_regroup_broken(
            lead(o, level),
            open,
            inner_break(o, level + 1),
            body,
            comma,
            inner_break(o, level),
            last,
            rest,
        );
    }
}

/// The tokens of a text that begins with the end of a container.
proof fn lemma_lex_container_end(
    o: ContextOptions,
    level: nat,
    flat: bool,
    close: char,
    empty: bool,
    rest: Seq<char>,
)
    requires
        close == '}' || close == ']',
    ensures
        empty ==> lex(container_end(o, level, flat, close, empty) + rest) == with_tokens(
            seq![mark_token(close)],
            lex(rest),
        ),
        !empty ==> lex(container_end(o, level, flat, close, empty) + rest) == with_tokens(
            closing_tokens(o, close),
            lex(rest),
        ),
        ends_number(container_end(o, level, flat, close, empty) + rest),
{
    lemma_breaks_are_whitespace(o, level);
    if empty {
        lemma_lex_mark(close, rest);
        assert((seq![close] + rest)[0] == close);
    } else if flat {
        lemma_lex_closing(o, Seq::empty(), close, rest);
    } else {
        lemma_lex_closing(o, inner_break(o, level), close, rest);
    }
}

/// The tokens of a text that begins with a container between its
/// delimiters, given the tokens of its opening delimiter and of its body.
proof fn lemma_lex_framed(
    o: ContextOptions,
    level: nat,
    flat: bool,
    open: Seq<char>,
    close: char,
    empty: bool,
    body: Seq<char>,
    rest: Seq<char>,
    open_tokens: Seq<TokenView>,
    body_tokens: Seq<TokenView>,
)
    requires
        close == '}' || close == ']',
        empty ==> body == Seq::<char>::empty() && body_tokens == seq![mark_token(close)],
        !empty ==> lex(body + (container_end(o, level, flat, close, empty) + rest)) == with_tokens(
            body_tokens,
            lex(rest),
        ),
        forall|s: Seq<char>| #[trigger] lex(open + s) == with_tokens(open_tokens, lex(s)),
    ensures
        lex(framed(o, level, flat, open, seq![close], empty, body) + rest) == with_tokens(
            open_tokens + body_tokens,
            lex(rest),
        ),
{
    let end = container_end(o, level, flat, close, empty) + rest;
    let inside = if empty {
        Seq::empty()
    } else {
        space_inside(o, level, flat)
    };
    let before = space_before(o, level, flat);
    lemma_breaks_are_whitespace(o, level);
    lemma_breaks_are_whitespace(o, level + 1);
    lemma_framed_parts(o, level, flat, open, close, empty, body, rest);
    lemma_lex_container_end(o, level, flat, close, empty, rest);
    lemma_lex_whitespace(before, open + (inside + (body + end)));
    assert(lex(open + (inside + (body + end))) == with_tokens(
        open_tokens,
        lex(inside + (body + end)),
    ));
    lemma_lex_whitespace(inside, body + end);
    if empty {
        assert(body + end =~= end);
    }
    lemma_with_tokens_twice(open_tokens, body_tokens, lex(rest));
}

/// The tokens of a text that begins with the opening of a union.
proof fn lemma_lex_union_opening(tag: Seq<char>, s: Seq<char>)
    requires
        is_identifier(tag),
        !begins_like_keyword(tag),
    ensures
        lex((seq!['#'] + tag + seq!['{']) + s) == with_tokens(
            seq![TokenView::Hash, TokenView::Word(tag), TokenView::LeftBrace],
            lex(s),
        ),
{
    let after_tag = seq!['{'] + s;
    assert((seq!['#'] + tag + seq!['{']) + s =~= seq!['#'] + (tag + after_tag));
    lemma_lex_mark('#', tag + after_tag);
    assert(after_tag[0] == '{');
    lemma_lex_identifier(tag, after_tag);
    lemma_lex_mark('{', s);
    lemma_with_tokens_twice(seq![TokenView::Word(tag)], seq![TokenView::LeftBrace], lex(s));
    lemma_with_tokens_twice(
        seq![TokenView::Hash],
        seq![TokenView::Word(tag)] + seq![TokenView::LeftBrace],
        lex(s),
    );
    assert(seq![TokenView::Hash] + (seq![TokenView::Word(tag)] + seq![TokenView::LeftBrace])
        =~= seq![TokenView::Hash, TokenView::Word(tag), TokenView::LeftBrace]);
}

/// The tokens of a text that begins with a container, written on one line
/// or not as `flat` says.
proof fn lemma_lex_container(v: ValueView, f: FormatOptions, level: nat, flat: bool, rest: Seq<char>)
    requires
        v is Struct || v is Union || v is Array,
        v.wf(),
        v.unambiguous(),
        !f.json_compatible_unions,
    ensures
        lex(container_text(v, f, level, flat) + rest) == with_tokens(tokens_of(v, f), lex(rest)),
    decreases v, 1nat, 0nat,
{
    lemma_literals();
    match v {
        ValueView::Struct(pairs) => {
            let o = f.structure;
            let empty = pairs.len() == 0;
            let body = joined_pairs(pairs, o, f, level + 1, flat, 0);
            let end = container_end(o, level, flat, '}', empty) + rest;
            if !empty {
                lemma_lex_container_end(o, level, flat, '}', empty, rest);
                lemma_lex_pairs(pairs, o, f, level + 1, flat, 0, end, rest);
            }
            assert forall|s: Seq<char>| #[trigger]
                lex(seq!['{'] + s) == with_tokens(seq![TokenView::LeftBrace], lex(s)) by {
                lemma_lex_mark('{', s);
            }
            lemma_lex_framed(
                o,
                level,
                flat,
                seq!['{'],
                '}',
                empty,
                body,
                rest,
                seq![TokenView::LeftBrace],
                pair_tokens(pairs, o, f, 0),
            );
        },
        ValueView::Union(tag, pairs) => {
            let o = f.union;
            let empty = pairs.len() == 0;
            let body = joined_pairs(pairs, o, f, level + 1, flat, 0);
            let end = container_end(o, level, flat, '}', empty) + rest;
            let open = seq!['#'] + tag + seq!['{'];
            if !empty {
                lemma_lex_container_end(o, level, flat, '}', empty, rest);
                lemma_lex_pairs(pairs, o, f, level + 1, flat, 0, end, rest);
            }
            assert forall|s: Seq<char>| #[trigger]
                lex(open + s) == with_tokens(
                    seq![TokenView::Hash, TokenView::Word(tag), TokenView::LeftBrace],
                    lex(s),
                ) by {
                lemma_lex_union_opening(tag, s);
            }
            lemma_lex_framed(
                o,
                level,
                flat,
                open,
                '}',
                empty,
                body,
                rest,
                seq![TokenView::Hash, TokenView::Word(tag), TokenView::LeftBrace],
                pair_tokens(pairs, o, f, 0),
            );
        },
        ValueView::Array(items) => {
            let o = f.list;
            let empty = items.len() == 0;
            let body = joined_items(items, o, f, level + 1, flat, 0);
            let end = container_end(o, level, flat, ']', empty) + rest;
            if !empty {
                lemma_lex_container_end(o, level, flat, ']', empty, rest);
                lemma_lex_items(items, o, f, level + 1, flat, 0, end, rest);
            }
            assert forall|s: Seq<char>| #[trigger]
                lex(seq!['['] + s) == with_tokens(seq![TokenView::LeftBracket], lex(s)) by {
                lemma_lex_mark('[', s);
            }
            lemma_lex_framed(
                o,
                level,
                flat,
                seq!['['],
                ']',
                empty,
                body,
                rest,
                seq![TokenView::LeftBracket],
                item_tokens(items, o, f, 0),
            );
        },
        _ => {},
    }
}

/// The tokens of a text that begins with the text of a value are the
/// tokens of the value, and then those of what comes after it.
pub proof fn lemma_lex_value(v: ValueView, f: FormatOptions, level: nat, flat: bool, rest: Seq<char>)
    requires
        v.wf(),
        v.unambiguous(),
        !f.json_compatible_unions,
        ends_number(rest),
    ensures
        lex(render(v, f, level, flat) + rest) == with_tokens(tokens_of(v, f), lex(rest)),
    decreases v, 2nat, 0nat,
{
    match v {
        ValueView::Null => {
            lemma_lex_keyword("null"@, TokenView::Null, rest);
        },
        ValueView::Bool(b) => {
            lemma_lex_keyword(bool_text(b), TokenView::Bool(b), rest);
        },
        ValueView::Number(n) => {
            lemma_lex_number(n, rest);
        },
        ValueView::String(text) => {
            assert forall|i: int| 0 <= i < text.len() implies text[i] != '"' by {
                assert(text.contains(text[i]));
            }
            lemma_lex_quoted(text, rest);
        },
        _ => {
            if flat || fits(options_for(v, f), container_text(v, f, level, true).len()) {
                lemma_lex_container(v, f, level, true, rest);
            } else {
                lemma_lex_container(v, f, level, false, rest);
            }
        },
    }
}

} // verus!
