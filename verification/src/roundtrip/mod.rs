//! What is written can be read: the text of a value denotes that value.

pub mod lexing;
pub mod parsing;

use crate::deserializer::deserialized;
use crate::deserializer::lexer::lex;
use crate::deserializer::parser::{parsed_document, token_at, MAX_DEPTH};
use crate::deserializer::tokens::TokenView;
use crate::error::AonErrorView;
use crate::representation::value::ValueView;
use crate::roundtrip::lexing::{lemma_lex_value, tokens_of};
use crate::roundtrip::parsing::{
    holds_at, lemma_parse_value, lemma_strip_nothing, lemma_tokens_no_comments,
    lemma_tokens_of_len,
};
use crate::serializer::formatter::FormatOptions;
use crate::serializer::layout::render;
use vstd::prelude::*;

verus! {

/// Whether the text of `v` reads back as `v`: the value is well formed and
/// unambiguous, and nests no deeper than the parser follows.
pub open spec fn reads_back(v: ValueView) -> bool {
    &&& v.wf()
    &&& v.unambiguous()
    &&& v.nests_within(MAX_DEPTH as nat)
}

/// The lexer cuts the text of a value into the tokens of the value and
/// `EOF`, whatever white space the layout has put between them.
pub proof fn lemma_text_to_tokens(v: ValueView, f: FormatOptions)
    requires
        v.wf(),
        v.unambiguous(),
        !f.json_compatible_unions,
    ensures
        lex(render(v, f, 0, false)) == Ok::<Seq<TokenView>, AonErrorView>(
            tokens_of(v, f).push(TokenView::EOF),
        ),
{
    let text = render(v, f, 0, false);
    let nothing = Seq::<char>::empty();
    lemma_lex_value(v, f, 0, false, nothing);
    assert(text + nothing =~= text);
    assert(lex(nothing) == Ok::<Seq<TokenView>, AonErrorView>(seq![TokenView::EOF]));
    assert(tokens_of(v, f) + seq![TokenView::EOF] =~= tokens_of(v, f).push(TokenView::EOF));
}

/// The parser reads the tokens of a value and `EOF` as the value.
pub proof fn lemma_tokens_to_value(v: ValueView, f: FormatOptions)
    requires
        v.nests_within(MAX_DEPTH as nat),
    ensures
        parsed_document(tokens_of(v, f).push(TokenView::EOF)) == Ok::<ValueView, AonErrorView>(v),
{
    let part = tokens_of(v, f);
    let tokens = part.push(TokenView::EOF);
    lemma_tokens_no_comments(v, f);
    assert forall|i: int| 0 <= i < tokens.len() implies !((#[trigger] tokens[i]) is Comment) by {
        if i < part.len() {
            assert(tokens[i] == part[i]);
        }
    }
    lemma_strip_nothing(tokens);
    lemma_tokens_of_len(v, f);
    assert(holds_at(tokens, 0, part)) by {
        assert forall|i: int| 0 <= i < part.len() implies tokens[0 + i] == #[trigger] part[i] by {
        }
    }
    lemma_parse_value(tokens, 0, 0, v, f);
    assert(token_at(tokens, 1 + (part.len() - 1)) == TokenView::EOF);
}

/// Reading what was written gives the value back.
///
/// This holds of every layout that writes unions as unions, since a union
/// that is written as a struct is read as a struct; and of every value
/// that [`reads_back`]. The options change the white space and the
/// trailing commas, which the reader passes over.
pub proof fn lemma_round_trip(v: ValueView, f: FormatOptions)
    requires
        reads_back(v),
        !f.json_compatible_unions,
    ensures
        deserialized(render(v, f, 0, false)) == Ok::<ValueView, AonErrorView>(v),
{
    lemma_text_to_tokens(v, f);
    lemma_tokens_to_value(v, f);
}

/// Reading what was written under the sensible default gives the value
/// back.
pub proof fn lemma_round_trip_sensible_default(v: ValueView)
    requires
        reads_back(v),
    ensures
        deserialized(render(v, FormatOptions::sensible_default(), 0, false)) == Ok::<
            ValueView,
            AonErrorView,
        >(v),
{
    lemma_round_trip(v, FormatOptions::sensible_default());
}

/// Reading what was written without any option gives the value back.
pub proof fn lemma_round_trip_compact(v: ValueView)
    requires
        reads_back(v),
    ensures
        deserialized(render(v, FormatOptions::none(), 0, false)) == Ok::<ValueView, AonErrorView>(
            v,
        ),
{
    lemma_round_trip(v, FormatOptions::none());
}

} // verus!
