//! The parser reads the tokens of a value as that value.

use crate::deserializer::parser::{
    parsed_items, parsed_pairs, parsed_value, strip_comments, MAX_DEPTH,
};
use crate::deserializer::tokens::TokenView;
use crate::error::AonErrorView;
use crate::representation::value::ValueView;
use crate::roundtrip::lexing::{comma_tokens, item_tokens, pair_tokens, tokens_of};
use crate::serializer::formatter::{ContextOptions, FormatOptions};
use vstd::prelude::*;

verus! {

/// Whether the tokens `part` stand in `tokens` from `pos` on.
pub open spec fn holds_at(tokens: Seq<TokenView>, pos: int, part: Seq<TokenView>) -> bool {
    &&& 0 <= pos
    &&& pos + part.len() <= tokens.len()
    &&& forall|i: int| 0 <= i < part.len() ==> tokens[pos + i] == #[trigger] part[i]
}

/// Where two runs of tokens stand one after the other, each of them stands.
proof fn lemma_holds_at_split(
    tokens: Seq<TokenView>,
    pos: int,
    first: Seq<TokenView>,
    second: Seq<TokenView>,
)
    requires
        holds_at(tokens, pos, first + second),
    ensures
        holds_at(tokens, pos, first),
        holds_at(tokens, pos + first.len(), second),
{
    let whole = first + second;
    assert forall|i: int| 0 <= i < first.len() implies tokens[pos + i] == #[trigger] first[i] by {
        assert(whole[i] == first[i]);
    }
    assert forall|i: int| 0 <= i < second.len() implies tokens[pos + first.len() + i]
        == #[trigger] second[i] by {
        assert(whole[first.len() + i] == second[i]);
    }
}

/// A value has a token at least.
pub proof fn lemma_tokens_of_len(v: ValueView, f: FormatOptions)
    ensures
        tokens_of(v, f).len() >= 1,
{
}

/// The pairs, with their closing brace, have a token at least.
proof fn lemma_pair_tokens_len(
    pairs: Seq<(Seq<char>, ValueView)>,
    o: ContextOptions,
    f: FormatOptions,
    from: int,
)
    ensures
        pair_tokens(pairs, o, f, from).len() >= 1,
{
}

/// The items, with their closing bracket, have a token at least.
proof fn lemma_item_tokens_len(items: Seq<ValueView>, o: ContextOptions, f: FormatOptions, from: int)
    ensures
        item_tokens(items, o, f, from).len() >= 1,
{
    if 0 <= from < items.len() {
        lemma_tokens_of_len(items[from], f);
    }
}

/// The parser reads the tokens of the pairs from `from` on, and the
/// closing brace, as those pairs.
proof fn lemma_parse_pairs(
    tokens: Seq<TokenView>,
    pos: int,
    depth: nat,
    pairs: Seq<(Seq<char>, ValueView)>,
    o: ContextOptions,
    f: FormatOptions,
    from: int,
)
    requires
        0 <= from <= pairs.len(),
        depth <= MAX_DEPTH,
        holds_at(tokens, pos, pair_tokens(pairs, o, f, from)),
        forall|i: int|
            0 <= i < pairs.len() ==> (#[trigger] pairs[i]).1.nests_within(
                (MAX_DEPTH - depth) as nat,
            ),
    ensures
        parsed_pairs(tokens, pos, depth) == Ok::<(Seq<(Seq<char>, ValueView)>, nat), AonErrorView>(
            (pairs.skip(from), (pair_tokens(pairs, o, f, from).len() - 1) as nat),
        ),
    decreases pairs, 0nat, pairs.len() - from,
{
    let part = pair_tokens(pairs, o, f, from);
    if from == pairs.len() {
        assert(part[0] == TokenView::RightBrace);
        assert(tokens[pos + 0] == part[0]);
        assert(pairs.skip(from) =~= Seq::empty());
    } else {
        let key = pairs[from].0;
        let value = pairs[from].1;
        let head = seq![TokenView::Word(key), TokenView::Colon];
        let body = tokens_of(value, f);
        let commas = comma_tokens(o, from, pairs.len());
        let later = pair_tokens(pairs, o, f, from + 1);
        assert(part == head + body + commas + later);
        assert(part =~= head + (body + (commas + later)));
        lemma_holds_at_split(tokens, pos, head, body + (commas + later));
        lemma_holds_at_split(tokens, pos + 2, body, commas + later);
        lemma_holds_at_split(tokens, pos + 2 + body.len(), commas, later);
        assert(tokens[pos + 0] == head[0]);
        assert(tokens[pos + 1] == head[1]);
        lemma_tokens_of_len(value, f);
        lemma_parse_value(tokens, pos + 2, depth, value, f);
        let next = pos + 2 + body.len();
        lemma_pair_tokens_len(pairs, o, f, from + 1);
        if commas.len() > 0 {
            assert(tokens[next + 0] == commas[0]);
            lemma_parse_pairs(tokens, next + 1, depth, pairs, o, f, from + 1);
            assert(seq![(key, value)] + pairs.skip(from + 1) =~= pairs.skip(from));
        } else {
            assert(later[0] == TokenView::RightBrace);
            assert(tokens[next + 0] == later[0]);
            assert(seq![(key, value)] =~= pairs.skip(from));
        }
    }
}

/// The parser reads the tokens of the items from `from` on, and the
/// closing bracket, as those items.
proof fn lemma_parse_items(
    tokens: Seq<TokenView>,
    pos: int,
    depth: nat,
    items: Seq<ValueView>,
    o: ContextOptions,
    f: FormatOptions,
    from: int,
)
    requires
        0 <= from <= items.len(),
        depth <= MAX_DEPTH,
        holds_at(tokens, pos, item_tokens(items, o, f, from)),
        forall|i: int|
            0 <= i < items.len() ==> (#[trigger] items[i]).nests_within(
                (MAX_DEPTH - depth) as nat,
            ),
    ensures
        parsed_items(tokens, pos, depth) == Ok::<(Seq<ValueView>, nat), AonErrorView>(
            (items.skip(from), (item_tokens(items, o, f, from).len() - 1) as nat),
        ),
    decreases items, 0nat, items.len() - from,
{
    let part = item_tokens(items, o, f, from);
    if from == items.len() {
        assert(part[0] == TokenView::RightBracket);
        assert(tokens[pos + 0] == part[0]);
        assert(items.skip(from) =~= Seq::empty());
    } else {
        let value = items[from];
        let body = tokens_of(value, f);
        let commas = comma_tokens(o, from, items.len());
        let later = item_tokens(items, o, f, from + 1);
        assert(part == body + commas + later);
        assert(part =~= body + (commas + later));
        lemma_holds_at_split(tokens, pos, body, commas + later);
        lemma_holds_at_split(tokens, pos + body.len(), commas, later);
        lemma_tokens_of_len(value, f);
        assert(tokens[pos + 0] == body[0]);
        lemma_parse_value(tokens, pos, depth, value, f);
        let next = pos + body.len();
        lemma_item_tokens_len(items, o, f, from + 1);
        if commas.len() > 0 {
            assert(tokens[next + 0] == commas[0]);
            lemma_parse_items(tokens, next + 1, depth, items, o, f, from + 1);
            assert(seq![value] + items.skip(from + 1) =~= items.skip(from));
        } else {
            assert(later[0] == TokenView::RightBracket);
            assert(tokens[next + 0] == later[0]);
            assert(seq![value] =~= items.skip(from));
        }
    }
}

/// The parser reads the tokens of a value as that value, where the value
/// does not nest deeper than the parser follows.
pub proof fn lemma_parse_value(
    tokens: Seq<TokenView>,
    pos: int,
    depth: nat,
    v: ValueView,
    f: FormatOptions,
)
    requires
        depth <= MAX_DEPTH,
        holds_at(tokens, pos, tokens_of(v, f)),
        v.nests_within((MAX_DEPTH - depth) as nat),
    ensures
        parsed_value(tokens, pos, depth) == Ok::<(ValueView, nat), AonErrorView>(
            (v, (tokens_of(v, f).len() - 1) as nat),
        ),
    decreases v, 1nat, 0nat,
{
    let part = tokens_of(v, f);
    let limit = (MAX_DEPTH - depth) as nat;
    lemma_tokens_of_len(v, f);
    assert(tokens[pos + 0] == part[0]);
    match v {
        ValueView::Struct(pairs) => {
            let inner = pair_tokens(pairs, f.structure, f, 0);
            let open = seq![TokenView::LeftBrace];
            assert(part == open + inner);
            assert(part[0] == open[0]);
            lemma_holds_at_split(tokens, pos, open, inner);
            assert(depth < MAX_DEPTH);
            assert((limit - 1) as nat == (MAX_DEPTH - (depth + 1)) as nat);
            lemma_parse_pairs(tokens, pos + 1, depth + 1, pairs, f.structure, f, 0);
            lemma_pair_tokens_len(pairs, f.structure, f, 0);
            assert(pairs.skip(0) =~= pairs);
        },
        ValueView::Union(tag, pairs) => {
            let inner = pair_tokens(pairs, f.union, f, 0);
            let open = seq![TokenView::Hash, TokenView::Word(tag), TokenView::LeftBrace];
            assert(part == open + inner);
            assert(part[0] == open[0]);
            lemma_holds_at_split(tokens, pos, open, inner);
            assert(tokens[pos + 1] == open[1]);
            assert(tokens[pos + 2] == open[2]);
            assert(depth < MAX_DEPTH);
            assert((limit - 1) as nat == (MAX_DEPTH - (depth + 1)) as nat);
            lemma_parse_pairs(tokens, pos + 3, depth + 1, pairs, f.union, f, 0);
            lemma_pair_tokens_len(pairs, f.union, f, 0);
            assert(pairs.skip(0) =~= pairs);
        },
        ValueView::Array(items) => {
            let inner = item_tokens(items, f.list, f, 0);
            let open = seq![TokenView::LeftBracket];
            assert(part == open + inner);
            assert(part[0] == open[0]);
            lemma_holds_at_split(tokens, pos, open, inner);
            assert(depth < MAX_DEPTH);
            assert((limit - 1) as nat == (MAX_DEPTH - (depth + 1)) as nat);
            lemma_parse_items(tokens, pos + 1, depth + 1, items, f.list, f, 0);
            lemma_item_tokens_len(items, f.list, f, 0);
            assert(items.skip(0) =~= items);
        },
        _ => {},
    }
}

/// Whether no token of `tokens` is a comment.
pub open spec fn no_comments(tokens: Seq<TokenView>) -> bool {
    forall|i: int| 0 <= i < tokens.len() ==> !((#[trigger] tokens[i]) is Comment)
}

/// Where there is no comment, none is taken out.
pub proof fn lemma_strip_nothing(tokens: Seq<TokenView>)
    requires
        no_comments(tokens),
    ensures
        strip_comments(tokens) == tokens,
    decreases tokens.len(),
{
    if tokens.len() > 0 {
        let front = tokens.drop_last();
        assert forall|i: int| 0 <= i < front.len() implies !((#[trigger] front[i]) is Comment) by {
            assert(front[i] == tokens[i]);
        }
        lemma_strip_nothing(front);
        assert(front.push(tokens.last()) =~= tokens);
    }
}

/// Two runs without comments make one without comments.
proof fn lemma_no_comments_add(a: Seq<TokenView>, b: Seq<TokenView>)
    requires
        no_comments(a),
        no_comments(b),
    ensures
        no_comments(a + b),
{
    let whole = a + b;
    assert forall|i: int| 0 <= i < whole.len() implies !((#[trigger] whole[i]) is Comment) by {
        if i < a.len() {
            assert(whole[i] == a[i]);
        } else {
            assert(whole[i] == b[i - a.len()]);
        }
    }
}

/// There is no comment among the tokens of pairs.
proof fn lemma_pair_tokens_no_comments(
    pairs: Seq<(Seq<char>, ValueView)>,
    o: ContextOptions,
    f: FormatOptions,
    from: int,
)
    requires
        0 <= from <= pairs.len(),
    ensures
        no_comments(pair_tokens(pairs, o, f, from)),
    decreases pairs, 0nat, pairs.len() - from,
{
    if from < pairs.len() {
        let head = seq![TokenView::Word(pairs[from].0), TokenView::Colon];
        lemma_tokens_no_comments(pairs[from].1, f);
        lemma_pair_tokens_no_comments(pairs, o, f, from + 1);
        lemma_no_comments_add(head, tokens_of(pairs[from].1, f));
        lemma_no_comments_add(
            head + tokens_of(pairs[from].1, f),
            comma_tokens(o, from, pairs.len()),
        );
        lemma_no_comments_add(
            head + tokens_of(pairs[from].1, f) + comma_tokens(o, from, pairs.len()),
            pair_tokens(pairs, o, f, from + 1),
        );
    }
}

/// There is no comment among the tokens of items.
proof fn lemma_item_tokens_no_comments(
    items: Seq<ValueView>,
    o: ContextOptions,
    f: FormatOptions,
    from: int,
)
    requires
        0 <= from <= items.len(),
    ensures
        no_comments(item_tokens(items, o, f, from)),
    decreases items, 0nat, items.len() - from,
{
    if from < items.len() {
        lemma_tokens_no_comments(items[from], f);
        lemma_item_tokens_no_comments(items, o, f, from + 1);
        lemma_no_comments_add(tokens_of(items[from], f), comma_tokens(o, from, items.len()));
        lemma_no_comments_add(
            tokens_of(items[from], f) + comma_tokens(o, from, items.len()),
            item_tokens(items, o, f, from + 1),
        );
    }
}

/// There is no comment among the tokens of a value.
pub proof fn lemma_tokens_no_comments(v: ValueView, f: FormatOptions)
    ensures
        no_comments(tokens_of(v, f)),
    decreases v, 1nat, 0nat,
{
    match v {
        ValueView::Struct(pairs) => {
            lemma_pair_tokens_no_comments(pairs, f.structure, f, 0);
            lemma_no_comments_add(
                seq![TokenView::LeftBrace],
                pair_tokens(pairs, f.structure, f, 0),
            );
        },
        ValueView::Union(tag, pairs) => {
            lemma_pair_tokens_no_comments(pairs, f.union, f, 0);
            lemma_no_comments_add(
                seq![TokenView::Hash, TokenView::Word(tag), TokenView::LeftBrace],
                pair_tokens(pairs, f.union, f, 0),
            );
        },
        ValueView::Array(items) => {
            lemma_item_tokens_no_comments(items, f.list, f, 0);
            lemma_no_comments_add(seq![TokenView::LeftBracket], item_tokens(items, f.list, f, 0));
        },
        _ => {},
    }
}

} // verus!
