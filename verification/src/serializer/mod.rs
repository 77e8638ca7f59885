//! From a value tree to text.

pub mod formatter;
pub mod layout;
pub mod ordering;

use crate::text::{bool_text, quote, quoted};
use crate::representation::decimal::{int_text, nat_text};
use crate::representation::value::{items_view, pairs_view, Number, Value, ValueView};
use crate::serializer::formatter::{ContextOptions, FormatOptions, Formatter};
use crate::serializer::layout::{
    colon, comma, container_text, framed, indentation, inner_break, joined_items,
    joined_pairs, lead, line_break, options_for, render, tag_key, trailing,
};
use vstd::prelude::*;
use vstd::string::{StrSliceExecFns, StringExecFns};

verus! {

/// A struct, a union or an array, by its parts.
enum Container<'a> {
    Struct(&'a Vec<(String, Value)>),
    Union(&'a String, &'a Vec<(String, Value)>),
    Array(&'a Vec<Value>),
}

impl View for Container<'_> {
    type V = ValueView;

    closed spec fn view(&self) -> ValueView {
        match self {
            Container::Struct(pairs) => ValueView::Struct(pairs_view(pairs@)),
            Container::Union(tag, pairs) => ValueView::Union(tag@, pairs_view(pairs@)),
            Container::Array(items) => ValueView::Array(items_view(items@)),
        }
    }
}

/// The indentation of a level is four characters for each container.
proof fn lemma_indentation_len(level: nat)
    ensures
        indentation(level).len() == 4 * level,
    decreases level,
{
    reveal_strlit("    ");
    if level > 0 {
        lemma_indentation_len((level - 1) as nat);
    }
}

/// Appends a line break of a container with the options `o`.
fn push_line_break(out: &mut String, o: &ContextOptions, indent: &str, Ghost(level): Ghost<nat>)
    requires
        indent@ == indentation(level),
    ensures
        final(out)@ == old(out)@ + line_break(*o, level),
{
    out.push('\n');
    if o.indented {
        out.append(indent);
    }
    assert(out@ =~= old(out)@ + line_break(*o, level));
}

/// Appends what stands between two elements.
fn push_comma(
    out: &mut String,
    o: &ContextOptions,
    f: &FormatOptions,
    indent: &str,
    Ghost(level): Ghost<nat>,
    flat: bool,
)
    requires
        indent@ == indentation(level),
    ensures
        final(out)@ == old(out)@ + comma(*o, *f, level, flat),
{
    if !flat && o.new_line_after {
        out.push(',');
        push_line_break(out, o, indent, Ghost(level));
        assert(out@ =~= old(out)@ + comma(*o, *f, level, flat));
    } else if f.space_after_comma {
        out.append(", ");
    } else {
        out.append(",");
    }
}

/// Appends what stands between a key and its value.
fn push_colon(out: &mut String, f: &FormatOptions)
    ensures
        final(out)@ == old(out)@ + colon(*f),
{
    if f.space_after_colon {
        out.append(": ");
    } else {
        out.append(":");
    }
}

/// Puts the text of the elements of a container between its delimiters.
fn frame(
    o: &ContextOptions,
    indent: &str,
    inner_indent: &str,
    Ghost(level): Ghost<nat>,
    flat: bool,
    open: &str,
    close: &str,
    empty: bool,
    body: &str,
) -> (text: String)
    requires
        indent@ == indentation(level),
        inner_indent@ == indentation(level + 1),
    ensures
        text@ == framed(*o, level, flat, open@, close@, empty, body@),
{
    let mut text = String::new();
    let has_trailing = !empty && match o.trailing_comma {
        Some(set) => set,
        None => false,
    };
    if flat {
        text.append(open);
        text.append(body);
        if has_trailing {
            text.append(",");
        }
        text.append(close);
        assert(text@ =~= open@ + body@ + trailing(*o, empty) + close@);
        return text;
    }
    proof {
        lemma_indentation_len(level);
    }
    if o.new_line_before && !indent.is_empty() {
        push_line_break(&mut text, o, indent, Ghost(level));
    }
    assert(text@ =~= lead(*o, level));
    text.append(open);
    if !empty {
        if o.new_line_after {
            push_line_break(&mut text, o, inner_indent, Ghost((level + 1) as nat));
        }
        text.append(body);
        if has_trailing {
            text.append(",");
        }
        if o.new_line_after {
            push_line_break(&mut text, o, indent, Ghost(level));
        }
        text.append(close);
        assert(text@ =~= lead(*o, level) + open@ + inner_break(*o, level + 1) + body@ + trailing(
            *o,
            empty,
        ) + inner_break(*o, level) + close@);
    } else {
        text.append(close);
        assert(text@ =~= lead(*o, level) + open@ + close@);
    }
    text
}

/// What is still to be written of the pairs when those before `from` have
/// been.
spec fn pairs_to_come(
    pairs: Seq<(Seq<char>, ValueView)>,
    o: ContextOptions,
    f: FormatOptions,
    level: nat,
    flat: bool,
    from: int,
) -> Seq<char> {
    if 0 < from < pairs.len() {
        comma(o, f, level, flat) + joined_pairs(pairs, o, f, level, flat, from)
    } else {
        joined_pairs(pairs, o, f, level, flat, from)
    }
}

/// What is still to be written of the items when those before `from` have
/// been.
spec fn items_to_come(
    items: Seq<ValueView>,
    o: ContextOptions,
    f: FormatOptions,
    level: nat,
    flat: bool,
    from: int,
) -> Seq<char> {
    if 0 < from < items.len() {
        comma(o, f, level, flat) + joined_items(items, o, f, level, flat, from)
    } else {
        joined_items(items, o, f, level, flat, from)
    }
}

/// Writes the pairs of a struct or union body, with commas between them.
fn join_pairs(
    pairs: &Vec<(String, Value)>,
    o: &ContextOptions,
    f: &FormatOptions,
    indent: &str,
    Ghost(level): Ghost<nat>,
    flat: bool,
) -> (text: String)
    requires
        indent@ == indentation(level),
    ensures
        text@ == joined_pairs(pairs_view(pairs@), *o, *f, level, flat, 0),
    decreases pairs_view(pairs@), 0nat,
{
    let ghost all = pairs_view(pairs@);
    let mut text = String::new();
    let mut i: usize = 0;
    assert(text@ + pairs_to_come(all, *o, *f, level, flat, 0) =~= joined_pairs(
        all,
        *o,
        *f,
        level,
        flat,
        0,
    ));
    while i < pairs.len()
        invariant
            i <= pairs.len(),
            indent@ == indentation(level),
            all == pairs_view(pairs@),
            text@ + pairs_to_come(all, *o, *f, level, flat, i as int) == joined_pairs(
                all,
                *o,
                *f,
                level,
                flat,
                0,
            ),
        decreases pairs.len() - i,
    {
        let ghost before = text@;
        if i > 0 {
            push_comma(&mut text, o, f, indent, Ghost(level), flat);
        }
        let pair = &pairs[i];
        assert(all[i as int] == (pair.0@, pair.1@));
        let key = quote(pair.0.as_str());
        text.append(key.as_str());
        push_colon(&mut text, f);
        let value = render_value(&pair.1, f, indent, Ghost(level), flat);
        text.append(value.as_str());
        proof {
            let sep = if i > 0 {
                comma(*o, *f, level, flat)
            } else {
                Seq::empty()
            };
            let item = quoted(pair.0@) + colon(*f) + render(pair.1@, *f, level, flat);
            assert(text@ =~= before + sep + item);
            assert(joined_pairs(all, *o, *f, level, flat, i as int) =~= item + pairs_to_come(
                all,
                *o,
                *f,
                level,
                flat,
                i + 1,
            ));
            assert(before + pairs_to_come(all, *o, *f, level, flat, i as int) =~= before + sep
                + item + pairs_to_come(all, *o, *f, level, flat, i + 1));
        }
        i += 1;
    }
    assert(text@ + Seq::<char>::empty() =~= text@);
    text
}

/// Writes the items of an array, with commas between them.
fn join_items(
    items: &Vec<Value>,
    o: &ContextOptions,
    f: &FormatOptions,
    indent: &str,
    Ghost(level): Ghost<nat>,
    flat: bool,
) -> (text: String)
    requires
        indent@ == indentation(level),
    ensures
        text@ == joined_items(items_view(items@), *o, *f, level, flat, 0),
    decreases items_view(items@), 0nat,
{
    let ghost all = items_view(items@);
    let mut text = String::new();
    let mut i: usize = 0;
    assert(text@ + items_to_come(all, *o, *f, level, flat, 0) =~= joined_items(
        all,
        *o,
        *f,
        level,
        flat,
        0,
    ));
    while i < items.len()
        invariant
            i <= items.len(),
            indent@ == indentation(level),
            all == items_view(items@),
            text@ + items_to_come(all, *o, *f, level, flat, i as int) == joined_items(
                all,
                *o,
                *f,
                level,
                flat,
                0,
            ),
        decreases items.len() - i,
    {
        let ghost before = text@;
        if i > 0 {
            push_comma(&mut text, o, f, indent, Ghost(level), flat);
        }
        assert(all[i as int] == items[i as int]@);
        let value = render_value(&items[i], f, indent, Ghost(level), flat);
        text.append(value.as_str());
        proof {
            let sep = if i > 0 {
                comma(*o, *f, level, flat)
            } else {
                Seq::empty()
            };
            let item = render(items[i as int]@, *f, level, flat);
            assert(text@ =~= before + sep + item);
            assert(joined_items(all, *o, *f, level, flat, i as int) =~= item + items_to_come(
                all,
                *o,
                *f,
                level,
                flat,
                i + 1,
            ));
            assert(before + items_to_come(all, *o, *f, level, flat, i as int) =~= before + sep
                + item + items_to_come(all, *o, *f, level, flat, i + 1));
        }
        i += 1;
    }
    assert(text@ + Seq::<char>::empty() =~= text@);
    text
}

/// Writes a container, on one line or not as `flat` says.
fn write_container(
    c: &Container,
    f: &FormatOptions,
    indent: &str,
    Ghost(level): Ghost<nat>,
    flat: bool,
) -> (text: String)
    requires
        indent@ == indentation(level),
    ensures
        text@ == container_text(c@, *f, level, flat),
    decreases c@, 0nat,
{
    let mut inner = String::from_str(indent);
    inner.append("    ");
    let inner_indent = inner.as_str();
    let ghost inner_level = (level + 1) as nat;
    match c {
        Container::Struct(pairs) => {
            let o = f.structure;
            assert(c@ == ValueView::Struct(pairs_view(pairs@)));
            assert(decreases_to!(c@ => c@->Struct_0));
            let body = join_pairs(pairs, &o, f, inner_indent, Ghost(inner_level), flat);
            frame(
                &o,
                indent,
                inner_indent,
                Ghost(level),
                flat,
                "{",
                "}",
                pairs.len() == 0,
                body.as_str(),
            )
        },
        Container::Union(tag, pairs) => {
            let o = f.union;
            assert(c@ == ValueView::Union(tag@, pairs_view(pairs@)));
            assert(decreases_to!(c@ => c@->Union_1));
            let rest = join_pairs(pairs, &o, f, inner_indent, Ghost(inner_level), flat);
            if f.json_compatible_unions {
                let mut body = quote("#tag");
                push_colon(&mut body, f);
                let shown = quote(tag.as_str());
                body.append(shown.as_str());
                if pairs.len() > 0 {
                    push_comma(&mut body, &o, f, inner_indent, Ghost(inner_level), flat);
                    body.append(rest.as_str());
                }
                assert(body@ =~= quoted(tag_key()) + colon(*f) + quoted(tag@) + if pairs.len()
                    > 0 {
                    comma(o, *f, inner_level, flat) + rest@
                } else {
                    Seq::empty()
                });
                frame(
                    &o,
                    indent,
                    inner_indent,
                    Ghost(level),
                    flat,
                    "{",
                    "}",
                    false,
                    body.as_str(),
                )
            } else {
                let mut open = String::new();
                open.push('#');
                open.append(tag.as_str());
                open.push('{');
                assert(open@ =~= seq!['#'] + tag@ + seq!['{']);
                frame(
                    &o,
                    indent,
                    inner_indent,
                    Ghost(level),
                    flat,
                    open.as_str(),
                    "}",
                    pairs.len() == 0,
                    rest.as_str(),
                )
            }
        },
        Container::Array(items) => {
            let o = f.list;
            assert(c@ == ValueView::Array(items_view(items@)));
            assert(decreases_to!(c@ => c@->Array_0));
            let body = join_items(items, &o, f, inner_indent, Ghost(inner_level), flat);
            frame(
                &o,
                indent,
                inner_indent,
                Ghost(level),
                flat,
                "[",
                "]",
                items.len() == 0,
                body.as_str(),
            )
        },
    }
}

/// Writes a container: on one line where `flat` holds or where its options
/// give a length that its one line keeps, else as its options lay it out.
fn render_container(
    c: &Container,
    f: &FormatOptions,
    indent: &str,
    Ghost(level): Ghost<nat>,
    flat: bool,
) -> (text: String)
    requires
        indent@ == indentation(level),
    ensures
        text@ == render(c@, *f, level, flat),
    decreases c@, 1nat,
{
    if flat {
        return write_container(c, f, indent, Ghost(level), true);
    }
    let o = match c {
        Container::Struct(_) => f.structure,
        Container::Union(_, _) => f.union,
        Container::Array(_) => f.list,
    };
    assert(o == options_for(c@, *f));
    match o.inline {
        Some(max_size) => {
            let one_line = write_container(c, f, indent, Ghost(level), true);
            if one_line.as_str().unicode_len() <= max_size {
                one_line
            } else {
                write_container(c, f, indent, Ghost(level), false)
            }
        },
        None => write_container(c, f, indent, Ghost(level), false),
    }
}

/// Writes a value that stands inside `level` containers.
fn render_value(
    value: &Value,
    f: &FormatOptions,
    indent: &str,
    Ghost(level): Ghost<nat>,
    flat: bool,
) -> (text: String)
    requires
        indent@ == indentation(level),
    ensures
        text@ == render(value@, *f, level, flat),
    decreases value@, 2nat,
{
    match value {
        Value::Null => String::from_str("null"),
        Value::Bool(b) => {
            if *b {
                String::from_str("true")
            } else {
                String::from_str("false")
            }
        },
        Value::Number(n) => n.to_string(),
        Value::String(text) => quote(text.as_str()),
        Value::Struct(pairs) => render_container(
            &Container::Struct(pairs),
            f,
            indent,
            Ghost(level),
            flat,
        ),
        Value::Union(tag, pairs) => render_container(
            &Container::Union(tag, pairs),
            f,
            indent,
            Ghost(level),
            flat,
        ),
        Value::Array(items) => render_container(
            &Container::Array(items),
            f,
            indent,
            Ghost(level),
            flat,
        ),
    }
}

/// The text of `value` under the layout `formatter`.
pub fn serialize(value: &Value, formatter: &Formatter) -> (text: String)
    ensures
        text@ == render(value@, formatter@, 0, false),
{
    let options = formatter.options();
    proof {
        reveal_strlit("");
        assert(""@ =~= indentation(0));
    }
    render_value(value, &options, "", Ghost(0), false)
}

/// What can be written as AON text.
pub trait ToAon {
    /// The text of the value under the options `f`.
    spec fn aon(&self, f: FormatOptions) -> Seq<char>;

    /// Writes the value under the layout `formatter`.
    fn to_aon(&self, formatter: &Formatter) -> (text: String)
        ensures
            text@ == self.aon(formatter@),
    ;
}

impl<T: ToAon> ToAon for Option<T> {
    /// `#some{..}` around the text of the value, or `#none`.
    open spec fn aon(&self, f: FormatOptions) -> Seq<char> {
        match self {
            Some(value) => "#some{"@ + value.aon(f) + "}"@,
            None => "#none"@,
        }
    }

    fn to_aon(&self, formatter: &Formatter) -> (text: String) {
        match self {
            Some(value) => {
                let mut text = String::from_str("#some{");
                let inner = value.to_aon(formatter);
                text.append(inner.as_str());
                text.append("}");
                text
            },
            None => String::from_str("#none"),
        }
    }
}

impl<T: ToAon, U: ToAon> ToAon for Result<T, U> {
    /// `#ok{..}` or `#err{..}` around the text of what the result holds.
    open spec fn aon(&self, f: FormatOptions) -> Seq<char> {
        match self {
            Ok(value) => "#ok{"@ + value.aon(f) + "}"@,
            Err(error) => "#err{"@ + error.aon(f) + "}"@,
        }
    }

    fn to_aon(&self, formatter: &Formatter) -> (text: String) {
        match self {
            Ok(value) => {
                let mut text = String::from_str("#ok{");
                let inner = value.to_aon(formatter);
                text.append(inner.as_str());
                text.append("}");
                text
            },
            Err(error) => {
                let mut text = String::from_str("#err{");
                let inner = error.to_aon(formatter);
                text.append(inner.as_str());
                text.append("}");
                text
            },
        }
    }
}

impl ToAon for bool {
    open spec fn aon(&self, f: FormatOptions) -> Seq<char> {
        bool_text(*self)
    }

    fn to_aon(&self, _formatter: &Formatter) -> (text: String) {
        if *self {
            String::from_str("true")
        } else {
            String::from_str("false")
        }
    }
}

impl ToAon for u64 {
    open spec fn aon(&self, f: FormatOptions) -> Seq<char> {
        nat_text(*self as nat)
    }

    fn to_aon(&self, _formatter: &Formatter) -> (text: String) {
        Number::PosInt(*self).to_string()
    }
}

impl ToAon for u128 {
    open spec fn aon(&self, f: FormatOptions) -> Seq<char> {
        nat_text(*self as nat)
    }

    fn to_aon(&self, _formatter: &Formatter) -> (text: String) {
        Number::BigPosInt(*self).to_string()
    }
}

impl ToAon for i64 {
    open spec fn aon(&self, f: FormatOptions) -> Seq<char> {
        int_text(*self as int)
    }

    fn to_aon(&self, _formatter: &Formatter) -> (text: String) {
        Number::NegInt(*self).to_string()
    }
}

impl ToAon for i128 {
    open spec fn aon(&self, f: FormatOptions) -> Seq<char> {
        int_text(*self as int)
    }

    fn to_aon(&self, _formatter: &Formatter) -> (text: String) {
        Number::BigNegInt(*self).to_string()
    }
}

impl ToAon for String {
    /// The text between double quotes, as it is: nothing in it is escaped.
    open spec fn aon(&self, f: FormatOptions) -> Seq<char> {
        quoted(self@)
    }

    fn to_aon(&self, _formatter: &Formatter) -> (text: String) {
        quote(self.as_str())
    }
}

impl ToAon for Vec<(String, Value)> {
    /// The pairs as the body of a struct.
    open spec fn aon(&self, f: FormatOptions) -> Seq<char> {
        render(ValueView::Struct(pairs_view(self@)), f, 0, false)
    }

    fn to_aon(&self, formatter: &Formatter) -> (text: String) {
        let options = formatter.options();
        proof {
            reveal_strlit("");
            assert(""@ =~= indentation(0));
        }
        render_container(&Container::Struct(self), &options, "", Ghost(0), false)
    }
}

impl ToAon for Vec<Value> {
    /// The items as an array.
    open spec fn aon(&self, f: FormatOptions) -> Seq<char> {
        render(ValueView::Array(items_view(self@)), f, 0, false)
    }

    fn to_aon(&self, formatter: &Formatter) -> (text: String) {
        let options = formatter.options();
        proof {
            reveal_strlit("");
            assert(""@ =~= indentation(0));
        }
        render_container(&Container::Array(self), &options, "", Ghost(0), false)
    }
}

impl ToAon for (&String, &Vec<(String, Value)>) {
    /// The tag and the pairs as a union.
    open spec fn aon(&self, f: FormatOptions) -> Seq<char> {
        render(ValueView::Union(self.0@, pairs_view(self.1@)), f, 0, false)
    }

    fn to_aon(&self, formatter: &Formatter) -> (text: String) {
        let options = formatter.options();
        proof {
            reveal_strlit("");
            assert(""@ =~= indentation(0));
        }
        render_container(&Container::Union(self.0, self.1), &options, "", Ghost(0), false)
    }
}

impl ToAon for Number {
    /// The decimal text of the number.
    open spec fn aon(&self, f: FormatOptions) -> Seq<char> {
        self@.text()
    }

    fn to_aon(&self, _formatter: &Formatter) -> (text: String) {
        self.to_string()
    }
}

impl ToAon for Value {
    /// The text of the value as a whole document.
    open spec fn aon(&self, f: FormatOptions) -> Seq<char> {
        render(self@, f, 0, false)
    }

    fn to_aon(&self, formatter: &Formatter) -> (text: String) {
        serialize(self, formatter)
    }
}

} // verus!
