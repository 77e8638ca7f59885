//! The text of a value under a layout, piece by piece.

use crate::text::{bool_text, quoted};
use crate::representation::value::ValueView;
use crate::serializer::formatter::{ContextOptions, FormatOptions};
use vstd::prelude::*;

verus! {

/// The indentation of a line that stands inside `level` containers: four
/// spaces for each.
pub open spec fn indentation(level: nat) -> Seq<char>
    decreases level,
{
    if level == 0 {
        Seq::empty()
    } else {
        indentation((level - 1) as nat) + "    "@
    }
}

/// A line break, and the indentation of the line that it begins where the
/// container is indented.
pub open spec fn line_break(o: ContextOptions, level: nat) -> Seq<char> {
    if o.indented {
        seq!['\n'] + indentation(level)
    } else {
        seq!['\n']
    }
}

/// What stands before the opening delimiter of a container that is written
/// on several lines. The outermost container gets no line break before it.
pub open spec fn lead(o: ContextOptions, level: nat) -> Seq<char> {
    if o.new_line_before && level > 0 {
        line_break(o, level)
    } else {
        Seq::empty()
    }
}

/// What stands after the opening delimiter and before the closing one of a
/// container that is written on several lines.
pub open spec fn inner_break(o: ContextOptions, level: nat) -> Seq<char> {
    if o.new_line_after {
        line_break(o, level)
    } else {
        Seq::empty()
    }
}

/// What stands between a key and its value.
pub open spec fn colon(f: FormatOptions) -> Seq<char> {
    if f.space_after_colon {
        ": "@
    } else {
        ":"@
    }
}

/// What stands between two elements: a comma, and after it a line break
/// where the container has them, else a space where the layout has them.
pub open spec fn comma(o: ContextOptions, f: FormatOptions, level: nat, flat: bool) -> Seq<char> {
    if !flat && o.new_line_after {
        seq![','] + line_break(o, level)
    } else if f.space_after_comma {
        ", "@
    } else {
        ","@
    }
}

/// What stands after the last element of a container, if it has any.
pub open spec fn trailing(o: ContextOptions, empty: bool) -> Seq<char> {
    if !empty && o.trailing_comma == Some(true) {
        ","@
    } else {
        Seq::empty()
    }
}

/// Whether a container that takes `len` characters on one line is written
/// on one line.
pub open spec fn fits(o: ContextOptions, len: nat) -> bool {
    o.inline matches Some(max_size) && len <= max_size
}

/// The key under which a union written as a struct holds its tag.
pub open spec fn tag_key() -> Seq<char> {
    "#tag"@
}

/// A container whose elements have the text `body`, between its
/// delimiters: on one line where `flat`, else with the line breaks that its
/// options ask for. An empty container is never broken inside.
pub open spec fn framed(
    o: ContextOptions,
    level: nat,
    flat: bool,
    open: Seq<char>,
    close: Seq<char>,
    empty: bool,
    body: Seq<char>,
) -> Seq<char> {
    if flat {
        open + body + trailing(o, empty) + close
    } else if empty {
        lead(o, level) + open + close
    } else {
        lead(o, level) + open + inner_break(o, level + 1) + body + trailing(o, empty)
            + inner_break(o, level) + close
    }
}

/// The options that hold of the container `v`.
pub open spec fn options_for(v: ValueView, f: FormatOptions) -> ContextOptions {
    match v {
        ValueView::Union(_, _) => f.union,
        ValueView::Array(_) => f.list,
        _ => f.structure,
    }
}

/// The text of `v`, which stands inside `level` containers.
///
/// A container is written on one line where `flat` holds, which then holds
/// of all that is in it, or where its options give a length for that and
/// its one line is no longer. Else it is written with the line breaks that
/// its options ask for, and each element decides for itself.
pub open spec fn render(v: ValueView, f: FormatOptions, level: nat, flat: bool) -> Seq<char>
    decreases v, 1nat, 0nat,
{
    match v {
        ValueView::Null => "null"@,
        ValueView::Bool(b) => bool_text(b),
        ValueView::Number(n) => n.text(),
        ValueView::String(text) => quoted(text),
        _ => {
            if flat || fits(options_for(v, f), container_text(v, f, level, true).len()) {
                container_text(v, f, level, true)
            } else {
                container_text(v, f, level, false)
            }
        },
    }
}

/// The text of the container `v`, on one line or not as `flat` says.
pub open spec fn container_text(v: ValueView, f: FormatOptions, level: nat, flat: bool) -> Seq<
    char,
>
    decreases v, 0nat, 0nat,
{
    match v {
        ValueView::Struct(pairs) => framed(
            f.structure,
            level,
            flat,
            "{"@,
            "}"@,
            pairs.len() == 0,
            joined_pairs(pairs, f.structure, f, level + 1, flat, 0),
        ),
        ValueView::Union(tag, pairs) => {
            if f.json_compatible_unions {
                framed(
                    f.union,
                    level,
                    flat,
                    "{"@,
                    "}"@,
                    false,
                    quoted(tag_key()) + colon(f) + quoted(tag) + if pairs.len() > 0 {
                        comma(f.union, f, level + 1, flat) + joined_pairs(
                            pairs,
                            f.union,
                            f,
                            level + 1,
                            flat,
                            0,
                        )
                    } else {
                        Seq::empty()
                    },
                )
            } else {
                framed(
                    f.union,
                    level,
                    flat,
                    seq!['#'] + tag + seq!['{'],
                    "}"@,
                    pairs.len() == 0,
                    joined_pairs(pairs, f.union, f, level + 1, flat, 0),
                )
            }
        },
        ValueView::Array(items) => framed(
            f.list,
            level,
            flat,
            "["@,
            "]"@,
            items.len() == 0,
            joined_items(items, f.list, f, level + 1, flat, 0),
        ),
        _ => Seq::empty(),
    }
}

/// The pairs from `from` on, each as its quoted key, a colon and its
/// value, with commas between them.
pub open spec fn joined_pairs(
    pairs: Seq<(Seq<char>, ValueView)>,
    o: ContextOptions,
    f: FormatOptions,
    level: nat,
    flat: bool,
    from: int,
) -> Seq<char>
    decreases pairs, 0nat, pairs.len() - from,
{
    if 0 <= from < pairs.len() {
        quoted(pairs[from].0) + colon(f) + render(pairs[from].1, f, level, flat) + if from + 1
            < pairs.len() {
            comma(o, f, level, flat) + joined_pairs(pairs, o, f, level, flat, from + 1)
        } else {
            Seq::empty()
        }
    } else {
        Seq::empty()
    }
}

/// The items from `from` on, with commas between them.
pub open spec fn joined_items(
    items: Seq<ValueView>,
    o: ContextOptions,
    f: FormatOptions,
    level: nat,
    flat: bool,
    from: int,
) -> Seq<char>
    decreases items, 0nat, items.len() - from,
{
    if 0 <= from < items.len() {
        render(items[from], f, level, flat) + if from + 1 < items.len() {
            comma(o, f, level, flat) + joined_items(items, o, f, level, flat, from + 1)
        } else {
            Seq::empty()
        }
    } else {
        Seq::empty()
    }
}

} // verus!
