//! The value tree and its numbers.

use crate::representation::decimal::{
    all_digits, decimal_value, int_text, is_digit, is_digit_char, lemma_nat_text, nat_text,
    parse_digits, push_int, push_nat,
};
use crate::text::{bool_text, chars_of, is_identifier, quote, quoted};
use vstd::string::StringExecFns;
use vstd::prelude::*;

verus! {

/// What `s` spells as an unsigned integer: an optional plus sign, then one
/// digit or more.
pub open spec fn unsigned_literal(s: Seq<char>) -> Option<nat> {
    let run = if s.len() > 0 && s[0] == '+' {
        s.skip(1)
    } else {
        s
    };
    if run.len() > 0 && all_digits(run) {
        Some(decimal_value(run))
    } else {
        None
    }
}

/// What `s` spells as a signed integer: an optional plus or minus sign, then
/// one digit or more.
pub open spec fn signed_literal(s: Seq<char>) -> Option<int> {
    if s.len() > 0 && s[0] == '-' {
        let run = s.skip(1);
        if run.len() > 0 && all_digits(run) {
            Some(-(decimal_value(run) as int))
        } else {
            None
        }
    } else {
        match unsigned_literal(s) {
            Some(n) => Some(n as int),
            None => None,
        }
    }
}

/// Whether `s` is the literal of a float: an optional minus sign, a digit,
/// then digits with at most one decimal point among them.
pub open spec fn is_float_literal(s: Seq<char>) -> bool {
    let body = unsigned_part(s);
    &&& body.len() > 0
    &&& is_digit(body[0])
    &&& forall|i: int| 0 <= i < body.len() ==> is_digit(#[trigger] body[i]) || body[i] == '.'
    &&& forall|i: int, j: int|
        #![trigger body[i], body[j]]
        0 <= i < j < body.len() && body[i] == '.' ==> body[j] != '.'
}

/// The number that the literal `s` denotes: the first of unsigned 64 bits,
/// unsigned 128 bits, signed 64 bits, signed 128 bits and float that can
/// hold it, or nothing where none can.
pub open spec fn classify(s: Seq<char>) -> Option<NumberView> {
    let unsigned = unsigned_literal(s);
    let signed = signed_literal(s);
    if unsigned is Some && unsigned->0 <= u64::MAX {
        Some(NumberView::PosInt(unsigned->0 as u64))
    } else if unsigned is Some && unsigned->0 <= u128::MAX {
        Some(NumberView::BigPosInt(unsigned->0 as u128))
    } else if signed is Some && i64::MIN <= signed->0 <= i64::MAX {
        Some(NumberView::NegInt(signed->0 as i64))
    } else if signed is Some && i128::MIN <= signed->0 <= i128::MAX {
        Some(NumberView::BigNegInt(signed->0 as i128))
    } else if is_float_literal(s) {
        Some(NumberView::Float(s))
    } else {
        None
    }
}

/// A numeric literal, tagged by the narrowest width that holds it.
///
/// A float is kept as the decimal text of its literal, so that no digit of
/// it is lost between reading and writing.
#[derive(Debug, PartialEq, Eq)]
pub enum Number {
    /// Unsigned, fits in 64 bits.
    PosInt(u64),
    /// Unsigned, exceeds 64 bits.
    BigPosInt(u128),
    /// Signed, fits in 64 bits.
    NegInt(i64),
    /// Signed, exceeds 64 bits.
    BigNegInt(i128),
    /// Has a fractional part or exceeds every integer range. Holds the
    /// literal as it was written.
    Float(String),
}

/// The mathematical model of a [`Number`].
pub enum NumberView {
    PosInt(u64),
    BigPosInt(u128),
    NegInt(i64),
    BigNegInt(i128),
    Float(Seq<char>),
}

impl NumberView {
    /// The decimal text of the number.
    pub open spec fn text(self) -> Seq<char> {
        match self {
            NumberView::PosInt(v) => nat_text(v as nat),
            NumberView::BigPosInt(v) => nat_text(v as nat),
            NumberView::NegInt(v) => int_text(v as int),
            NumberView::BigNegInt(v) => int_text(v as int),
            NumberView::Float(text) => text,
        }
    }

    /// Whether the number stands in the narrowest variant that holds it: the
    /// big variants hold what the small ones cannot, the signed ones hold
    /// negative numbers only, and a float is a float literal that no integer
    /// variant can hold.
    pub open spec fn wf(self) -> bool {
        match self {
            NumberView::PosInt(_) => true,
            NumberView::BigPosInt(v) => v > u64::MAX,
            NumberView::NegInt(v) => v < 0,
            NumberView::BigNegInt(v) => v < i64::MIN,
            NumberView::Float(text) => is_float_literal(text) && !(signed_literal(text) is Some
                && i128::MIN <= signed_literal(text)->0 <= u128::MAX),
        }
    }
}

impl View for Number {
    type V = NumberView;

    open spec fn view(&self) -> NumberView {
        match self {
            Number::PosInt(v) => NumberView::PosInt(*v),
            Number::BigPosInt(v) => NumberView::BigPosInt(*v),
            Number::NegInt(v) => NumberView::NegInt(*v),
            Number::BigNegInt(v) => NumberView::BigNegInt(*v),
            Number::Float(text) => NumberView::Float(text@),
        }
    }
}

/// The literal without its minus sign, if it has one.
pub open spec fn unsigned_part(s: Seq<char>) -> Seq<char> {
    if s.len() > 0 && s[0] == '-' {
        s.skip(1)
    } else {
        s
    }
}

/// A literal with a decimal point is never read as an integer: where it
/// is the literal of a float it is read as that float, and else as no
/// number at all.
pub proof fn lemma_point_makes_float(s: Seq<char>)
    requires
        s.contains('.'),
    ensures
        classify(s) == if is_float_literal(s) {
            Some(NumberView::Float(s))
        } else {
            None
        },
{
    let at = choose|i: int| 0 <= i < s.len() && s[i] == '.';
    assert(s[at] == '.');
    if s[0] == '+' || s[0] == '-' {
        assert(s.skip(1)[at - 1] == '.');
    }
}

/// The text of a well-formed number is read as that number.
pub proof fn lemma_number_reads_back(n: NumberView)
    requires
        n.wf(),
    ensures
        classify(n.text()) == Some(n),
{
    let s = n.text();
    match n {
        NumberView::PosInt(v) => {
            lemma_nat_text(v as nat);
            assert(is_digit(s[0]));
        },
        NumberView::BigPosInt(v) => {
            lemma_nat_text(v as nat);
            assert(is_digit(s[0]));
        },
        NumberView::NegInt(v) => {
            lemma_nat_text((-v) as nat);
            assert(s.skip(1) =~= nat_text((-v) as nat));
            assert(s[0] == '-');
        },
        NumberView::BigNegInt(v) => {
            lemma_nat_text((-v) as nat);
            assert(s.skip(1) =~= nat_text((-v) as nat));
            assert(s[0] == '-');
        },
        NumberView::Float(text) => {
            if s[0] != '-' {
                assert(unsigned_part(s) == s);
                assert(is_digit(s[0]));
            }
        },
    }
}

/// What the cascade reads is well formed, but for the literals of minus
/// zero, which it reads as `NegInt(0)`.
pub proof fn lemma_classified_is_wf(s: Seq<char>)
    ensures
        classify(s) matches Some(n) ==> n.wf() || n == NumberView::NegInt(0),
{
}

/// Whether `chars` is the literal of a float.
fn is_float_text(chars: &Vec<char>) -> (b: bool)
    ensures
        b == is_float_literal(chars@),
{
    let from: usize = if chars.len() > 0 && chars[0] == '-' {
        1
    } else {
        0
    };
    let ghost body = unsigned_part(chars@);
    assert(body =~= chars@.skip(from as int));
    if from == chars.len() {
        return false;
    }
    assert(chars[from as int] == body[0]);
    if !is_digit_char(chars[from]) {
        return false;
    }
    let mut seen_point = false;
    let mut i: usize = from;
    while i < chars.len()
        invariant
            from <= i <= chars.len(),
            body == chars@.skip(from as int),
            body == unsigned_part(chars@),
            body.len() > 0 && is_digit(body[0]),
            forall|k: int| 0 <= k < i - from ==> is_digit(#[trigger] body[k]) || body[k] == '.',
            forall|k: int, j: int|
                #![trigger body[k], body[j]]
                0 <= k < j < i - from && body[k] == '.' ==> body[j] != '.',
            seen_point <==> exists|k: int| 0 <= k < i - from && #[trigger] body[k] == '.',
        decreases chars.len() - i,
    {
        let c = chars[i];
        assert(c == body[i - from]);
        if c == '.' {
            if seen_point {
                let ghost k = choose|k: int| 0 <= k < i - from && #[trigger] body[k] == '.';
                assert(body[k] == '.' && body[i - from] == '.');
                return false;
            }
            seen_point = true;
        } else if !is_digit_char(c) {
            return false;
        }
        i += 1;
    }
    true
}

impl Number {
    /// Reads a numeric literal and gives the narrowest number that holds it.
    ///
    /// An integer is an optional sign and digits. A float is an optional
    /// minus sign, a digit, and digits with at most one point among them:
    /// an exponent, a plus sign or a point in front, and the names of what
    /// is not finite make no float. The literal of minus zero is read as
    /// `NegInt(0)`.
    pub fn new(string: &str) -> (number: Option<Number>)
        ensures
            number.is_some() == classify(string@).is_some(),
            number matches Some(n) ==> Some(n@) == classify(string@),
    {
        let chars = chars_of(string);
        if chars.len() == 0 {
            return None;
        }
        let first = chars[0];
        if first == '-' {
            match parse_digits(&chars, 1) {
                Some(m) => {
                    if m < 0x8000_0000_0000_0000u128 {
                        return Some(Number::NegInt(-(m as i64)));
                    } else if m == 0x8000_0000_0000_0000u128 {
                        return Some(Number::NegInt(i64::MIN));
                    } else if m < 0x8000_0000_0000_0000_0000_0000_0000_0000u128 {
                        return Some(Number::BigNegInt(-(m as i128)));
                    } else if m == 0x8000_0000_0000_0000_0000_0000_0000_0000u128 {
                        return Some(Number::BigNegInt(i128::MIN));
                    }
                },
                None => {},
            }
        } else {
            let from: usize = if first == '+' {
                1
            } else {
                0
            };
            assert(chars@.skip(0) =~= chars@);
            match parse_digits(&chars, from) {
                Some(m) => {
                    if m <= u64::MAX as u128 {
                        return Some(Number::PosInt(m as u64));
                    } else {
                        return Some(Number::BigPosInt(m));
                    }
                },
                None => {},
            }
        }
        if is_float_text(&chars) {
            Some(Number::Float(string.to_owned()))
        } else {
            None
        }
    }

    /// The decimal text of the number.
    pub fn to_string(&self) -> (text: String)
        ensures
            text@ == self@.text(),
    {
        let mut text = String::new();
        match self {
            Number::PosInt(v) => push_nat(&mut text, *v as u128),
            Number::BigPosInt(v) => push_nat(&mut text, *v),
            Number::NegInt(v) => push_int(&mut text, *v as i128),
            Number::BigNegInt(v) => push_int(&mut text, *v),
            Number::Float(literal) => {
                text.append(literal.as_str());
            },
        }
        text
    }
}

impl Clone for Number {
    fn clone(&self) -> (copy: Self)
        ensures
            copy@ == self@,
    {
        match self {
            Number::PosInt(v) => Number::PosInt(*v),
            Number::BigPosInt(v) => Number::BigPosInt(*v),
            Number::NegInt(v) => Number::NegInt(*v),
            Number::BigNegInt(v) => Number::BigNegInt(*v),
            Number::Float(text) => Number::Float(text.clone()),
        }
    }
}

/// A node of an AON document.
#[derive(Debug, PartialEq)]
pub enum Value {
    Null,
    Bool(bool),
    Number(Number),
    String(String),
    /// Key/value pairs in the order given; keys may repeat.
    Struct(Vec<(String, Value)>),
    /// A struct that carries a tag.
    Union(String, Vec<(String, Value)>),
    Array(Vec<Value>),
}

/// The mathematical model of a [`Value`].
pub enum ValueView {
    Null,
    Bool(bool),
    Number(NumberView),
    String(Seq<char>),
    Struct(Seq<(Seq<char>, ValueView)>),
    Union(Seq<char>, Seq<(Seq<char>, ValueView)>),
    Array(Seq<ValueView>),
}

impl ValueView {
    /// Whether the value is one that a document can denote: every number
    /// in it stands in its narrowest variant, and every tag is a bare
    /// identifier.
    pub open spec fn wf(self) -> bool
        decreases self,
    {
        match self {
            ValueView::Number(n) => n.wf(),
            ValueView::Struct(pairs) => forall|i: int|
                0 <= i < pairs.len() ==> (#[trigger] pairs[i]).1.wf(),
            ValueView::Union(tag, pairs) => is_identifier(tag) && forall|i: int|
                0 <= i < pairs.len() ==> (#[trigger] pairs[i]).1.wf(),
            ValueView::Array(items) => forall|i: int|
                0 <= i < items.len() ==> (#[trigger] items[i]).wf(),
            _ => true,
        }
    }

    /// Whether the text of the value says where each part of it ends: no
    /// string and no key holds a double quote, which nothing could escape,
    /// and no tag begins with `n`, `t` or `f`, as the keywords do.
    pub open spec fn unambiguous(self) -> bool
        decreases self,
    {
        match self {
            ValueView::String(text) => !text.contains('"'),
            ValueView::Struct(pairs) => forall|i: int|
                0 <= i < pairs.len() ==> !(#[trigger] pairs[i]).0.contains('"')
                    && pairs[i].1.unambiguous(),
            ValueView::Union(tag, pairs) => !begins_like_keyword(tag) && forall|i: int|
                0 <= i < pairs.len() ==> !(#[trigger] pairs[i]).0.contains('"')
                    && pairs[i].1.unambiguous(),
            ValueView::Array(items) => forall|i: int|
                0 <= i < items.len() ==> (#[trigger] items[i]).unambiguous(),
            _ => true,
        }
    }

    /// Whether no more than `limit` containers stand inside one another in
    /// the value, itself counted.
    pub open spec fn nests_within(self, limit: nat) -> bool
        decreases self,
    {
        match self {
            ValueView::Struct(pairs) => limit > 0 && forall|i: int|
                0 <= i < pairs.len() ==> (#[trigger] pairs[i]).1.nests_within((limit - 1) as nat),
            ValueView::Union(_, pairs) => limit > 0 && forall|i: int|
                0 <= i < pairs.len() ==> (#[trigger] pairs[i]).1.nests_within((limit - 1) as nat),
            ValueView::Array(items) => limit > 0 && forall|i: int|
                0 <= i < items.len() ==> (#[trigger] items[i]).nests_within((limit - 1) as nat),
            _ => true,
        }
    }
}

/// Whether `s` begins with the first letter of `null`, `true` or `false`.
pub open spec fn begins_like_keyword(s: Seq<char>) -> bool {
    s.len() > 0 && (s[0] == 'n' || s[0] == 't' || s[0] == 'f')
}

/// The models of the pairs of a struct or union body.
pub open spec fn pairs_view(pairs: Seq<(String, Value)>) -> Seq<(Seq<char>, ValueView)>
    decreases pairs,
{
    Seq::new(
        pairs.len(),
        |i: int|
            if 0 <= i < pairs.len() {
                (pairs[i].0@, pairs[i].1@)
            } else {
                arbitrary()
            },
    )
}

/// The models of the items of an array.
pub open spec fn items_view(items: Seq<Value>) -> Seq<ValueView>
    decreases items,
{
    Seq::new(
        items.len(),
        |i: int|
            if 0 <= i < items.len() {
                items[i]@
            } else {
                arbitrary()
            },
    )
}

impl View for Value {
    type V = ValueView;

    open spec fn view(&self) -> ValueView
        decreases self,
    {
        match self {
            Value::Null => ValueView::Null,
            Value::Bool(b) => ValueView::Bool(*b),
            Value::Number(n) => ValueView::Number(n@),
            Value::String(s) => ValueView::String(s@),
            Value::Struct(pairs) => ValueView::Struct(pairs_view(pairs@)),
            Value::Union(tag, pairs) => ValueView::Union(tag@, pairs_view(pairs@)),
            Value::Array(items) => ValueView::Array(items_view(items@)),
        }
    }
}

/// The value on one line, as a message shows it: a comma and a space
/// between elements, and a colon between the tag of a union and its body.
pub open spec fn shown(v: ValueView) -> Seq<char>
    decreases v, 0nat, 0nat,
{
    match v {
        ValueView::Null => "null"@,
        ValueView::Bool(b) => bool_text(b),
        ValueView::Number(n) => n.text(),
        ValueView::String(text) => quoted(text),
        ValueView::Struct(pairs) => seq!['{'] + shown_pairs(pairs, 0) + seq!['}'],
        ValueView::Union(tag, pairs) => seq!['#'] + tag + seq![':', '{'] + shown_pairs(pairs, 0)
            + seq!['}'],
        ValueView::Array(items) => seq!['['] + shown_items(items, 0) + seq![']'],
    }
}

/// The pairs from `from` on, as a message shows them.
pub open spec fn shown_pairs(pairs: Seq<(Seq<char>, ValueView)>, from: int) -> Seq<char>
    decreases pairs, 0nat, pairs.len() - from,
{
    if 0 <= from < pairs.len() {
        quoted(pairs[from].0) + seq![':'] + shown(pairs[from].1) + if from + 1 < pairs.len() {
            seq![',', ' '] + shown_pairs(pairs, from + 1)
        } else {
            Seq::empty()
        }
    } else {
        Seq::empty()
    }
}

/// The items from `from` on, as a message shows them.
pub open spec fn shown_items(items: Seq<ValueView>, from: int) -> Seq<char>
    decreases items, 0nat, items.len() - from,
{
    if 0 <= from < items.len() {
        shown(items[from]) + if from + 1 < items.len() {
            seq![',', ' '] + shown_items(items, from + 1)
        } else {
            Seq::empty()
        }
    } else {
        Seq::empty()
    }
}

/// What is still to be shown of the pairs when those before `from` have
/// been.
spec fn pairs_to_show(pairs: Seq<(Seq<char>, ValueView)>, from: int) -> Seq<char> {
    if 0 < from < pairs.len() {
        seq![',', ' '] + shown_pairs(pairs, from)
    } else {
        shown_pairs(pairs, from)
    }
}

/// What is still to be shown of the items when those before `from` have
/// been.
spec fn items_to_show(items: Seq<ValueView>, from: int) -> Seq<char> {
    if 0 < from < items.len() {
        seq![',', ' '] + shown_items(items, from)
    } else {
        shown_items(items, from)
    }
}

/// Appends the pairs as a message shows them.
fn show_pairs(out: &mut String, pairs: &Vec<(String, Value)>)
    ensures
        final(out)@ == old(out)@ + shown_pairs(pairs_view(pairs@), 0),
    decreases pairs_view(pairs@), 0nat,
{
    let ghost all = pairs_view(pairs@);
    let ghost before = out@;
    let mut i: usize = 0;
    while i < pairs.len()
        invariant
            i <= pairs.len(),
            all == pairs_view(pairs@),
            out@ + pairs_to_show(all, i as int) == before + shown_pairs(all, 0),
        decreases pairs.len() - i,
    {
        let ghost done = out@;
        if i > 0 {
            out.push(',');
            out.push(' ');
        }
        let pair = &pairs[i];
        assert(all[i as int] == (pair.0@, pair.1@));
        let key = quote(pair.0.as_str());
        out.append(key.as_str());
        out.push(':');
        let value = pair.1.to_string();
        out.append(value.as_str());
        proof {
            let sep: Seq<char> = if i > 0 {
                seq![',', ' ']
            } else {
                Seq::empty()
            };
            let item = quoted(pair.0@) + seq![':'] + shown(pair.1@);
            assert(out@ =~= done + sep + item);
            assert(shown_pairs(all, i as int) =~= item + pairs_to_show(all, i + 1));
            assert(done + pairs_to_show(all, i as int) =~= done + sep + item + pairs_to_show(
                all,
                i + 1,
            ));
        }
        i += 1;
    }
    assert(out@ + Seq::<char>::empty() =~= out@);
}

/// Appends the items as a message shows them.
fn show_items(out: &mut String, items: &Vec<Value>)
    ensures
        final(out)@ == old(out)@ + shown_items(items_view(items@), 0),
    decreases items_view(items@), 0nat,
{
    let ghost all = items_view(items@);
    let ghost before = out@;
    let mut i: usize = 0;
    while i < items.len()
        invariant
            i <= items.len(),
            all == items_view(items@),
            out@ + items_to_show(all, i as int) == before + shown_items(all, 0),
        decreases items.len() - i,
    {
        let ghost done = out@;
        if i > 0 {
            out.push(',');
            out.push(' ');
        }
        assert(all[i as int] == items[i as int]@);
        let value = items[i].to_string();
        out.append(value.as_str());
        proof {
            let sep: Seq<char> = if i > 0 {
                seq![',', ' ']
            } else {
                Seq::empty()
            };
            let item = shown(items[i as int]@);
            assert(out@ =~= done + sep + item);
            assert(shown_items(all, i as int) =~= item + items_to_show(all, i + 1));
            assert(done + items_to_show(all, i as int) =~= done + sep + item + items_to_show(
                all,
                i + 1,
            ));
        }
        i += 1;
    }
    assert(out@ + Seq::<char>::empty() =~= out@);
}

impl Value {
    /// The value on one line, as a message shows it.
    pub fn to_string(&self) -> (text: String)
        ensures
            text@ == shown(self@),
        decreases self@, 1nat,
    {
        match self {
            Value::Null => String::from_str("null"),
            Value::Bool(b) => {
                if *b {
                    String::from_str("true")
                } else {
                    String::from_str("false")
                }
            },
            Value::Number(n) => n.to_string(),
            Value::String(text) => quote(text.as_str()),
            Value::Struct(pairs) => {
                let mut text = String::new();
                text.push('{');
                assert(decreases_to!(self@ => self@->Struct_0));
                show_pairs(&mut text, pairs);
                text.push('}');
                assert(text@ =~= shown(self@));
                text
            },
            Value::Union(tag, pairs) => {
                let mut text = String::new();
                text.push('#');
                text.append(tag.as_str());
                text.push(':');
                text.push('{');
                assert(decreases_to!(self@ => self@->Union_1));
                show_pairs(&mut text, pairs);
                text.push('}');
                assert(text@ =~= shown(self@));
                text
            },
            Value::Array(items) => {
                let mut text = String::new();
                text.push('[');
                assert(decreases_to!(self@ => self@->Array_0));
                show_items(&mut text, items);
                text.push(']');
                assert(text@ =~= shown(self@));
                text
            },
        }
    }
}

/// A copy of the pairs of a struct or union body.
fn clone_pairs(pairs: &Vec<(String, Value)>) -> (copy: Vec<(String, Value)>)
    ensures
        pairs_view(copy@) == pairs_view(pairs@),
    decreases pairs,
{
    let mut copy: Vec<(String, Value)> = Vec::new();
    let mut i: usize = 0;
    while i < pairs.len()
        invariant
            i <= pairs.len(),
            copy.len() == i,
            forall|j: int| 0 <= j < i ==> copy[j].0@ == pairs[j].0@ && copy[j].1@ == pairs[j].1@,
        decreases pairs.len() - i,
    {
        let pair = &pairs[i];
        copy.push((pair.0.clone(), pair.1.clone()));
        i += 1;
    }
    assert(pairs_view(copy@) =~= pairs_view(pairs@));
    copy
}

/// A copy of the items of an array.
fn clone_items(items: &Vec<Value>) -> (copy: Vec<Value>)
    ensures
        items_view(copy@) == items_view(items@),
    decreases items,
{
    let mut copy: Vec<Value> = Vec::new();
    let mut i: usize = 0;
    while i < items.len()
        invariant
            i <= items.len(),
            copy.len() == i,
            forall|j: int| 0 <= j < i ==> copy[j]@ == items[j]@,
        decreases items.len() - i,
    {
        copy.push(items[i].clone());
        i += 1;
    }
    assert(items_view(copy@) =~= items_view(items@));
    copy
}

impl Clone for Value {
    fn clone(&self) -> (copy: Self)
        ensures
            copy@ == self@,
        decreases self,
    {
        match self {
            Value::Null => Value::Null,
            Value::Bool(b) => Value::Bool(*b),
            Value::Number(n) => Value::Number(n.clone()),
            Value::String(s) => Value::String(s.clone()),
            Value::Struct(pairs) => Value::Struct(clone_pairs(pairs)),
            Value::Union(tag, pairs) => Value::Union(tag.clone(), clone_pairs(pairs)),
            Value::Array(items) => Value::Array(clone_items(items)),
        }
    }
}

} // verus!
