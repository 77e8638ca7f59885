use aon::deserializer::deserialize;
use aon::representation::value::Number;
use aon::representation::Value;
use aon::serializer::formatter::{FormatBuilder, FormatContext, Formatter};
use aon::serializer::serialize;

fn sample() -> Value {
    Value::Struct(vec![
        ("name".to_owned(), Value::String("John Doe".to_owned())),
        ("age".to_owned(), Value::Number(Number::PosInt(42))),
        ("debt".to_owned(), Value::Number(Number::NegInt(-7))),
        ("big".to_owned(), Value::Number(Number::BigPosInt(u128::MAX))),
        ("low".to_owned(), Value::Number(Number::BigNegInt(i128::MIN))),
        ("ratio".to_owned(), Value::Number(Number::Float("0.25".to_owned()))),
        ("cool".to_owned(), Value::Bool(true)),
        ("none".to_owned(), Value::Null),
        ("empty".to_owned(), Value::Struct(vec![])),
        (
            "friends".to_owned(),
            Value::Array(vec![
                Value::String("Jane Doe".to_owned()),
                Value::Array(vec![]),
                Value::Union(
                    "person".to_owned(),
                    vec![("name".to_owned(), Value::String("it's // not a comment".to_owned()))],
                ),
                Value::Union("unit".to_owned(), vec![]),
            ]),
        ),
        ("name".to_owned(), Value::String("".to_owned())),
    ])
}

#[test]
fn round_trip_sensible_default() {
    let f = FormatBuilder::sensible_default().build();
    let text = serialize(&sample(), &f);
    assert_eq!(deserialize(&text), Ok(sample()));
}

#[test]
fn round_trip_compact() {
    let text = serialize(&sample(), &Formatter::default());
    assert_eq!(deserialize(&text), Ok(sample()));
}

#[test]
fn round_trip_with_every_option_but_json_unions() {
    let f = FormatBuilder::sensible_default()
        .new_line_before(FormatContext::All)
        .indented(FormatContext::All)
        .trailing_comma(FormatContext::All, true)
        .inline(FormatContext::Union, 12)
        .build();
    let text = serialize(&sample(), &f);
    assert_eq!(deserialize(&text), Ok(sample()));
}

#[test]
fn json_union_reads_back_as_struct() {
    let f = FormatBuilder::json_like().build();
    let value = Value::Union("unit".to_owned(), vec![("a".to_owned(), Value::Null)]);
    let text = serialize(&value, &f);
    assert_eq!(
        deserialize(&text),
        Ok(Value::Struct(vec![
            ("#tag".to_owned(), Value::String("unit".to_owned())),
            ("a".to_owned(), Value::Null),
        ]))
    );
}

#[test]
fn what_does_not_read_back() {
    let f = Formatter::default();
    // a float without a fraction is read as an integer
    let text = serialize(&Value::Number(Number::Float(42.0f64.to_string())), &f);
    assert_eq!(deserialize(&text), Ok(Value::Number(Number::PosInt(42))));
    // minus zero is written without its sign
    let text = serialize(&Value::Number(Number::NegInt(0)), &f);
    assert_eq!(deserialize(&text), Ok(Value::Number(Number::PosInt(0))));
    // a quote ends a string
    let text = serialize(&Value::String("a\"b".to_owned()), &f);
    assert!(deserialize(&text) != Ok(Value::String("a\"b".to_owned())));
    // a tag that begins like a keyword is taken for the keyword
    let text = serialize(&Value::Union("none".to_owned(), vec![]), &f);
    assert!(deserialize(&text).is_err());
}
