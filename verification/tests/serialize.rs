use aon::representation::value::Number;
use aon::representation::Value;
use aon::serializer::formatter::Formatter;
use aon::serializer::ToAon;

#[test]
fn test_null() {
    let value = Value::Null;

    assert_eq!(value.to_aon(&Formatter::default()), "null");
}

#[test]
fn test_bool() {
    let value = Value::Bool(true);

    assert_eq!(value.to_aon(&Formatter::default()), "true");

    let value = Value::Bool(false);

    assert_eq!(value.to_aon(&Formatter::default()), "false");
}

#[test]
fn test_number() {
    let value = Value::Number(Number::PosInt(1));
    assert_eq!(value.to_aon(&Formatter::default()), "1");

    let value = Value::Number(Number::Float(1.5f64.to_string()));
    assert_eq!(value.to_aon(&Formatter::default()), "1.5");

    let value = Value::Number(Number::NegInt(-1));
    assert_eq!(value.to_aon(&Formatter::default()), "-1");
}

#[test]
fn test_string() {
    let value = Value::String("Hello, World!".to_owned());

    assert_eq!(value.to_aon(&Formatter::default()), r#""Hello, World!""#);
}

#[test]
fn test_struct() {
    let value = Value::Struct(vec![
        ("name".to_owned(), Value::String("John Doe".to_owned())),
        ("age".to_owned(), Value::Number(Number::PosInt(42))),
    ]);

    assert_eq!(value.to_aon(&Formatter::default()), r#"{"name":"John Doe","age":42}"#);
}

#[test]
fn test_union() {
    let value = Value::Union(
        "person".to_owned(),
        vec![
            ("name".to_owned(), Value::String("John Doe".to_owned())),
            ("age".to_owned(), Value::Number(Number::PosInt(42))),
        ],
    );

    assert_eq!(value.to_aon(&Formatter::default()), r#"#person{"name":"John Doe","age":42}"#);
}

#[test]
fn test_array() {
    let value = Value::Array(vec![
        Value::String("John Doe".to_owned()),
        Value::Number(Number::PosInt(42)),
    ]);

    assert_eq!(value.to_aon(&Formatter::default()), "[\"John Doe\",42]");
}

#[test]
fn test_serialize() {
    let value = Value::Struct(vec![
        ("name".to_owned(), Value::String("John Doe".to_owned())),
        ("age".to_owned(), Value::Number(Number::Float(42.0f64.to_string()))),
        ("is_cool".to_owned(), Value::Bool(true)),
        ("friends".to_owned(), Value::Array(vec![
            Value::String("Jane Doe".to_owned()),
            Value::String("Jack Doe".to_owned()),
        ])),
    ]);

    assert_eq!(
        value.to_aon(&Formatter::default()),
        "{\"name\":\"John Doe\",\"age\":42,\"is_cool\":true,\"friends\":[\"Jane Doe\",\"Jack Doe\"]}"
    );
}
