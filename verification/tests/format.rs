use aon::representation::value::Number;
use aon::representation::Value;
use aon::serializer::formatter::{FormatBuilder, FormatContext, Formatter};
use aon::serializer::ordering::ordering_to_aon;
use aon::serializer::{serialize, ToAon};
use std::cmp::Ordering;

fn person() -> Value {
    Value::Struct(vec![
        ("name".to_owned(), Value::String("John Doe".to_owned())),
        ("age".to_owned(), Value::Number(Number::PosInt(42))),
        (
            "friends".to_owned(),
            Value::Array(vec![
                Value::String("Jane Doe".to_owned()),
                Value::String("Jack Doe".to_owned()),
            ]),
        ),
        (
            "home".to_owned(),
            Value::Union(
                "house".to_owned(),
                vec![("rooms".to_owned(), Value::Number(Number::PosInt(5)))],
            ),
        ),
    ])
}

#[test]
fn default_formatter_has_no_option() {
    let f = Formatter::default();
    for context in [FormatContext::List, FormatContext::Struct, FormatContext::Union, FormatContext::All] {
        assert!(!f.has_new_line_before(context));
        assert!(!f.has_new_line_after(context));
        assert!(!f.has_indented(context));
        assert_eq!(f.has_inline(context), None);
        assert_eq!(f.has_trailing_comma(context), None);
    }
    assert!(!f.has_space_after_colon());
    assert!(!f.has_space_after_comma());
    assert!(!f.has_json_compatible_unions());
}

#[test]
fn sensible_default_options() {
    let f = FormatBuilder::sensible_default().build();
    for context in [FormatContext::List, FormatContext::Struct, FormatContext::Union] {
        assert!(!f.has_new_line_before(context));
        assert!(f.has_new_line_after(context));
        assert!(!f.has_indented(context));
        assert_eq!(f.has_trailing_comma(context), Some(false));
    }
    assert_eq!(f.has_inline(FormatContext::List), Some(30));
    assert_eq!(f.has_inline(FormatContext::Struct), None);
    assert_eq!(f.has_inline(FormatContext::Union), None);
    assert!(f.has_space_after_colon());
    assert!(f.has_space_after_comma());
    assert!(!f.has_json_compatible_unions());
}

#[test]
fn json_like_options() {
    let f = FormatBuilder::json_like().build();
    for context in [FormatContext::List, FormatContext::Struct, FormatContext::Union] {
        assert!(f.has_new_line_before(context));
        assert!(f.has_new_line_after(context));
        assert_eq!(f.has_trailing_comma(context), Some(false));
    }
    assert_eq!(f.has_inline(FormatContext::List), Some(30));
    assert!(f.has_space_after_colon());
    assert!(f.has_space_after_comma());
    assert!(f.has_json_compatible_unions());
}

#[test]
fn nothing_is_stored_under_all() {
    let f = FormatBuilder::new()
        .new_line_before(FormatContext::All)
        .new_line_after(FormatContext::All)
        .inline(FormatContext::All, 7)
        .trailing_comma(FormatContext::All, true)
        .indented(FormatContext::All)
        .build();
    assert!(!f.has_new_line_before(FormatContext::All));
    assert!(!f.has_new_line_after(FormatContext::All));
    assert!(!f.has_indented(FormatContext::All));
    assert_eq!(f.has_inline(FormatContext::All), None);
    assert_eq!(f.has_trailing_comma(FormatContext::All), None);
    assert_eq!(f.has_inline(FormatContext::Union), Some(7));
    assert_eq!(f.has_trailing_comma(FormatContext::List), Some(true));
    assert!(f.has_indented(FormatContext::Struct));
}

#[test]
fn an_option_given_again_overwrites() {
    let f = FormatBuilder::default()
        .inline(FormatContext::List, 30)
        .inline(FormatContext::List, 10)
        .trailing_comma(FormatContext::Struct, true)
        .trailing_comma(FormatContext::Struct, false)
        .inline(FormatContext::Struct, 5)
        .build();
    assert_eq!(f.has_inline(FormatContext::List), Some(10));
    assert_eq!(f.has_inline(FormatContext::Struct), Some(5));
    assert_eq!(f.has_inline(FormatContext::Union), None);
    assert_eq!(f.has_trailing_comma(FormatContext::Struct), Some(false));
    assert_eq!(f.has_trailing_comma(FormatContext::List), None);
}

#[test]
fn compact_layout() {
    assert_eq!(
        serialize(&person(), &Formatter::default()),
        "{\"name\":\"John Doe\",\"age\":42,\"friends\":[\"Jane Doe\",\"Jack Doe\"],\"home\":#house{\"rooms\":5}}"
    );
}

#[test]
fn sensible_default_layout() {
    let f = FormatBuilder::sensible_default().build();
    assert_eq!(
        serialize(&person(), &f),
        "{\n\"name\": \"John Doe\",\n\"age\": 42,\n\"friends\": [\"Jane Doe\", \"Jack Doe\"],\n\"home\": #house{\n\"rooms\": 5\n}\n}"
    );
}

#[test]
fn list_longer_than_the_inline_length_is_broken() {
    let f = FormatBuilder::sensible_default().build();
    let list = Value::Array(vec![
        Value::String("0123456789".to_owned()),
        Value::String("0123456789".to_owned()),
    ]);
    // ["0123456789", "0123456789"] is 28 characters long
    assert_eq!(serialize(&list, &f), "[\"0123456789\", \"0123456789\"]");
    let f = FormatBuilder::sensible_default().inline(FormatContext::List, 27).build();
    assert_eq!(serialize(&list, &f), "[\n\"0123456789\",\n\"0123456789\"\n]");
    let f = FormatBuilder::sensible_default().inline(FormatContext::List, 28).build();
    assert_eq!(serialize(&list, &f), "[\"0123456789\", \"0123456789\"]");
}

#[test]
fn inline_holds_of_all_that_is_inside() {
    let f = FormatBuilder::sensible_default().inline(FormatContext::Struct, 100).build();
    assert_eq!(
        serialize(&person(), &f),
        "{\"name\": \"John Doe\", \"age\": 42, \"friends\": [\"Jane Doe\", \"Jack Doe\"], \"home\": #house{\"rooms\": 5}}"
    );
}

#[test]
fn inline_length_counts_characters() {
    let f = FormatBuilder::new().new_line_after(FormatContext::List).inline(FormatContext::List, 5).build();
    let list = Value::Array(vec![Value::String("\u{e9}\u{e9}\u{e9}".to_owned())]);
    assert_eq!(serialize(&list, &f), "[\"\u{e9}\u{e9}\u{e9}\"]".replace("[", "[\n").replace("]", "\n]"));
    let f = FormatBuilder::new().new_line_after(FormatContext::List).inline(FormatContext::List, 7).build();
    assert_eq!(serialize(&list, &f), "[\"\u{e9}\u{e9}\u{e9}\"]");
}

#[test]
fn indented_layout() {
    let f = FormatBuilder::sensible_default().indented(FormatContext::All).inline(FormatContext::List, 10).build();
    assert_eq!(
        serialize(&person(), &f),
        "{\n    \"name\": \"John Doe\",\n    \"age\": 42,\n    \"friends\": [\n        \"Jane Doe\",\n        \"Jack Doe\"\n    ],\n    \"home\": #house{\n        \"rooms\": 5\n    }\n}"
    );
}

#[test]
fn trailing_commas() {
    let f = FormatBuilder::new().trailing_comma(FormatContext::All, true).build();
    assert_eq!(
        serialize(&person(), &f),
        "{\"name\":\"John Doe\",\"age\":42,\"friends\":[\"Jane Doe\",\"Jack Doe\",],\"home\":#house{\"rooms\":5,},}"
    );
    let f = FormatBuilder::sensible_default().trailing_comma(FormatContext::List, true).inline(FormatContext::List, 0).build();
    assert_eq!(
        serialize(&Value::Array(vec![Value::Null, Value::Bool(false)]), &f),
        "[\nnull,\nfalse,\n]"
    );
}

#[test]
fn empty_containers_stay_closed() {
    let f = FormatBuilder::json_like().indented(FormatContext::All).trailing_comma(FormatContext::All, true).build();
    assert_eq!(serialize(&Value::Struct(vec![]), &f), "{}");
    assert_eq!(serialize(&Value::Array(vec![]), &f), "[]");
    let f = FormatBuilder::sensible_default().trailing_comma(FormatContext::All, true).build();
    assert_eq!(serialize(&Value::Union("unit".to_owned(), vec![]), &f), "#unit{}");
}

#[test]
fn json_like_layout() {
    let f = FormatBuilder::json_like().build();
    assert_eq!(
        serialize(&person(), &f),
        "{\n\"name\": \"John Doe\",\n\"age\": 42,\n\"friends\": [\"Jane Doe\", \"Jack Doe\"],\n\"home\": \n{\n\"#tag\": \"house\",\n\"rooms\": 5\n}\n}"
    );
}

#[test]
fn json_compatible_union() {
    let f = FormatBuilder::new().json_compatible_unions().build();
    assert_eq!(
        serialize(&Value::Union("unit".to_owned(), vec![]), &f),
        "{\"#tag\":\"unit\"}"
    );
    assert_eq!(
        serialize(
            &Value::Union(
                "person".to_owned(),
                vec![
                    ("name".to_owned(), Value::String("John Doe".to_owned())),
                    ("age".to_owned(), Value::Number(Number::PosInt(42))),
                ]
            ),
            &f
        ),
        "{\"#tag\":\"person\",\"name\":\"John Doe\",\"age\":42}"
    );
}

#[test]
fn new_line_before_nested_containers() {
    let f = FormatBuilder::new().new_line_before(FormatContext::List).indented(FormatContext::List).build();
    let value = Value::Array(vec![Value::Array(vec![Value::Null]), Value::Array(vec![])]);
    assert_eq!(serialize(&value, &f), "[\n    [null],\n    []]");
}

#[test]
fn to_aon_of_plain_values() {
    let f = Formatter::default();
    assert_eq!(true.to_aon(&f), "true");
    assert_eq!(false.to_aon(&f), "false");
    assert_eq!(0u64.to_aon(&f), "0");
    assert_eq!(u64::MAX.to_aon(&f), "18446744073709551615");
    assert_eq!(u128::MAX.to_aon(&f), "340282366920938463463374607431768211455");
    assert_eq!(i64::MIN.to_aon(&f), "-9223372036854775808");
    assert_eq!(7i64.to_aon(&f), "7");
    assert_eq!(i128::MIN.to_aon(&f), "-170141183460469231731687303715884105728");
    assert_eq!(i128::MAX.to_aon(&f), "170141183460469231731687303715884105727");
    assert_eq!("a \"b\"".to_owned().to_aon(&f), "\"a \"b\"\"");
    assert_eq!(Number::BigPosInt(1 << 70).to_aon(&f), "1180591620717411303424");
    assert_eq!(Number::Float("-0.5".to_owned()).to_aon(&f), "-0.5");
}

#[test]
fn to_aon_of_options_and_results() {
    let f = Formatter::default();
    assert_eq!(Some(5u64).to_aon(&f), "#some{5}");
    assert_eq!(None::<bool>.to_aon(&f), "#none");
    let ok: Result<bool, String> = Ok(true);
    let err: Result<bool, String> = Err("no".to_owned());
    assert_eq!(ok.to_aon(&f), "#ok{true}");
    assert_eq!(err.to_aon(&f), "#err{\"no\"}");
    assert_eq!(Some(Value::Array(vec![Value::Null])).to_aon(&f), "#some{[null]}");
}

#[test]
fn to_aon_of_orderings() {
    let f = Formatter::default();
    assert_eq!(ordering_to_aon(Ordering::Less, &f), "#less");
    assert_eq!(ordering_to_aon(Ordering::Equal, &f), "#equal");
    assert_eq!(ordering_to_aon(Ordering::Greater, &f), "#greater");
}

#[test]
fn to_aon_of_parts() {
    let f = FormatBuilder::new().space_after_comma().build();
    let pairs = vec![
        ("a".to_owned(), Value::Null),
        ("b".to_owned(), Value::Bool(true)),
    ];
    let tag = "t".to_owned();
    assert_eq!(pairs.to_aon(&f), "{\"a\":null, \"b\":true}");
    assert_eq!((&tag, &pairs).to_aon(&f), "#t{\"a\":null, \"b\":true}");
    assert_eq!(vec![Value::Null, Value::Null].to_aon(&f), "[null, null]");
}
