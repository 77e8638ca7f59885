use aon::deserializer::lexer::{
    is_ident_start_char, is_identifier_char, is_numeric_char, is_whitespace_char,
};
use aon::representation::decimal::is_digit_char;
use aon::representation::value::Number;

fn by_std(text: &str) -> Option<Number> {
    if let Ok(v) = text.parse::<u64>() {
        return Some(Number::PosInt(v));
    }
    if let Ok(v) = text.parse::<u128>() {
        return Some(Number::BigPosInt(v));
    }
    if let Ok(v) = text.parse::<i64>() {
        return Some(Number::NegInt(v));
    }
    if let Ok(v) = text.parse::<i128>() {
        return Some(Number::BigNegInt(v));
    }
    let body = text.strip_prefix('-').unwrap_or(text);
    let scanned = body.starts_with(|c: char| c.is_ascii_digit())
        && body.chars().all(|c| c.is_ascii_digit() || c == '.');
    if scanned && text.parse::<f64>().is_ok() {
        return Some(Number::Float(text.to_owned()));
    }
    None
}

fn all_texts(alphabet: &[char], len: usize) -> Vec<String> {
    let mut texts = vec![String::new()];
    let mut last = vec![String::new()];
    for _ in 0..len {
        let mut next = Vec::new();
        for text in &last {
            for c in alphabet {
                let mut longer = text.clone();
                longer.push(*c);
                next.push(longer);
            }
        }
        texts.extend(next.iter().cloned());
        last = next;
    }
    texts
}

#[test]
fn cascade_agrees_with_std_on_short_literals() {
    for text in all_texts(&['0', '1', '9', '.', '-', '+', 'e', ' '], 5) {
        assert_eq!(Number::new(&text), by_std(&text), "{:?}", text);
    }
}

#[test]
fn cascade_agrees_with_std_near_the_boundaries() {
    let mut texts = Vec::new();
    for around in [
        u64::MAX as i128,
        i64::MAX as i128,
        i64::MIN as i128,
        0,
        i128::MAX,
        i128::MIN,
    ] {
        for delta in -3i128..=3 {
            if let Some(v) = around.checked_add(delta) {
                texts.push(v.to_string());
                texts.push(format!("-{}", v));
                texts.push(format!("+{}", v));
                texts.push(format!("00{}", v));
                texts.push(format!("{}.", v));
                texts.push(format!("{}0", v));
            }
        }
    }
    for delta in 0u128..=3 {
        texts.push((u128::MAX - delta).to_string());
        texts.push(format!("-{}", u128::MAX - delta));
        texts.push(format!("{}{}", u128::MAX, delta));
    }
    texts.push("340282366920938463463374607431768211456".to_owned());
    texts.push("170141183460469231731687303715884105728".to_owned());
    texts.push("-170141183460469231731687303715884105729".to_owned());
    texts.push("9".repeat(60));
    for text in texts {
        assert_eq!(Number::new(&text), by_std(&text), "{:?}", text);
    }
}

#[test]
fn a_literal_with_a_point_is_a_float_or_nothing() {
    for text in all_texts(&['0', '7', '.', '-'], 6) {
        if text.contains('.') {
            match Number::new(&text) {
                None => {}
                Some(Number::Float(kept)) => assert_eq!(kept, text),
                Some(other) => panic!("{:?} read as {:?}", text, other),
            }
        }
    }
    assert_eq!(Number::new("1.0"), Some(Number::Float("1.0".to_owned())));
    assert_eq!(Number::new("-0.0"), Some(Number::Float("-0.0".to_owned())));
}

#[test]
fn integers_are_written_as_std_writes_them() {
    let mut v: u128 = 0;
    for _ in 0..200 {
        assert_eq!(Number::BigPosInt(v).to_string(), v.to_string());
        assert_eq!(Number::BigNegInt(v as i128).to_string(), (v as i128).to_string());
        assert_eq!(Number::PosInt(v as u64).to_string(), (v as u64).to_string());
        assert_eq!(Number::NegInt(v as i64).to_string(), (v as i64).to_string());
        v = v.wrapping_mul(6364136223846793005).wrapping_add(1442695040888963407);
        v ^= v << 67;
    }
}

#[test]
fn integers_read_back() {
    for v in [0u64, 1, 9, 10, 99, 100, u64::MAX] {
        assert_eq!(Number::new(&Number::PosInt(v).to_string()), Some(Number::PosInt(v)));
    }
    for v in [u64::MAX as u128 + 1, u128::MAX] {
        assert_eq!(Number::new(&Number::BigPosInt(v).to_string()), Some(Number::BigPosInt(v)));
    }
    for v in [-1i64, -10, i64::MIN] {
        assert_eq!(Number::new(&Number::NegInt(v).to_string()), Some(Number::NegInt(v)));
    }
    for v in [i64::MIN as i128 - 1, i128::MIN] {
        assert_eq!(Number::new(&Number::BigNegInt(v).to_string()), Some(Number::BigNegInt(v)));
    }
}

#[test]
fn character_classes_agree_with_std() {
    for code in 0u32..=0x10ffff {
        if let Some(c) = char::from_u32(code) {
            assert_eq!(is_whitespace_char(c), c.is_whitespace(), "{:?}", c);
            assert_eq!(is_digit_char(c), c.is_ascii_digit(), "{:?}", c);
            assert_eq!(is_ident_start_char(c), c.is_ascii_alphabetic() || c == '_', "{:?}", c);
            assert_eq!(is_identifier_char(c), c.is_ascii_alphanumeric() || c == '_', "{:?}", c);
            assert_eq!(is_numeric_char(c), c.is_ascii_digit() || c == '.', "{:?}", c);
        }
    }
}
