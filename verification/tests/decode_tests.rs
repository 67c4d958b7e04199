use notify_logger::num::{parse_i64, render_i64};
use notify_logger::record::{decode_payload, DecodeError};
use notify_logger::value::Value;

fn good_payload() -> Vec<Value> {
    vec![
        Value::Text(String::from("app")),
        Value::U32(7),
        Value::Text(String::from("icon")),
        Value::Text(String::from("summary")),
        Value::Text(String::from("body")),
        Value::Array(vec![Value::Text(String::from("default"))]),
        Value::Dict(vec![(String::from("urgency"), Value::Byte(1))]),
        Value::I32(-1),
    ]
}

#[test]
fn decode_accepts_the_schema_and_stamps_the_time() {
    let (rec, hints) = decode_payload(good_payload(), 123).unwrap();
    assert_eq!(rec.timestamp, 123);
    assert_eq!(rec.app_name, "app");
    assert_eq!(rec.app_icon, "icon");
    assert_eq!(rec.summary, "summary");
    assert_eq!(rec.body, "body");
    assert_eq!(hints.len(), 1);
    assert_eq!(hints[0].0, "urgency");
}

#[test]
fn decode_rejects_wrong_arity() {
    let mut p = good_payload();
    p.pop();
    assert_eq!(decode_payload(p, 1).unwrap_err(), DecodeError::Shape);
    let mut p = good_payload();
    p.push(Value::I32(0));
    assert_eq!(decode_payload(p, 1).unwrap_err(), DecodeError::Shape);
}

#[test]
fn decode_rejects_wrong_element_types() {
    for i in 0..8 {
        let mut p = good_payload();
        p[i] = Value::Other;
        assert_eq!(decode_payload(p, 1).unwrap_err(), DecodeError::Shape);
    }
    let mut p = good_payload();
    p[5] = Value::Array(vec![Value::Text(String::from("ok")), Value::Byte(0)]);
    assert_eq!(decode_payload(p, 1).unwrap_err(), DecodeError::Shape);
}

fn chars(s: &str) -> Vec<char> {
    s.chars().collect()
}

fn rendered(n: i64) -> String {
    render_i64(n).into_iter().collect()
}

#[test]
fn render_writes_plain_decimal() {
    assert_eq!(rendered(0), "0");
    assert_eq!(rendered(42), "42");
    assert_eq!(rendered(-7), "-7");
    assert_eq!(rendered(i64::MAX), "9223372036854775807");
    assert_eq!(rendered(i64::MIN), "-9223372036854775808");
}

#[test]
fn parse_follows_the_signed_decimal_grammar() {
    assert_eq!(parse_i64(&chars("0")), Some(0));
    assert_eq!(parse_i64(&chars("007")), Some(7));
    assert_eq!(parse_i64(&chars("+5")), Some(5));
    assert_eq!(parse_i64(&chars("-0")), Some(0));
    assert_eq!(parse_i64(&chars("9223372036854775807")), Some(i64::MAX));
    assert_eq!(parse_i64(&chars("-9223372036854775808")), Some(i64::MIN));
    assert_eq!(parse_i64(&chars("")), None);
    assert_eq!(parse_i64(&chars("+")), None);
    assert_eq!(parse_i64(&chars("-")), None);
    assert_eq!(parse_i64(&chars("+-5")), None);
    assert_eq!(parse_i64(&chars("12a")), None);
    assert_eq!(parse_i64(&chars(" 12")), None);
    assert_eq!(parse_i64(&chars("9223372036854775808")), None);
    assert_eq!(parse_i64(&chars("-9223372036854775809")), None);
    assert_eq!(parse_i64(&chars("99999999999999999999")), None);
}

#[test]
fn every_value_parses_back_to_itself() {
    for n in [0i64, 1, -1, 999, -1000, i64::MAX, i64::MIN, 1700000000] {
        assert_eq!(parse_i64(&chars(&rendered(n))), Some(n));
    }
}
