use notify_logger::record::NotificationRecord;
use notify_logger::store::{LogStore, StoreError};
use notify_logger::value::Value;

fn record(ts: i64, app: &str, icon: &str, summary: &str, body: &str) -> NotificationRecord {
    NotificationRecord {
        timestamp: ts,
        app_name: String::from(app),
        app_icon: String::from(icon),
        summary: String::from(summary),
        body: String::from(body),
    }
}

#[test]
fn end_to_end_mail_payload() {
    let payload = vec![
        Value::Text(String::from("Mail")),
        Value::U32(0),
        Value::Text(String::from("")),
        Value::Text(String::from("New message")),
        Value::Text(String::from("From: Bob")),
        Value::Array(vec![]),
        Value::Dict(vec![]),
        Value::I32(5),
    ];
    let ts: i64 = 1700000000;
    let (rec, hints) = notify_logger::record::decode_payload(payload, ts).unwrap();
    assert_eq!(rec.timestamp, ts);
    assert_eq!(rec.app_name, "Mail");
    assert_eq!(rec.app_icon, "");
    assert_eq!(rec.summary, "New message");
    assert_eq!(rec.body, "From: Bob");
    assert!(hints.is_empty());

    let mut store = LogStore::new();
    let line = store.append(&rec).unwrap();
    assert_eq!(line, "1700000000`Mail``New message`From: Bob");
    assert_eq!(store.lines().len(), 1);
    assert_eq!(store.lines()[0], "1700000000`Mail``New message`From: Bob");

    let entries = store.iterate();
    assert_eq!(entries.len(), 1);
    assert_eq!(entries[0].timestamp, ts);
    assert_eq!(entries[0].app_name, "Mail");
    assert_eq!(entries[0].app_icon, "");
    assert_eq!(entries[0].summary, "New message");
    assert_eq!(entries[0].body, "From: Bob");
}

#[test]
fn append_rejects_empty_app_name() {
    let mut store = LogStore::new();
    let r = store.append(&record(1, "", "", "hello", ""));
    assert_eq!(r, Err(StoreError::Invalid));
    assert_eq!(store.lines().len(), 0);
}

#[test]
fn append_rejects_empty_summary() {
    let mut store = LogStore::new();
    let r = store.append(&record(1, "app", "", "", "body"));
    assert_eq!(r, Err(StoreError::Invalid));
    assert_eq!(store.lines().len(), 0);
}

#[test]
fn append_sanitizes_reserved_characters() {
    let mut store = LogStore::new();
    let line = store
        .append(&record(42, "a`pp", "ic\non", "su`mm\rary", "bo\ndy"))
        .unwrap();
    assert_eq!(line, "42`app`icon`summary`body");
    let entries = store.iterate();
    assert_eq!(entries.len(), 1);
    assert_eq!(entries[0].app_name, "app");
    assert_eq!(entries[0].app_icon, "icon");
    assert_eq!(entries[0].summary, "summary");
    assert_eq!(entries[0].body, "body");
}

#[test]
fn append_then_iterate_round_trips_fields() {
    let mut store = LogStore::new();
    store
        .append(&record(-77, "Chat", "/tmp/i.png", "Ping", "are you there?"))
        .unwrap();
    let entries = store.iterate();
    assert_eq!(entries.len(), 1);
    assert_eq!(entries[0].timestamp, -77);
    assert_eq!(entries[0].app_name, "Chat");
    assert_eq!(entries[0].app_icon, "/tmp/i.png");
    assert_eq!(entries[0].summary, "Ping");
    assert_eq!(entries[0].body, "are you there?");
}

#[test]
fn extreme_timestamps_round_trip() {
    let mut store = LogStore::new();
    store.append(&record(i64::MIN, "a", "", "s", "")).unwrap();
    store.append(&record(i64::MAX, "b", "", "t", "")).unwrap();
    assert_eq!(store.lines()[0], "-9223372036854775808`a``s`");
    assert_eq!(store.lines()[1], "9223372036854775807`b``t`");
    let entries = store.iterate();
    assert_eq!(entries[0].timestamp, i64::MIN);
    assert_eq!(entries[1].timestamp, i64::MAX);
}

fn store_with(lines: &[&str]) -> LogStore {
    LogStore::from_lines(lines.iter().map(|l| String::from(*l)).collect())
}

#[test]
fn delete_removes_every_line_with_the_identity() {
    let mut store = store_with(&[
        "100`a``s`x",
        "200`b``t`y",
        "100`c``u`z",
        "no delimiter here",
        "bad`d``v`w",
    ]);
    store.delete_by_id(100);
    let lines = store.lines();
    assert_eq!(lines.len(), 3);
    assert_eq!(lines[0], "200`b``t`y");
    assert_eq!(lines[1], "no delimiter here");
    assert_eq!(lines[2], "bad`d``v`w");
}

#[test]
fn delete_missing_identity_is_a_no_op() {
    let mut store = store_with(&["100`a``s`x", "200`b``t`y"]);
    store.delete_by_id(999);
    let lines = store.lines();
    assert_eq!(lines.len(), 2);
    assert_eq!(lines[0], "100`a``s`x");
    assert_eq!(lines[1], "200`b``t`y");
}

#[test]
fn delete_twice_equals_delete_once() {
    let mut once = store_with(&["1`a``s`", "2`b``t`", "1`c``u`"]);
    let mut twice = store_with(&["1`a``s`", "2`b``t`", "1`c``u`"]);
    once.delete_by_id(1);
    twice.delete_by_id(1);
    twice.delete_by_id(1);
    assert_eq!(once.lines(), twice.lines());
}

#[test]
fn iterate_skips_unparsable_lines() {
    let store = store_with(&[
        "10`app`icon`sum`body",
        "too`few",
        "notanumber`a`b`c`d",
        "11`x``y`",
    ]);
    let entries = store.iterate();
    assert_eq!(entries.len(), 2);
    assert_eq!(entries[0].timestamp, 10);
    assert_eq!(entries[1].timestamp, 11);
    assert_eq!(entries[1].summary, "y");
}

#[test]
fn iterate_keeps_extra_fields_out_of_the_body() {
    let store = store_with(&["5`a`i`s`body`extra"]);
    let entries = store.iterate();
    assert_eq!(entries.len(), 1);
    assert_eq!(entries[0].body, "body");
}

#[test]
fn parse_line_requires_five_fields_and_a_timestamp() {
    assert!(notify_logger::store::parse_line("1`2`3`4").is_none());
    assert!(notify_logger::store::parse_line("x`2`3`4`5").is_none());
    let e = notify_logger::store::parse_line("-5`app`ic`sum`bo").unwrap();
    assert_eq!(e.timestamp, -5);
    assert_eq!(e.app_name, "app");
    assert_eq!(e.app_icon, "ic");
    assert_eq!(e.summary, "sum");
    assert_eq!(e.body, "bo");
}
