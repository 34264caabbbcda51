use nacos_naming_listener::push::{
    ack_entries, find_entry, handle_push, push_ack, push_data, push_text,
};
use nacos_naming_listener::QueryListResult;
use std::collections::HashMap;

fn read(bytes: &[u8]) -> HashMap<String, String> {
    serde_json::from_slice(bytes).unwrap()
}

fn report(name: Option<&str>, last_ref_time: Option<i64>) -> QueryListResult {
    QueryListResult {
        name: name.map(|name| name.to_owned()),
        checksum: Some("1".to_owned()),
        cache_millis: Some(9),
        last_ref_time,
        hosts: None,
    }
}

#[test]
fn a_pushed_report_is_acknowledged_and_taken_over() {
    let step = handle_push(report(Some("g@@s"), Some(42)));
    let map = read(&step.ack);
    assert_eq!(map.len(), 3);
    assert_eq!(map["type"], "push-ack");
    assert_eq!(map["lastRefTime"], "42");
    assert_eq!(map["data"], "");
    assert_eq!(step.key, "g@@s");
    assert_eq!(step.result.name, Some("g@@s".to_owned()));
    assert_eq!(step.result.cache_millis, Some(9));
    assert_eq!(handle_push(report(None, Some(1))).key, "");
}

#[test]
fn an_ack_says_what_it_acknowledges() {
    let map = read(&push_ack(1650000000123));
    assert_eq!(map.len(), 3);
    assert_eq!(map["type"], "push-ack");
    assert_eq!(map["lastRefTime"], "1650000000123");
    assert_eq!(map["data"], "");
}

#[test]
fn an_ack_without_time_says_zero() {
    assert_eq!(read(&handle_push(report(None, None)).ack)["lastRefTime"], "0");
    assert_eq!(read(&push_ack(-5))["lastRefTime"], "-5");
}

#[test]
fn an_ack_reads_back_as_a_message() {
    assert_eq!(push_text(&push_ack(7)), Some("".to_owned()));
    let entries = ack_entries(7);
    assert_eq!(find_entry(&entries, "lastRefTime"), Some("7".to_owned()));
    assert_eq!(find_entry(&entries, "type"), Some("push-ack".to_owned()));
    assert_eq!(find_entry(&entries, "none"), None);
}

#[test]
fn a_message_carries_its_data() {
    let text = push_text(br#"{"type":"dom","data":"{\"name\":\"g@@s\"}","lastRefTime":"1"}"#);
    assert_eq!(text, Some("{\"name\":\"g@@s\"}".to_owned()));
    assert_eq!(push_text("{\"data\":\"\u{e4}\"}".as_bytes()), Some("\u{e4}".to_owned()));
    assert_eq!(push_text(br#"{"data":"a","data":"b"}"#), Some("b".to_owned()));
}

#[test]
fn other_messages_carry_nothing() {
    assert_eq!(push_text(br#"{"type":"dom"}"#), None);
    assert_eq!(push_text(b"{}"), None);
    assert_eq!(push_text(b""), None);
    assert_eq!(push_text(b"no json"), None);
    assert_eq!(push_text(br#"{"data":1}"#), None);
    assert_eq!(push_text(br#"{"data":"a","lastRefTime":1}"#), None);
    assert_eq!(push_text(&[0xff, 0xfe]), None);
}

#[test]
fn what_cannot_be_unpacked_is_taken_as_it_came() {
    assert_eq!(push_data(Some(vec![1, 2]), vec![3]), vec![1, 2]);
    assert_eq!(push_data(None, vec![3]), vec![3]);
}

#[test]
fn the_first_entry_counts() {
    let entries = vec![
        ("a".to_owned(), "1".to_owned()),
        ("b".to_owned(), "2".to_owned()),
        ("b".to_owned(), "3".to_owned()),
    ];
    assert_eq!(find_entry(&entries, "b"), Some("2".to_owned()));
    assert_eq!(find_entry(&vec![], "b"), None);
}
