use chatrelay::kv::{apply_request, parse_message, KvStore, Request};

#[test]
fn parse_insert_splits_at_first_separator() {
    match parse_message(&String::from("foo=bar")) {
        Request::Insert { key, value } => {
            assert_eq!(key.as_str(), "foo");
            assert_eq!(value.as_str(), "bar");
        }
        _ => panic!("expected an insert"),
    }
    match parse_message(&String::from("foo=bar=baz")) {
        Request::Insert { key, value } => {
            assert_eq!(key.as_str(), "foo");
            assert_eq!(value.as_str(), "bar=baz");
        }
        _ => panic!("expected an insert"),
    }
    match parse_message(&String::from("=bar")) {
        Request::Insert { key, value } => {
            assert_eq!(key.as_str(), "");
            assert_eq!(value.as_str(), "bar");
        }
        _ => panic!("expected an insert"),
    }
    match parse_message(&String::from("foo=")) {
        Request::Insert { key, value } => {
            assert_eq!(key.as_str(), "foo");
            assert_eq!(value.as_str(), "");
        }
        _ => panic!("expected an insert"),
    }
}

#[test]
fn parse_version_and_query() {
    assert!(matches!(parse_message(&String::from("version")), Request::Version));
    match parse_message(&String::from("foo")) {
        Request::Query(key) => assert_eq!(key.as_str(), "foo"),
        _ => panic!("expected a query"),
    }
    match parse_message(&String::from("version1")) {
        Request::Query(key) => assert_eq!(key.as_str(), "version1"),
        _ => panic!("expected a query"),
    }
}

#[test]
fn insert_then_query_round_trip() {
    let mut store = KvStore::new();
    let none = apply_request(&mut store, parse_message(&String::from("foo=bar")));
    assert!(none.is_none());
    let resp = apply_request(&mut store, parse_message(&String::from("foo"))).unwrap();
    assert_eq!(resp.as_str(), "foo=bar");
}

#[test]
fn later_insert_wins() {
    let mut store = KvStore::new();
    apply_request(&mut store, parse_message(&String::from("foo=bar")));
    apply_request(&mut store, parse_message(&String::from("foo=baz")));
    let resp = apply_request(&mut store, parse_message(&String::from("foo"))).unwrap();
    assert_eq!(resp.as_str(), "foo=baz");
}

#[test]
fn missing_key_reads_as_empty() {
    let mut store = KvStore::new();
    let resp = apply_request(&mut store, parse_message(&String::from("nothere"))).unwrap();
    assert_eq!(resp.as_str(), "nothere=");
}

#[test]
fn version_request_answers_fixed_string() {
    let mut store = KvStore::new();
    let resp = apply_request(&mut store, parse_message(&String::from("version"))).unwrap();
    assert_eq!(resp.as_str(), "version=Ken's Key-Value Store 1.0");
}
