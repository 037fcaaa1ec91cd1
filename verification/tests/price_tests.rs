use chatrelay::price::{parse_message, Message, PriceStore};

#[test]
fn parse_message_insert() {
    let mut buf = [0u8; 9];
    buf[0] = b'I';
    buf[1..5].copy_from_slice(&5i32.to_be_bytes());
    buf[5..9].copy_from_slice(&100i32.to_be_bytes());
    let m = parse_message(buf);
    assert_eq!(m, Some(Message::InsertMessage { timestamp: 5, price: 100 }));
}

#[test]
fn parse_message_insert_negative() {
    let mut buf = [0u8; 9];
    buf[0] = b'I';
    buf[1..5].copy_from_slice(&(-1i32).to_be_bytes());
    buf[5..9].copy_from_slice(&(-2147483648i32).to_be_bytes());
    let m = parse_message(buf);
    assert_eq!(
        m,
        Some(Message::InsertMessage { timestamp: -1, price: -2147483648 })
    );
}

#[test]
fn parse_message_query() {
    let mut buf = [0u8; 9];
    buf[0] = b'Q';
    buf[1..5].copy_from_slice(&1000i32.to_be_bytes());
    buf[5..9].copy_from_slice(&2000i32.to_be_bytes());
    let m = parse_message(buf);
    assert_eq!(m, Some(Message::QueryMessage { mintime: 1000, maxtime: 2000 }));
}

#[test]
fn parse_message_bad_tag() {
    let buf = [b'X', 0, 0, 0, 0, 0, 0, 0, 0];
    assert_eq!(parse_message(buf), None);
}

#[test]
fn query_returns_windowed_mean() {
    let mut store = PriceStore::new();
    store.handle_insert(10, 100);
    store.handle_insert(20, 101);
    store.handle_insert(30, 102);
    store.handle_insert(40, 5000);
    assert_eq!(store.handle_query(10, 30), Some(101));
    assert_eq!(store.handle_query(0, 100), Some(1325));
}

#[test]
fn query_empty_window_is_none() {
    let mut store = PriceStore::new();
    store.handle_insert(10, 100);
    assert_eq!(store.handle_query(11, 20), None);
    assert_eq!(store.handle_query(20, 11), None);
    let empty = PriceStore::new();
    assert_eq!(empty.handle_query(i32::MIN, i32::MAX), None);
}

#[test]
fn query_mean_truncates_toward_zero() {
    let mut store = PriceStore::new();
    store.handle_insert(1, 3);
    store.handle_insert(2, 4);
    assert_eq!(store.handle_query(1, 2), Some(3));

    let mut store2 = PriceStore::new();
    store2.handle_insert(1, -3);
    store2.handle_insert(2, -4);
    assert_eq!(store2.handle_query(1, 2), Some(-3));
}

#[test]
fn later_insert_for_same_timestamp_wins() {
    let mut store = PriceStore::new();
    store.handle_insert(10, 100);
    store.handle_insert(10, 200);
    assert_eq!(store.handle_query(10, 10), Some(200));
}
