use kv_db::codec::{decode_request, decode_response, encode_request, encode_response};
use kv_db::dispatcher::{dispatch_decoded, CommandRequest};
use kv_db::durable::{has_prefix, phys_key, split_phys_key, table_prefix};
use kv_db::memory::MemTable;
use kv_db::value::Value;

#[test]
fn phys_key_round_trips() {
    let phys = phys_key("t1", "hello");
    let (t, k) = split_phys_key(&phys).expect("a physical key must split");
    assert_eq!(t, "t1");
    assert_eq!(k, "hello");
}

#[test]
fn split_takes_the_first_separator() {
    let phys = phys_key("t1", "a\u{1}b");
    let (t, k) = split_phys_key(&phys).expect("a physical key must split");
    assert_eq!(t, "t1");
    assert_eq!(k, "a\u{1}b");
}

#[test]
fn a_plain_string_does_not_split() {
    assert_eq!(split_phys_key("no separator here"), None);
}

#[test]
fn prefix_scan_predicate_selects_the_table() {
    let pre = table_prefix("t1");
    assert!(has_prefix(&phys_key("t1", "k1"), &pre));
    assert!(has_prefix(&phys_key("t1", ""), &pre));
    assert!(!has_prefix(&phys_key("t2", "k1"), &pre));
    assert!(!has_prefix(&phys_key("t", "1k"), &pre));
    assert!(!has_prefix("t1", &pre));
}

#[test]
fn end_to_end_over_the_wire_format() {
    // The whole path of one exchange, minus the socket: encode a request,
    // decode it server-side, dispatch, encode the response, decode it
    // client-side.
    let mut store = MemTable::new();

    let wire = encode_request(&CommandRequest::new_hset(
        "table1",
        "hello",
        Value::of_str("world"),
    ));
    let resp = dispatch_decoded(&mut store, decode_request(&wire));
    let resp = decode_response(&encode_response(&resp)).unwrap();
    assert_eq!(resp.status, 200);

    let wire = encode_request(&CommandRequest::new_hget("table1", "hello"));
    let resp = dispatch_decoded(&mut store, decode_request(&wire));
    let resp = decode_response(&encode_response(&resp)).unwrap();
    assert_eq!(resp.status, 200);
    assert_eq!(resp.values, vec![Value::of_str("world")]);
}
