use kv_db::dispatcher::{dispatch, dispatch_decoded, CommandRequest};
use kv_db::error::KvError;
use kv_db::memory::MemTable;
use kv_db::value::Value;

#[test]
fn hset_then_hget_should_work() {
    let mut store = MemTable::new();
    let resp = dispatch(
        &mut store,
        CommandRequest::new_hset("table1", "hello", Value::of_str("world")),
    );
    assert_eq!(resp.status, 200);
    assert!(resp.values.is_empty());

    let resp = dispatch(&mut store, CommandRequest::new_hget("table1", "hello"));
    assert_eq!(resp.status, 200);
    assert_eq!(resp.values, vec![Value::of_str("world")]);
}

#[test]
fn hset_returns_previous_value() {
    let mut store = MemTable::new();
    dispatch(
        &mut store,
        CommandRequest::new_hset("t", "k", Value::of_str("old")),
    );
    let resp = dispatch(
        &mut store,
        CommandRequest::new_hset("t", "k", Value::of_str("new")),
    );
    assert_eq!(resp.status, 200);
    assert_eq!(resp.values, vec![Value::of_str("old")]);
}

#[test]
fn hget_of_absent_key_is_not_found() {
    let mut store = MemTable::new();
    let resp = dispatch(&mut store, CommandRequest::new_hget("t", "missing"));
    assert_eq!(resp.status, 404);
    assert_eq!(resp.message, "not found");
    assert!(resp.values.is_empty());
}

#[test]
fn hexist_answers_both_ways() {
    let mut store = MemTable::new();
    dispatch(
        &mut store,
        CommandRequest::new_hset("t", "k", Value::Int(1)),
    );
    let resp = dispatch(&mut store, CommandRequest::new_hexist("t", "k"));
    assert_eq!(resp.status, 200);
    assert_eq!(resp.values, vec![Value::Bool(true)]);
    let resp = dispatch(&mut store, CommandRequest::new_hexist("t", "other"));
    assert_eq!(resp.status, 200);
    assert_eq!(resp.values, vec![Value::Bool(false)]);
}

#[test]
fn hdel_returns_previous_then_nothing() {
    let mut store = MemTable::new();
    dispatch(
        &mut store,
        CommandRequest::new_hset("t", "k", Value::of_str("v")),
    );
    let resp = dispatch(&mut store, CommandRequest::new_hdel("t", "k"));
    assert_eq!(resp.status, 200);
    assert_eq!(resp.values, vec![Value::of_str("v")]);
    let resp = dispatch(&mut store, CommandRequest::new_hdel("t", "k"));
    assert_eq!(resp.status, 200);
    assert!(resp.values.is_empty());
}

#[test]
fn hgetall_flattens_pairs() {
    let mut store = MemTable::new();
    dispatch(
        &mut store,
        CommandRequest::new_hset("t", "k1", Value::of_str("v1")),
    );
    dispatch(
        &mut store,
        CommandRequest::new_hset("t", "k2", Value::of_str("v2")),
    );
    let resp = dispatch(&mut store, CommandRequest::new_hgetall("t"));
    assert_eq!(resp.status, 200);
    let mut flat = resp.values;
    // The engine's order is not contractual; pair the flattened values
    // back up and sort for a deterministic comparison.
    let mut pairs: Vec<(Value, Value)> = Vec::new();
    while flat.len() >= 2 {
        let v = flat.pop().unwrap();
        let k = flat.pop().unwrap();
        pairs.push((k, v));
    }
    assert!(flat.is_empty());
    pairs.sort_by(|a, b| a.partial_cmp(b).unwrap());
    assert_eq!(
        pairs,
        vec![
            (Value::of_str("k1"), Value::of_str("v1")),
            (Value::of_str("k2"), Value::of_str("v2")),
        ]
    );
}

#[test]
fn hgetall_of_absent_table_is_empty_success() {
    let mut store = MemTable::new();
    let resp = dispatch(&mut store, CommandRequest::new_hgetall("none"));
    assert_eq!(resp.status, 200);
    assert!(resp.values.is_empty());
}

#[test]
fn malformed_request_gets_bad_request_and_no_storage_call() {
    let mut store = MemTable::new();
    let resp = dispatch_decoded(&mut store, None);
    assert_eq!(resp.status, 400);
    assert_eq!(resp.message, "invalid command");
    assert!(resp.values.is_empty());
}

#[test]
fn error_message_is_kept() {
    let e = KvError::Internal {
        message: "disk on fire".to_string(),
    };
    assert_eq!(e.message(), "disk on fire");
}
