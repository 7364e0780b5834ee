use kv_db::memory::MemTable;
use kv_db::storage::{KvpairSource, Storage};
use kv_db::value::{Kvpair, Value};

fn collect_pairs(mut it: impl KvpairSource) -> Vec<Kvpair> {
    let mut out = Vec::new();
    while let Some(p) = it.next() {
        out.push(p);
    }
    out
}

fn test_basic_interface(mut store: impl Storage) {
    let v = store.set("t1", "hello", "world".into());
    assert!(v.unwrap().is_none());
    let v1 = store.set("t1", "hello", "world1".into());
    assert_eq!(v1.unwrap(), Some("world".into()));

    let v = store.get("t1", "hello");
    assert_eq!(v.unwrap(), Some("world1".into()));

    assert_eq!(None, store.get("t1", "hello1").unwrap());
    assert!(store.get("t2", "hello1").unwrap().is_none());

    assert!(store.contains("t1", "hello").unwrap());
    assert!(!store.contains("t1", "hello1").unwrap());
    assert!(!store.contains("t2", "hello").unwrap());

    let v = store.del("t1", "hello");
    assert_eq!(v.unwrap(), Some("world1".into()));

    assert_eq!(None, store.del("t1", "hello1").unwrap());
    assert_eq!(None, store.del("t2", "hello").unwrap());
}

fn test_get_all(mut store: impl Storage) {
    store.set("t2", "k1", "v1".into()).unwrap();
    store.set("t2", "k2", "v2".into()).unwrap();
    let mut data = store.get_all("t2").unwrap();
    data.sort_by(|a, b| a.partial_cmp(b).unwrap());
    assert_eq!(
        data,
        vec![
            Kvpair::new("k1", "v1".into()),
            Kvpair::new("k2", "v2".into())
        ]
    )
}

fn test_get_iter(mut store: impl Storage) {
    store.set("t2", "k1", "v1".into()).unwrap();
    store.set("t2", "k2", "v2".into()).unwrap();
    let mut data = collect_pairs(store.get_iter("t2").unwrap());
    data.sort_by(|a, b| a.partial_cmp(b).unwrap());
    assert_eq!(
        data,
        vec![
            Kvpair::new("k1", "v1".into()),
            Kvpair::new("k2", "v2".into())
        ]
    )
}

#[test]
pub fn memtable_basic_interface_should_work() {
    let store = MemTable::new();
    test_basic_interface(store);
}

#[test]
pub fn memtable_get_all_should_work() {
    let store = MemTable::new();
    test_get_all(store);
}

#[test]
pub fn memtable_iter_should_work() {
    let store = MemTable::new();
    test_get_iter(store);
}

#[test]
fn get_all_of_absent_table_is_empty() {
    let store = MemTable::new();
    assert_eq!(store.get_all("nowhere").unwrap(), vec![]);
    assert!(collect_pairs(store.get_iter("nowhere").unwrap()).is_empty());
}

#[test]
fn get_all_and_get_iter_agree_as_multisets() {
    let mut store = MemTable::new();
    store.set("t", "a", Value::Int(1)).unwrap();
    store.set("t", "b", Value::Bool(true)).unwrap();
    store.set("t", "c", Value::Bytes(vec![1, 2, 3])).unwrap();
    let mut all = store.get_all("t").unwrap();
    let mut lazy = collect_pairs(store.get_iter("t").unwrap());
    all.sort_by(|a, b| a.partial_cmp(b).unwrap());
    lazy.sort_by(|a, b| a.partial_cmp(b).unwrap());
    assert_eq!(all, lazy);
}

#[test]
fn distinct_key_writes_are_all_observable() {
    let mut store = MemTable::new();
    for i in 0..10i64 {
        let key = format!("key{}", i);
        assert!(store.set("t", &key, Value::Int(i)).unwrap().is_none());
    }
    for i in 0..10i64 {
        let key = format!("key{}", i);
        assert_eq!(store.get("t", &key).unwrap(), Some(Value::Int(i)));
    }
}

#[test]
fn same_key_writes_leave_exactly_the_last_value() {
    let mut store = MemTable::new();
    for i in 0..10i64 {
        store.set("t", "k", Value::Int(i)).unwrap();
    }
    assert_eq!(store.get("t", "k").unwrap(), Some(Value::Int(9)));
    assert_eq!(store.get_all("t").unwrap().len(), 1);
}

#[test]
fn del_after_set_returns_the_value_then_absent() {
    let mut store = MemTable::new();
    store.set("t", "k", Value::of_str("v")).unwrap();
    assert_eq!(store.del("t", "k").unwrap(), Some(Value::of_str("v")));
    assert_eq!(store.del("t", "k").unwrap(), None);
    assert_eq!(store.get("t", "k").unwrap(), None);
}

#[test]
fn tables_are_independent() {
    let mut store = MemTable::new();
    store.set("t1", "k", Value::Int(1)).unwrap();
    store.set("t2", "k", Value::Int(2)).unwrap();
    assert_eq!(store.get("t1", "k").unwrap(), Some(Value::Int(1)));
    assert_eq!(store.get("t2", "k").unwrap(), Some(Value::Int(2)));
    store.del("t1", "k").unwrap();
    assert_eq!(store.get("t1", "k").unwrap(), None);
    assert_eq!(store.get("t2", "k").unwrap(), Some(Value::Int(2)));
}

#[test]
fn value_conversions_round_trip() {
    let v: Value = 7i64.into();
    assert_eq!(v.as_int(), Some(7));
    assert_eq!(v.as_bool(), None);
    let v: Value = true.into();
    assert_eq!(v.as_bool(), Some(true));
    let v: Value = "abc".into();
    assert_eq!(v.as_str_value(), Some(&"abc".to_string()));
    let v: Value = String::from("owned").into();
    assert_eq!(v.as_str_value(), Some(&"owned".to_string()));
    let v: Value = vec![9u8, 8u8].into();
    assert_eq!(v, Value::Bytes(vec![9, 8]));
}
