use playbot::{CodeDB, Entry, InsertError, Value};

fn entry(key: &str, value: Value) -> Entry {
    Entry { key: key.to_string(), value, modified_by: "alice".to_string(), date: 1_500_000_000_000 }
}

#[test]
fn inserted_function_survives_reopening() {
    let mut log: Vec<Entry> = Vec::new();
    let mut db = CodeDB::replay(&log);
    let e = db.prepare_insert("foo", "fn foo(){}", "alice", 42).unwrap();
    assert_eq!(e.key, "foo");
    assert_eq!(e.modified_by, "alice");
    assert_eq!(e.date, 42);
    db.commit(&e);
    assert_eq!(db.lookup_fn("foo"), Some("fn foo(){}"));
    log.push(e);
    let reopened = CodeDB::replay(&log);
    assert_eq!(reopened.lookup_fn("foo"), Some("fn foo(){}"));
}

#[test]
fn locked_key_refuses_writes_and_keeps_cache() {
    let log = vec![entry("foo", Value::Function("fn foo(){}".to_string())), entry("foo", Value::Locked)];
    let db = CodeDB::replay(&log);
    assert_eq!(db.prepare_insert("foo", "fn foo(){ 1 }", "bob", 7).err(), Some(InsertError::Locked));
    assert_eq!(db.lookup_fn("foo"), None);
    let again = CodeDB::replay(&log);
    assert_eq!(again.lookup_fn("foo"), None);
}

#[test]
fn last_write_per_key_wins_on_replay() {
    let log = vec![
        entry("a", Value::Function("one".to_string())),
        entry("b", Value::Function("two".to_string())),
        entry("a", Value::Function("three".to_string())),
        entry("b", Value::Deleted),
    ];
    let db = CodeDB::replay(&log);
    assert_eq!(db.lookup_fn("a"), Some("three"));
    assert_eq!(db.lookup_fn("b"), None);
    assert_eq!(db.lookup_fn("c"), None);
}

#[test]
fn deleted_key_accepts_writes() {
    let log = vec![entry("a", Value::Deleted)];
    let mut db = CodeDB::replay(&log);
    let e = db.prepare_insert("a", "fn a(){}", "alice", 1).unwrap();
    db.commit(&e);
    assert_eq!(db.lookup_fn("a"), Some("fn a(){}"));
}

#[test]
fn empty_store_finds_nothing() {
    let db = CodeDB::new();
    assert_eq!(db.lookup_fn(""), None);
    assert_eq!(db.lookup_fn("foo"), None);
}
