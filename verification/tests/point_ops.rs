use rocksdb_kv::batch::WriteBatch;
use rocksdb_kv::db::{Db, Options};
use rocksdb_kv::errors::KvError;

fn b(s: &str) -> Vec<u8> {
    s.as_bytes().to_vec()
}

#[test]
fn get_after_set_returns_value() {
    let mut db = Db::open_default();
    db.set(&b("k"), &b("v")).unwrap();
    assert_eq!(db.get(&b("k")).unwrap(), Some(b("v")));
}

#[test]
fn overwrite_replaces_value() {
    let mut db = Db::open_default();
    db.set(&b("k"), &b("v1")).unwrap();
    db.set(&b("k"), &b("v2")).unwrap();
    assert_eq!(db.get(&b("k")).unwrap(), Some(b("v2")));
}

#[test]
fn set_persists_across_other_keys() {
    let mut db = Db::open_default();
    db.set(&b("k"), &b("v")).unwrap();
    db.set(&b("other"), &b("x")).unwrap();
    db.delete(&b("third")).unwrap();
    assert_eq!(db.get(&b("k")).unwrap(), Some(b("v")));
}

#[test]
fn get_missing_returns_none_not_error() {
    let db = Db::open_default();
    assert_eq!(db.get(&b("missing")).unwrap(), None);
}

#[test]
fn delete_absent_key_is_noop() {
    let mut db = Db::open_default();
    db.set(&b("keep"), &b("1")).unwrap();
    assert!(db.delete(&b("absent")).is_ok());
    assert_eq!(db.get(&b("absent")).unwrap(), None);
    assert_eq!(db.get(&b("keep")).unwrap(), Some(b("1")));
}

#[test]
fn delete_removes_binding() {
    let mut db = Db::open_default();
    db.set(&b("k"), &b("v")).unwrap();
    db.delete(&b("k")).unwrap();
    assert_eq!(db.get(&b("k")).unwrap(), None);
}

#[test]
fn empty_key_and_empty_value_are_legal() {
    let mut db = Db::open_default();
    db.set(&b(""), &b("")).unwrap();
    assert_eq!(db.get(&b("")).unwrap(), Some(b("")));
}

#[test]
fn batch_applies_all_entries_atomically() {
    let mut db = Db::open_default();
    db.set(&b("b"), &b("old")).unwrap();
    let mut batch = WriteBatch::new();
    batch.add(&b("a"), &b("1"));
    batch.delete(&b("b"));
    assert_eq!(batch.len(), 2);
    db.write(&mut batch).unwrap();
    assert_eq!(db.get(&b("a")).unwrap(), Some(b("1")));
    assert_eq!(db.get(&b("b")).unwrap(), None);
}

#[test]
fn failed_batch_write_applies_nothing() {
    let opts = Options { read_only: true, secondary: false };
    let mut db = Db::open_with_options(&opts);
    let mut batch = WriteBatch::new();
    batch.add(&b("a"), &b("1"));
    batch.delete(&b("b"));
    assert_eq!(db.write(&mut batch), Err(KvError::ReadOnlyFailure));
    assert_eq!(db.get(&b("a")).unwrap(), None);
    assert_eq!(db.get(&b("b")).unwrap(), None);
}

#[test]
fn batch_last_entry_wins_on_colliding_keys() {
    let mut db = Db::open_default();
    let mut batch = WriteBatch::new();
    batch.add(&b("k"), &b("first"));
    batch.add(&b("k"), &b("second"));
    db.write(&mut batch).unwrap();
    assert_eq!(db.get(&b("k")).unwrap(), Some(b("second")));
}

#[test]
fn batch_is_consumed_by_write() {
    let mut db = Db::open_default();
    let mut batch = WriteBatch::new();
    batch.add(&b("k"), &b("v"));
    db.write(&mut batch).unwrap();
    assert_eq!(batch.len(), 0);
    db.delete(&b("k")).unwrap();
    // a consumed batch behaves as a fresh empty one
    db.write(&mut batch).unwrap();
    assert_eq!(db.get(&b("k")).unwrap(), None);
}

#[test]
fn multi_get_keeps_positions_without_skip() {
    let mut db = Db::open_default();
    db.set(&b("a"), &b("1")).unwrap();
    db.set(&b("c"), &b("3")).unwrap();
    let keys = vec![b("a"), b("missing"), b("c")];
    let r = db.multi_get(&keys, false).unwrap();
    assert_eq!(r, vec![Some(b("1")), None, Some(b("3"))]);
}

#[test]
fn multi_get_skips_missing_when_asked() {
    let mut db = Db::open_default();
    db.set(&b("a"), &b("1")).unwrap();
    db.set(&b("c"), &b("3")).unwrap();
    let keys = vec![b("a"), b("missing"), b("c")];
    let r = db.multi_get(&keys, true).unwrap();
    assert_eq!(r, vec![Some(b("1")), Some(b("3"))]);
}

#[test]
fn multi_get_on_empty_input_is_empty() {
    let db = Db::open_default();
    let keys: Vec<Vec<u8>> = vec![];
    assert_eq!(db.multi_get(&keys, false).unwrap(), vec![]);
    assert_eq!(db.multi_get(&keys, true).unwrap(), vec![]);
}

#[test]
fn closed_handle_fails_with_not_open() {
    let mut db = Db::open_default();
    db.set(&b("k"), &b("v")).unwrap();
    db.close().unwrap();
    assert_eq!(db.get(&b("k")), Err(KvError::NotOpenFailure));
    assert_eq!(db.set(&b("k"), &b("v")), Err(KvError::NotOpenFailure));
    assert_eq!(db.delete(&b("k")), Err(KvError::NotOpenFailure));
    assert_eq!(db.flush(), Err(KvError::NotOpenFailure));
    assert_eq!(db.multi_get(&vec![b("k")], false), Err(KvError::NotOpenFailure));
    assert_eq!(db.cancel_all_background_work(Some(true)), Err(KvError::NotOpenFailure));
    let mut batch = WriteBatch::new();
    batch.add(&b("k"), &b("v"));
    assert_eq!(db.write(&mut batch), Err(KvError::NotOpenFailure));
    assert_eq!(batch.len(), 0);
}

#[test]
fn close_is_idempotent() {
    let mut db = Db::open_default();
    assert!(db.close().is_ok());
    assert!(db.close().is_ok());
}

#[test]
fn read_only_handle_serves_reads_and_refuses_writes() {
    let opts = Options { read_only: true, secondary: false };
    let mut db = Db::open_with_options(&opts);
    assert_eq!(db.get(&b("k")).unwrap(), None);
    assert_eq!(db.set(&b("k"), &b("v")), Err(KvError::ReadOnlyFailure));
    assert_eq!(db.delete(&b("k")), Err(KvError::ReadOnlyFailure));
}

#[test]
fn secondary_handle_refuses_writes_and_catches_up() {
    let opts = Options { read_only: false, secondary: true };
    let mut db = Db::open_with_options(&opts);
    assert_eq!(db.set(&b("k"), &b("v")), Err(KvError::ReadOnlyFailure));
    // the primary recorded one put and one delete since the last catch-up
    let mut log = WriteBatch::new();
    log.add(&b("k"), &b("v"));
    log.add(&b("gone"), &b("x"));
    log.delete(&b("gone"));
    db.try_catch_up_with_primary(&log.ops).unwrap();
    assert_eq!(db.get(&b("k")).unwrap(), Some(b("v")));
    assert_eq!(db.get(&b("gone")).unwrap(), None);
}

#[test]
fn catch_up_on_primary_handle_fails() {
    let mut db = Db::open_default();
    let log = WriteBatch::new();
    assert_eq!(db.try_catch_up_with_primary(&log.ops), Err(KvError::ReplicationFailure));
}

#[test]
fn flush_succeeds_on_open_handle() {
    let mut db = Db::open_default();
    db.set(&b("k"), &b("v")).unwrap();
    assert!(db.flush().is_ok());
    assert_eq!(db.get(&b("k")).unwrap(), Some(b("v")));
}

#[test]
fn cancel_background_work_with_and_without_wait() {
    let mut db = Db::open_default();
    assert!(db.cancel_all_background_work(None).is_ok());
    assert!(db.cancel_all_background_work(Some(false)).is_ok());
    assert!(db.cancel_all_background_work(Some(true)).is_ok());
}
