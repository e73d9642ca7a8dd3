use rocksdb_kv::backup::BackupStore;
use rocksdb_kv::db::Db;
use rocksdb_kv::errors::KvError;
use rocksdb_kv::iterator::{Direction, IteratorMode, KvIterator, ModeWord, resolve_mode};
use rocksdb_kv::order::{compare_bytes, KeyOrder};

fn b(s: &str) -> Vec<u8> {
    s.as_bytes().to_vec()
}

fn drain(it: &mut KvIterator, db: &Db) -> Vec<(Vec<u8>, Vec<u8>)> {
    let mut out = Vec::new();
    loop {
        match it.next(db).unwrap() {
            Some(rec) => out.push((rec.key, rec.value)),
            None => return out,
        }
    }
}

fn three_record_db() -> Db {
    let mut db = Db::open_default();
    db.set(&b("b"), &b("2")).unwrap();
    db.set(&b("a"), &b("1")).unwrap();
    db.set(&b("c"), &b("3")).unwrap();
    db
}

#[test]
fn iterator_from_start_yields_ascending_order() {
    let db = three_record_db();
    let mut it = db.iterator(IteratorMode::Start).unwrap();
    assert_eq!(
        drain(&mut it, &db),
        vec![(b("a"), b("1")), (b("b"), b("2")), (b("c"), b("3"))]
    );
}

#[test]
fn iterator_from_end_yields_descending_order() {
    let db = three_record_db();
    let mut it = db.iterator(IteratorMode::End).unwrap();
    assert_eq!(
        drain(&mut it, &db),
        vec![(b("c"), b("3")), (b("b"), b("2")), (b("a"), b("1"))]
    );
}

#[test]
fn iterator_from_key_forward_starts_at_first_key_not_below() {
    let db = three_record_db();
    let mut it = db.iterator(IteratorMode::From(b("b"), Direction::Forward)).unwrap();
    assert_eq!(drain(&mut it, &db), vec![(b("b"), b("2")), (b("c"), b("3"))]);
}

#[test]
fn iterator_from_key_reverse_starts_at_last_key_not_above() {
    let db = three_record_db();
    let mut it = db.iterator(IteratorMode::From(b("b"), Direction::Reverse)).unwrap();
    assert_eq!(drain(&mut it, &db), vec![(b("b"), b("2")), (b("a"), b("1"))]);
}

#[test]
fn iterator_from_absent_key_seeks_to_neighbors() {
    let db = three_record_db();
    let mut fwd = db.iterator(IteratorMode::From(b("bb"), Direction::Forward)).unwrap();
    assert_eq!(drain(&mut fwd, &db), vec![(b("c"), b("3"))]);
    let mut rev = db.iterator(IteratorMode::From(b("bb"), Direction::Reverse)).unwrap();
    assert_eq!(drain(&mut rev, &db), vec![(b("b"), b("2")), (b("a"), b("1"))]);
}

#[test]
fn iterator_past_all_keys_is_empty() {
    let db = three_record_db();
    let mut it = db.iterator(IteratorMode::From(b("zz"), Direction::Forward)).unwrap();
    assert_eq!(drain(&mut it, &db), vec![]);
}

#[test]
fn iterator_over_empty_keyspace_is_empty() {
    let db = Db::open_default();
    let mut it = db.iterator(IteratorMode::Start).unwrap();
    assert_eq!(drain(&mut it, &db), vec![]);
}

#[test]
fn iterator_is_exhausted_permanently() {
    let db = three_record_db();
    let mut it = db.iterator(IteratorMode::Start).unwrap();
    drain(&mut it, &db);
    assert!(it.next(&db).unwrap().is_none());
    assert!(it.next(&db).unwrap().is_none());
}

#[test]
fn iterator_snapshots_state_at_creation() {
    let mut db = three_record_db();
    let mut it = db.iterator(IteratorMode::Start).unwrap();
    db.delete(&b("a")).unwrap();
    // the cursor still serves the pairs it was created over
    assert_eq!(
        drain(&mut it, &db),
        vec![(b("a"), b("1")), (b("b"), b("2")), (b("c"), b("3"))]
    );
}

#[test]
fn advancing_after_close_fails_with_not_open() {
    let mut db = three_record_db();
    let mut it = db.iterator(IteratorMode::Start).unwrap();
    db.close().unwrap();
    assert!(matches!(it.next(&db), Err(KvError::NotOpenFailure)));
}

#[test]
fn iterator_on_closed_handle_fails() {
    let mut db = Db::open_default();
    db.close().unwrap();
    assert!(db.iterator(IteratorMode::Start).is_err());
}

#[test]
fn resolve_mode_defaults_to_start() {
    assert!(matches!(resolve_mode(None, None, None), IteratorMode::Start));
    assert!(matches!(resolve_mode(Some(ModeWord::Start), None, None), IteratorMode::Start));
    assert!(matches!(resolve_mode(Some(ModeWord::End), None, None), IteratorMode::End));
}

#[test]
fn resolve_mode_from_key_and_direction() {
    match resolve_mode(Some(ModeWord::From), Some(b("test")), Some(-1)) {
        IteratorMode::From(k, d) => {
            assert_eq!(k, b("test"));
            assert_eq!(d, Direction::Reverse);
        }
        _ => panic!("expected a From mode"),
    }
    match resolve_mode(Some(ModeWord::From), Some(b("test")), Some(7)) {
        IteratorMode::From(_, d) => assert_eq!(d, Direction::Forward),
        _ => panic!("expected a From mode"),
    }
    // without a key the direction selector is ignored and the seek key is empty
    match resolve_mode(Some(ModeWord::From), None, Some(-1)) {
        IteratorMode::From(k, d) => {
            assert_eq!(k, b(""));
            assert_eq!(d, Direction::Forward);
        }
        _ => panic!("expected a From mode"),
    }
}

#[test]
fn backup_restore_round_trip_serves_snapshot() {
    let mut db = Db::open_default();
    let mut store = BackupStore::new();
    db.set(&b("x"), &b("1")).unwrap();
    db.create_backup(&mut store).unwrap();
    db.set(&b("x"), &b("2")).unwrap();
    let restored = Db::restore_latest_backup(&store).unwrap();
    let restored_db = Db::open_from(restored);
    assert_eq!(restored_db.get(&b("x")).unwrap(), Some(b("1")));
    // the live handle still sees its later write
    assert_eq!(db.get(&b("x")).unwrap(), Some(b("2")));
}

#[test]
fn restore_picks_the_most_recent_backup() {
    let mut db = Db::open_default();
    let mut store = BackupStore::new();
    db.set(&b("x"), &b("1")).unwrap();
    db.create_backup(&mut store).unwrap();
    db.set(&b("x"), &b("2")).unwrap();
    db.create_backup(&mut store).unwrap();
    db.set(&b("x"), &b("3")).unwrap();
    let restored_db = Db::open_from(Db::restore_latest_backup(&store).unwrap());
    assert_eq!(restored_db.get(&b("x")).unwrap(), Some(b("2")));
}

#[test]
fn restore_without_backup_fails() {
    let store = BackupStore::new();
    match Db::restore_latest_backup(&store) {
        Err(e) => assert_eq!(e, KvError::RestoreFailure),
        Ok(_) => panic!("restore from an empty store must fail"),
    }
}

#[test]
fn backup_on_closed_handle_fails() {
    let mut db = Db::open_default();
    let mut store = BackupStore::new();
    db.close().unwrap();
    assert_eq!(db.create_backup(&mut store), Err(KvError::NotOpenFailure));
    assert!(matches!(Db::restore_latest_backup(&store), Err(KvError::RestoreFailure)));
}

#[test]
fn compare_bytes_orders_lexicographically() {
    assert_eq!(compare_bytes(&b("a"), &b("b")), KeyOrder::Less);
    assert_eq!(compare_bytes(&b("b"), &b("a")), KeyOrder::Greater);
    assert_eq!(compare_bytes(&b("abc"), &b("abc")), KeyOrder::Equal);
    assert_eq!(compare_bytes(&b("ab"), &b("abc")), KeyOrder::Less);
    assert_eq!(compare_bytes(&b("abd"), &b("abc")), KeyOrder::Greater);
    assert_eq!(compare_bytes(&b(""), &b("")), KeyOrder::Equal);
    assert_eq!(compare_bytes(&b(""), &b("a")), KeyOrder::Less);
}
