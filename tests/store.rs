use kvs::{KvError, KvStore, COMPACTION_THRESHOLD};

fn s(x: &str) -> String {
    x.to_owned()
}

fn fresh() -> KvStore {
    KvStore::open(Vec::new())
}

#[test]
fn set_then_get_returns_value() {
    let mut store = fresh();
    store.set(s("a"), s("1")).unwrap();
    assert_eq!(store.get(s("a")).unwrap(), Some(s("1")));
}

#[test]
fn set_then_get_many_keys() {
    let mut store = fresh();
    store.set(s("k1"), s("v1")).unwrap();
    store.set(s("k2"), s("")).unwrap();
    store.set(s("ключ"), s("значение")).unwrap();
    assert_eq!(store.get(s("k1")).unwrap(), Some(s("v1")));
    assert_eq!(store.get(s("k2")).unwrap(), Some(s("")));
    assert_eq!(store.get(s("ключ")).unwrap(), Some(s("значение")));
}

#[test]
fn get_missing_key_is_none() {
    let mut store = fresh();
    assert_eq!(store.get(s("a")).unwrap(), None);
    store.set(s("b"), s("2")).unwrap();
    assert_eq!(store.get(s("a")).unwrap(), None);
}

#[test]
fn remove_missing_key_fails() {
    let mut store = fresh();
    assert!(matches!(store.remove(s("a")), Err(KvError::KeyNotFound)));
    assert!(store.log_bytes().is_empty());
}

#[test]
fn remove_then_get_is_none() {
    let mut store = fresh();
    store.set(s("a"), s("1")).unwrap();
    store.remove(s("a")).unwrap();
    assert_eq!(store.get(s("a")).unwrap(), None);
    assert!(matches!(store.remove(s("a")), Err(KvError::KeyNotFound)));
}

#[test]
fn reopen_keeps_written_values() {
    let mut store = fresh();
    store.set(s("a"), s("1")).unwrap();
    store.set(s("b"), s("2")).unwrap();
    store.set(s("a"), s("3")).unwrap();
    let mut again = KvStore::open(store.log_bytes().clone());
    assert_eq!(again.get(s("a")).unwrap(), Some(s("3")));
    assert_eq!(again.get(s("b")).unwrap(), Some(s("2")));
    assert_eq!(again.log_bytes(), store.log_bytes());
    assert_eq!(again.compaction_count(), 0);
}

#[test]
fn reopen_keeps_removals() {
    let mut store = fresh();
    store.set(s("a"), s("1")).unwrap();
    store.remove(s("a")).unwrap();
    let mut again = KvStore::open(store.log_bytes().clone());
    assert_eq!(again.get(s("a")).unwrap(), None);
}

#[test]
fn repeated_set_appends_nothing() {
    let mut store = fresh();
    store.set(s("a"), s("1")).unwrap();
    let len = store.log_bytes().len();
    store.set(s("a"), s("1")).unwrap();
    assert_eq!(store.log_bytes().len(), len);
    assert_eq!(store.compaction_count(), 0);
}

#[test]
fn overwrite_counts_once() {
    let mut store = fresh();
    store.set(s("a"), s("1")).unwrap();
    assert_eq!(store.compaction_count(), 0);
    store.set(s("a"), s("2")).unwrap();
    assert_eq!(store.get(s("a")).unwrap(), Some(s("2")));
    assert_eq!(store.compaction_count(), 1);
}

#[test]
fn removal_counts() {
    let mut store = fresh();
    store.set(s("a"), s("1")).unwrap();
    store.remove(s("a")).unwrap();
    assert_eq!(store.compaction_count(), 1);
}

#[test]
fn evicted_values_still_read() {
    let mut store = fresh();
    for i in 0..150 {
        store.set(format!("key{}", i), format!("value{}", i)).unwrap();
    }
    for i in 0..150 {
        assert_eq!(store.get(format!("key{}", i)).unwrap(), Some(format!("value{}", i)));
    }
    for i in (0..150).rev() {
        assert_eq!(store.get(format!("key{}", i)).unwrap(), Some(format!("value{}", i)));
    }
}

#[test]
fn write_record_bytes() {
    let mut store = fresh();
    store.set(s("a"), s("1")).unwrap();
    assert_eq!(store.log_bytes(), vec![0x92, 0xa1, b'a', 0xa1, b'1']);
}

#[test]
fn removal_record_bytes() {
    let mut store = fresh();
    store.set(s("a"), s("1")).unwrap();
    store.remove(s("a")).unwrap();
    assert_eq!(store.log_bytes(), vec![0x92, 0xa1, b'a', 0xa1, b'1', 0x92, 0xa1, b'a', 0xc0]);
}

#[test]
fn open_replays_given_bytes() {
    let bytes = vec![0x92, 0xa1, b'x', 0xa2, b'4', b'2', 0x92, 0xa1, b'y', 0xa1, b'7'];
    let mut store = KvStore::open(bytes.clone());
    assert_eq!(store.get(s("x")).unwrap(), Some(s("42")));
    assert_eq!(store.get(s("y")).unwrap(), Some(s("7")));
    assert_eq!(store.log_bytes(), bytes);
}

#[test]
fn open_keeps_truncated_tail() {
    let bytes = vec![0x92, 0xa1, b'x', 0xa1, b'1', 0x92, 0xa1, b'y', 0xa2, b'7'];
    let mut store = KvStore::open(bytes.clone());
    assert_eq!(store.get(s("x")).unwrap(), Some(s("1")));
    assert_eq!(store.get(s("y")).unwrap(), None);
    assert_eq!(store.log_bytes(), bytes);
    store.set(s("y"), s("8")).unwrap();
    assert_eq!(store.get(s("y")).unwrap(), Some(s("8")));
    let mut expected = bytes.clone();
    expected.extend_from_slice(&[0x92, 0xa1, b'y', 0xa1, b'8']);
    assert_eq!(store.log_bytes(), expected);
    let mut again = KvStore::open(store.log_bytes());
    assert_eq!(again.get(s("x")).unwrap(), Some(s("1")));
    assert_eq!(again.get(s("y")).unwrap(), None);
}

#[test]
fn compaction_removes_unreadable_tail() {
    let bytes = vec![0x92, 0xa1, b'x', 0xa1, b'1', 0xc1];
    let mut store = KvStore::open(bytes);
    for i in 0..=COMPACTION_THRESHOLD {
        store.set(s("x"), format!("{}", i)).unwrap();
    }
    assert_eq!(store.compaction_count(), 0);
    assert_eq!(store.log_bytes(), vec![0x92, 0xa1, b'x', 0xa4, b'1', b'0', b'0', b'0']);
    let mut again = KvStore::open(store.log_bytes());
    assert_eq!(again.get(s("x")).unwrap(), Some(s("1000")));
}

#[test]
fn open_stops_at_garbage() {
    let bytes = vec![0x92, 0xa1, b'x', 0xa1, b'1', 0xff, 0x92, 0xa1, b'y', 0xa1, b'2'];
    let mut store = KvStore::open(bytes.clone());
    assert_eq!(store.get(s("x")).unwrap(), Some(s("1")));
    assert_eq!(store.get(s("y")).unwrap(), None);
    assert_eq!(store.log_bytes(), bytes);
}

#[test]
fn open_empty_log() {
    let mut store = KvStore::open(Vec::new());
    assert!(store.log_bytes().is_empty());
    assert_eq!(store.get(s("a")).unwrap(), None);
}

#[test]
fn compaction_after_threshold() {
    let mut store = fresh();
    store.set(s("keep"), s("k")).unwrap();
    store.set(s("gone"), s("g")).unwrap();
    store.remove(s("gone")).unwrap();
    for i in 0..COMPACTION_THRESHOLD {
        store.set(s("a"), format!("{}", i)).unwrap();
    }
    assert_eq!(store.compaction_count(), COMPACTION_THRESHOLD);
    let before = store.log_bytes().len();
    store.set(s("a"), s("last")).unwrap();
    assert_eq!(store.compaction_count(), 0);
    assert!(store.log_bytes().len() < before);
    assert_eq!(store.get(s("a")).unwrap(), Some(s("last")));
    assert_eq!(store.get(s("keep")).unwrap(), Some(s("k")));
    assert_eq!(store.get(s("gone")).unwrap(), None);
    let mut again = KvStore::open(store.log_bytes().clone());
    assert_eq!(again.get(s("a")).unwrap(), Some(s("last")));
    assert_eq!(again.get(s("keep")).unwrap(), Some(s("k")));
    assert_eq!(again.get(s("gone")).unwrap(), None);
    assert_eq!(again.log_bytes(), store.log_bytes());
}

#[test]
fn compaction_keeps_only_live_records() {
    let mut store = fresh();
    store.set(s("a"), s("1")).unwrap();
    store.set(s("b"), s("2")).unwrap();
    store.remove(s("b")).unwrap();
    for i in 0..COMPACTION_THRESHOLD {
        store.set(s("a"), format!("v{}", i)).unwrap();
    }
    assert_eq!(store.compaction_count(), 0);
    let expected = vec![0x92, 0xa1, b'a', 0xa4, b'v', b'9', b'9', b'9'];
    assert_eq!(store.log_bytes(), expected);
    assert_eq!(store.get(s("a")).unwrap(), Some(s("v999")));
    store.set(s("a"), s("v999")).unwrap();
    assert_eq!(store.compaction_count(), 0);
    store.set(s("a"), s("x")).unwrap();
    assert_eq!(store.compaction_count(), 1);
}

#[test]
fn error_messages() {
    assert_eq!(KvError::KeyNotFound.message(), "Key not found");
    assert_eq!(KvError::Unknown.message(), "Unknown error");
    let io = KvError::from(std::io::Error::new(std::io::ErrorKind::Other, "x"));
    assert_eq!(io.message(), "IO error");
    assert!(matches!(io, KvError::IoError(_)));
}
