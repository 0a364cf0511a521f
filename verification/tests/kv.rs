// Tests of the store, its expiry semantics, and the shared, locked store.

use redis_lite::clock::Clock;
use redis_lite::shared::SharedStore;
use redis_lite::store::KvStore;

#[test]
fn set_then_get_roundtrip() {
    let mut s = KvStore::new();
    s.set(b"k".to_vec(), b"v".to_vec(), None, 0);
    assert_eq!(s.get(b"k", 0), Some(b"v".to_vec()));
    assert_eq!(s.get(b"k", u64::MAX), Some(b"v".to_vec()));
}

#[test]
fn get_absent_key_is_none() {
    let s = KvStore::new();
    assert_eq!(s.get(b"nope", 0), None);
}

#[test]
fn set_replaces_whole_entry() {
    let mut s = KvStore::new();
    s.set(b"k".to_vec(), b"old".to_vec(), Some(5), 0);
    s.set(b"k".to_vec(), b"new".to_vec(), None, 0);
    // The second write replaced value and expiry together: no TTL remains.
    assert_eq!(s.get(b"k", 1_000_000), Some(b"new".to_vec()));
}

#[test]
fn entry_expires_strictly_after_ttl() {
    let mut s = KvStore::new();
    s.set(b"k".to_vec(), b"v".to_vec(), Some(100), 50);
    assert_eq!(s.get(b"k", 150), Some(b"v".to_vec()));
    assert_eq!(s.get(b"k", 151), None);
}

#[test]
fn ttl_overflow_saturates() {
    let mut s = KvStore::new();
    s.set(b"k".to_vec(), b"v".to_vec(), Some(u64::MAX), 10);
    assert_eq!(s.get(b"k", u64::MAX), Some(b"v".to_vec()));
}

#[test]
fn distinct_keys_do_not_interfere() {
    let mut s = KvStore::new();
    s.set(b"a".to_vec(), b"1".to_vec(), None, 0);
    s.set(b"b".to_vec(), b"2".to_vec(), None, 0);
    assert_eq!(s.get(b"a", 0), Some(b"1".to_vec()));
    assert_eq!(s.get(b"b", 0), Some(b"2".to_vec()));
}

#[test]
fn sweep_removes_expired_entries_without_changing_reads() {
    let mut s = KvStore::new();
    s.set(b"gone".to_vec(), b"1".to_vec(), Some(10), 0);
    s.set(b"kept".to_vec(), b"2".to_vec(), Some(1000), 0);
    s.set(b"stays".to_vec(), b"3".to_vec(), None, 0);
    s.sweep(500);
    assert_eq!(s.get(b"gone", 500), None);
    assert_eq!(s.get(b"kept", 500), Some(b"2".to_vec()));
    assert_eq!(s.get(b"stays", 500), Some(b"3".to_vec()));
}

#[test]
fn shared_store_set_get() {
    let s = SharedStore::new();
    s.set(b"a".to_vec(), b"1".to_vec(), None, 0);
    s.set(b"b".to_vec(), b"2".to_vec(), None, 0);
    assert_eq!(s.get(b"a", 0), Some(b"1".to_vec()));
    assert_eq!(s.get(b"b", 0), Some(b"2".to_vec()));
    assert_eq!(s.get(b"c", 0), None);
}

#[test]
fn shared_store_feed_drives_a_connection() {
    let s = SharedStore::new();
    let mut conn = redis_lite::dispatch::Connection::new();
    let out = s.feed(&mut conn, b"*3\r\n$3\r\nSET\r\n$1\r\nx\r\n$1\r\ny\r\n", 0);
    assert_eq!(out, b"+OK\r\n".to_vec());
    let out = s.feed(&mut conn, b"*2\r\n$3\r\nGET\r\n$1\r\nx\r\n", 0);
    assert_eq!(out, b"$1\r\ny\r\n".to_vec());
}

#[test]
fn clock_counts_forward_in_milliseconds() {
    let c = Clock::new();
    let a = c.now_ms();
    let b = c.now_ms();
    assert!(b >= a);
}
