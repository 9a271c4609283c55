use std::io;
use std::sync::mpsc::SyncSender;

use raft_log::payload_cache::PayloadCache;
use raft_log::types::Types;

#[derive(Debug, Clone, PartialEq, Eq, Default)]
struct TestTypes;

impl Types for TestTypes {
    /// (term, index)
    type LogId = (u64, u64);
    /// (term, voted_for)
    type Vote = (u64, u64);
    type LogPayload = String;
    type UserData = String;
    type Callback = SyncSender<Result<(), io::Error>>;
}

#[test]
fn test_cache() {
    let mut cache = PayloadCache::<TestTypes>::new(2, 10);
    // make all evictable
    cache.set_last_evictable(Some((1, 10)));

    let payload1 = "foo".to_string();
    let payload2 = "bar".to_string();
    let payload3 = "baz".to_string();
    let payload4 = "12345678".to_string();
    let payload5 = "123456789ab".to_string();

    cache.insert((1, 1), payload1.clone());
    cache.insert((1, 2), payload2.clone());
    assert_eq!(cache.item_count(), 2);
    assert_eq!(cache.total_size(), 6);

    assert_eq!(cache.get(&(1, 1)), Some(payload1.clone()));
    assert_eq!(cache.get(&(1, 2)), Some(payload2.clone()));

    // Evict early items by count

    cache.insert((1, 3), payload3.clone());
    assert_eq!(cache.item_count(), 2);
    assert_eq!(cache.total_size(), 6);

    assert_eq!(cache.get(&(1, 1)), None);
    assert_eq!(cache.get(&(1, 2)), Some(payload2.clone()));
    assert_eq!(cache.get(&(1, 3)), Some(payload3.clone()));

    // Evict early items by capacity

    cache.insert((1, 4), payload4.clone());
    assert_eq!(cache.item_count(), 1);
    assert_eq!(cache.total_size(), 8);

    assert_eq!(cache.get(&(1, 2)), None);
    assert_eq!(cache.get(&(1, 3)), None);
    assert_eq!(cache.get(&(1, 4)), Some(payload4.clone()));

    // Single item exceeds capacity

    cache.insert((1, 5), payload5.clone());
    assert_eq!(cache.item_count(), 0);
    assert_eq!(cache.total_size(), 0);

    assert_eq!(cache.get(&(1, 2)), None);
    assert_eq!(cache.get(&(1, 3)), None);
    assert_eq!(cache.get(&(1, 4)), None);
    assert_eq!(cache.get(&(1, 5)), None);
}

#[test]
fn test_last_evictable() {
    let mut cache = PayloadCache::<TestTypes>::new(2, 10);
    cache.set_last_evictable(Some((1, 2)));

    let payload1 = "foo".to_string();
    let payload2 = "bar".to_string();
    let payload3 = "baz".to_string();
    let payload4 = "12345678".to_string();
    let payload5 = "123456789ab".to_string();

    cache.insert((1, 1), payload1.clone());
    cache.insert((1, 2), payload2.clone());
    cache.insert((1, 3), payload3.clone());
    cache.insert((1, 4), payload4.clone());
    assert_eq!(cache.item_count(), 2);
    assert_eq!(cache.total_size(), 11);

    assert_eq!(cache.get(&(1, 1)), None);
    assert_eq!(cache.get(&(1, 2)), None);
    assert_eq!(cache.get(&(1, 3)), Some(payload3.clone()));
    assert_eq!(cache.get(&(1, 4)), Some(payload4.clone()));

    cache.insert((1, 5), payload5.clone());
    assert_eq!(cache.item_count(), 3);
    assert_eq!(cache.total_size(), 22);

    assert_eq!(cache.get(&(1, 1)), None);
    assert_eq!(cache.get(&(1, 2)), None);
    assert_eq!(cache.get(&(1, 3)), Some(payload3.clone()));
    assert_eq!(cache.get(&(1, 4)), Some(payload4.clone()));
    assert_eq!(cache.get(&(1, 5)), Some(payload5.clone()));
}

#[test]
fn test_truncate_after() {
    let mut cache = PayloadCache::<TestTypes>::new(10, 100);

    let payload1 = "foo".to_string();
    let payload2 = "bar".to_string();
    let payload3 = "baz".to_string();
    let payload4 = "12345678".to_string();
    let payload5 = "123456789ab".to_string();

    cache.insert((1, 1), payload1.clone());
    cache.insert((1, 2), payload2.clone());
    cache.insert((2, 3), payload3.clone());
    cache.insert((2, 4), payload4.clone());
    cache.insert((2, 5), payload5.clone());

    cache.truncate_after(&(1, 3));
    assert_eq!(cache.item_count(), 2);
    assert_eq!(cache.total_size(), 6);

    assert_eq!(cache.get(&(1, 1)), Some(payload1.clone()));
    assert_eq!(cache.get(&(1, 2)), Some(payload2.clone()));
    assert_eq!(cache.get(&(2, 3)), None);
    assert_eq!(cache.get(&(2, 4)), None);
    assert_eq!(cache.get(&(2, 5)), None);

    cache.truncate_after(&(1, 2));
    assert_eq!(cache.item_count(), 2);
    assert_eq!(cache.total_size(), 6);

    assert_eq!(cache.get(&(1, 1)), Some(payload1.clone()));
    assert_eq!(cache.get(&(1, 2)), Some(payload2.clone()));

    cache.truncate_after(&(2, 3));
    assert_eq!(cache.item_count(), 2);
    assert_eq!(cache.total_size(), 6);

    assert_eq!(cache.get(&(1, 1)), Some(payload1.clone()));
    assert_eq!(cache.get(&(1, 2)), Some(payload2.clone()));

    cache.truncate_after(&(1, 1));
    assert_eq!(cache.item_count(), 1);
    assert_eq!(cache.total_size(), 3);

    assert_eq!(cache.get(&(1, 1)), Some(payload1.clone()));
    assert_eq!(cache.get(&(1, 2)), None);

    cache.truncate_after(&(1, 0));
    assert_eq!(cache.item_count(), 0);
    assert_eq!(cache.total_size(), 0);

    assert_eq!(cache.get(&(1, 1)), None);
    assert_eq!(cache.get(&(1, 2)), None);
}

#[test]
fn test_purge_upto() {
    let mut cache = PayloadCache::<TestTypes>::new(10, 100);

    let payload1 = "foo".to_string();
    let payload2 = "bar".to_string();
    let payload3 = "baz".to_string();
    let payload4 = "12345678".to_string();
    let payload5 = "123456789ab".to_string();

    cache.insert((1, 1), payload1.clone());
    cache.insert((1, 2), payload2.clone());
    cache.insert((2, 3), payload3.clone());
    cache.insert((2, 4), payload4.clone());
    cache.insert((2, 5), payload5.clone());

    // Initial state
    assert_eq!(cache.item_count(), 5);
    assert_eq!(cache.total_size(), 28);

    // Purge up to (1, 2)
    cache.purge_upto(&(1, 2));
    assert_eq!(cache.item_count(), 5);

    cache.set_last_evictable(Some((1, 2)));

    cache.purge_upto(&(1, 2));
    assert_eq!(cache.item_count(), 3);
    assert_eq!(cache.total_size(), 22);

    assert_eq!(cache.get(&(1, 1)), None);
    assert_eq!(cache.get(&(1, 2)), None);
    assert_eq!(cache.get(&(2, 3)), Some(payload3.clone()));
    assert_eq!(cache.get(&(2, 4)), Some(payload4.clone()));
    assert_eq!(cache.get(&(2, 5)), Some(payload5.clone()));

    // Purge up to (2, 3)
    cache.purge_upto(&(2, 3));
    assert_eq!(cache.item_count(), 3);

    cache.set_last_evictable(Some((2, 3)));

    cache.purge_upto(&(2, 3));
    assert_eq!(cache.item_count(), 2);
    assert_eq!(cache.total_size(), 19);

    assert_eq!(cache.get(&(2, 3)), None);
    assert_eq!(cache.get(&(2, 4)), Some(payload4.clone()));
    assert_eq!(cache.get(&(2, 5)), Some(payload5.clone()));

    // Purge up to a key that doesn't exist but is between existing keys
    cache.set_last_evictable(Some((2, 4)));
    cache.purge_upto(&(2, 4));
    assert_eq!(cache.item_count(), 1);
    assert_eq!(cache.total_size(), 11);

    assert_eq!(cache.get(&(2, 4)), None);
    assert_eq!(cache.get(&(2, 5)), Some(payload5.clone()));

    // Purge up to a key larger than all existing keys
    cache.set_last_evictable(Some((3, 0)));
    cache.purge_upto(&(3, 0));
    assert_eq!(cache.item_count(), 0);
    assert_eq!(cache.total_size(), 0);

    assert_eq!(cache.get(&(2, 5)), None);
}

#[test]
fn test_drain_evictable_and_clear() {
    let mut cache = PayloadCache::<TestTypes>::new(10, 100);
    cache.insert((1, 1), "foo".to_string());
    cache.insert((1, 2), "bar".to_string());
    cache.insert((1, 3), "baz".to_string());
    assert_eq!(cache.item_count(), 3);

    // nothing is evictable yet
    cache.drain_evictable();
    assert_eq!(cache.item_count(), 3);

    cache.set_last_evictable(Some((1, 2)));
    assert_eq!(cache.last_evictable(), Some(&(1, 2)));
    cache.drain_evictable();
    assert_eq!(cache.item_count(), 1);
    assert_eq!(cache.total_size(), 3);
    assert_eq!(cache.get(&(1, 3)), Some("baz".to_string()));

    cache.clear();
    assert_eq!(cache.item_count(), 0);
    assert_eq!(cache.total_size(), 0);
    assert_eq!(cache.max_items(), 10);
    assert_eq!(cache.capacity(), 100);
}

#[test]
fn test_insert_replaces_payload_of_same_log_id() {
    let mut cache = PayloadCache::<TestTypes>::new(10, 100);
    cache.insert((1, 1), "foo".to_string());
    cache.insert((1, 1), "other".to_string());
    assert_eq!(cache.item_count(), 1);
    assert_eq!(cache.get(&(1, 1)), Some("other".to_string()));
    assert!(!cache.need_evict());
}

#[test]
fn test_total_size_is_sum_of_payloads() {
    let mut cache = PayloadCache::<TestTypes>::new(10, 100);
    cache.insert((1, 1), "ab".to_string());
    cache.insert((1, 2), "cde".to_string());
    cache.insert((1, 3), "f".to_string());
    assert_eq!(6, cache.total_size());

    cache.truncate_after(&(1, 2));
    assert_eq!(5, cache.total_size());

    cache.set_last_evictable(Some((1, 1)));
    cache.drain_evictable();
    assert_eq!(3, cache.total_size());

    cache.clear();
    assert_eq!(0, cache.total_size());
}
