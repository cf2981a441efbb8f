use p2p_chat::record::MessageRecord;
use p2p_chat::store::{same_text, Entry, Store, StoreError, MAX_LABEL_LEN, MAX_RECORD_SIZE};

fn record(id: &str, label: &str, created: u64, is_delete: bool) -> MessageRecord {
    MessageRecord { id: id.to_string(), label: label.to_string(), created, is_delete }
}

fn ids(list: &[MessageRecord]) -> Vec<String> {
    list.iter().map(|r| r.id.clone()).collect()
}

#[test]
fn a_new_store_lists_nothing() {
    let store = Store::new(7);
    assert_eq!(store.author(), 7);
    assert!(store.list().is_empty());
    assert!(store.versions().is_empty());
    assert_eq!(store.get("1"), None);
}

#[test]
fn add_then_list() {
    let mut store = Store::new(1);
    assert_eq!(store.add("1", "hi", 10), Ok(()));
    assert_eq!(store.list(), vec![record("1", "hi", 10, false)]);
    assert_eq!(store.get("1"), Some(record("1", "hi", 10, false)));
}

#[test]
fn add_writes_a_version_of_this_replica() {
    let mut store = Store::new(42);
    store.add("k", "v", 99).unwrap();
    let versions = store.versions();
    assert_eq!(versions.len(), 1);
    assert_eq!(
        versions[0],
        Entry {
            key: "k".to_string(),
            stamp: 99,
            writer: 42,
            content: Some(record("k", "v", 99, false).serialize()),
        }
    );
}

#[test]
fn add_under_a_held_key_replaces_the_record() {
    let mut store = Store::new(1);
    store.add("1", "first", 10).unwrap();
    store.add("2", "other", 11).unwrap();
    store.add("1", "second", 12).unwrap();
    assert_eq!(store.list(), vec![record("2", "other", 11, false), record("1", "second", 12, false)]);
    assert_eq!(store.versions().len(), 2);
}

#[test]
fn size_guard_refuses_a_record_of_the_limit() {
    let mut store = Store::new(1);
    store.add("0", "kept", 1).unwrap();
    let label = "x".repeat(MAX_RECORD_SIZE - 17 - 1);
    assert_eq!(store.add("1", &label, 10), Err(StoreError::TooLarge));
    assert_eq!(store.list(), vec![record("0", "kept", 1, false)]);
    assert_eq!(store.get("1"), None);
    assert_eq!(store.versions().len(), 1);
}

#[test]
fn size_guard_admits_a_record_one_byte_below_the_limit() {
    let mut store = Store::new(1);
    let label = "x".repeat(MAX_RECORD_SIZE - 17 - 2);
    assert_eq!(store.add("1", &label, 10), Ok(()));
    assert_eq!(store.versions()[0].content.as_ref().unwrap().len(), 2047);
}

#[test]
fn size_guard_counts_bytes_not_characters() {
    let mut store = Store::new(1);
    let label = "é".repeat(1015);
    assert_eq!(store.add("1", &label, 10), Err(StoreError::TooLarge));
    let label = "é".repeat(1014);
    assert_eq!(store.add("1", &label, 10), Ok(()));
}

#[test]
fn update_replaces_the_label_only() {
    let mut store = Store::new(1);
    store.add("1", "hi", 10).unwrap();
    assert_eq!(store.update("1", "bye", 20), Ok(()));
    assert_eq!(store.list(), vec![record("1", "bye", 10, false)]);
    assert_eq!(store.versions()[0].stamp, 20);
    assert_eq!(store.versions()[0].writer, 1);
}

#[test]
fn update_refuses_a_label_of_the_limit() {
    let mut store = Store::new(1);
    store.add("1", "hi", 10).unwrap();
    assert_eq!(store.update("1", &"x".repeat(MAX_LABEL_LEN), 20), Err(StoreError::TooLong));
    assert_eq!(store.list(), vec![record("1", "hi", 10, false)]);
    assert_eq!(store.update("1", &"x".repeat(MAX_LABEL_LEN - 1), 20), Ok(()));
}

#[test]
fn update_checks_the_label_before_the_key() {
    let mut store = Store::new(1);
    assert_eq!(store.update("none", &"x".repeat(MAX_LABEL_LEN), 20), Err(StoreError::TooLong));
}

#[test]
fn update_refuses_a_record_that_would_reach_the_limit() {
    let mut store = Store::new(1);
    let id = "i".repeat(100);
    store.add(&id, "short", 10).unwrap();
    assert_eq!(store.update(&id, &"x".repeat(1931), 20), Err(StoreError::TooLarge));
    assert_eq!(store.get(&id), Some(record(&id, "short", 10, false)));
    assert_eq!(store.update(&id, &"x".repeat(1930), 20), Ok(()));
}

#[test]
fn update_of_an_unknown_key_is_not_found() {
    let mut store = Store::new(1);
    store.add("1", "hi", 10).unwrap();
    assert_eq!(store.update("2", "bye", 20), Err(StoreError::NotFound));
    assert_eq!(store.list(), vec![record("1", "hi", 10, false)]);
}

#[test]
fn delete_of_an_unknown_key_is_not_found() {
    let mut store = Store::new(1);
    assert_eq!(store.delete("1", 20), Err(StoreError::NotFound));
    assert!(store.versions().is_empty());
}

#[test]
fn tombstone_exclusion() {
    let mut store = Store::new(1);
    store.add("1", "x", 10).unwrap();
    store.add("2", "y", 11).unwrap();
    assert_eq!(store.delete("1", 20), Ok(()));
    assert_eq!(ids(&store.list()), vec!["2".to_string()]);
    assert_eq!(store.get("1"), Some(record("1", "x", 10, true)));
    assert_eq!(store.versions().len(), 2);
}

#[test]
fn update_after_delete_finds_the_record_and_leaves_it_deleted() {
    let mut store = Store::new(1);
    store.add("1", "x", 10).unwrap();
    store.delete("1", 20).unwrap();
    assert_eq!(store.update("1", "again", 30), Ok(()));
    assert_eq!(store.get("1"), Some(record("1", "again", 10, true)));
    assert!(store.list().is_empty());
    assert_eq!(store.delete("1", 40), Ok(()));
}

#[test]
fn add_after_delete_brings_the_key_back() {
    let mut store = Store::new(1);
    store.add("1", "x", 10).unwrap();
    store.delete("1", 20).unwrap();
    store.add("1", "new", 30).unwrap();
    assert_eq!(store.list(), vec![record("1", "new", 30, false)]);
}

#[test]
fn list_is_ordered_by_creation_whatever_the_order_of_insertion() {
    let times: [u64; 3] = [100, 200, 300];
    let orders: [[usize; 3]; 6] =
        [[0, 1, 2], [0, 2, 1], [1, 0, 2], [1, 2, 0], [2, 0, 1], [2, 1, 0]];
    for order in orders {
        let mut store = Store::new(1);
        for k in order {
            store.add(&format!("m{}", k), "t", times[k]).unwrap();
        }
        let listed: Vec<u64> = store.list().iter().map(|r| r.created).collect();
        assert_eq!(listed, vec![100, 200, 300]);
    }
}

#[test]
fn records_of_one_creation_time_keep_the_order_of_their_entries() {
    let mut store = Store::new(1);
    store.add("b", "t", 5).unwrap();
    store.add("a", "t", 5).unwrap();
    store.add("c", "t", 4).unwrap();
    assert_eq!(ids(&store.list()), vec!["c".to_string(), "b".to_string(), "a".to_string()]);
}

#[test]
fn missing_content_is_listed_as_a_placeholder() {
    let mut store = Store::new(1);
    store.add("1", "hi", 10).unwrap();
    let arriving = Entry { key: "2".to_string(), stamp: 50, writer: 9, content: None };
    assert_eq!(store.merge(arriving), Ok(true));
    assert_eq!(
        store.list(),
        vec![record("2", "Missing Content", 0, false), record("1", "hi", 10, false)]
    );
    assert_eq!(store.get("2"), None);
    assert_eq!(store.update("2", "x", 60), Err(StoreError::NotFound));
    assert_eq!(store.delete("2", 60), Err(StoreError::NotFound));
}

#[test]
fn content_that_arrives_later_fills_the_placeholder() {
    let mut store = Store::new(1);
    store.merge(Entry { key: "2".to_string(), stamp: 50, writer: 9, content: None }).unwrap();
    let bytes = record("2", "there", 40, false).serialize();
    let full = Entry { key: "2".to_string(), stamp: 50, writer: 9, content: Some(bytes) };
    assert_eq!(store.merge(full.clone()), Ok(true));
    assert_eq!(store.list(), vec![record("2", "there", 40, false)]);
    assert_eq!(store.merge(full), Ok(false));
}

fn version(key: &str, label: &str, stamp: u64, writer: u64) -> Entry {
    Entry {
        key: key.to_string(),
        stamp,
        writer,
        content: Some(record(key, label, 1, false).serialize()),
    }
}

#[test]
fn merge_keeps_the_later_version() {
    let mut store = Store::new(1);
    assert_eq!(store.merge(version("k", "old", 10, 5)), Ok(true));
    assert_eq!(store.merge(version("k", "new", 11, 2)), Ok(true));
    assert_eq!(store.merge(version("k", "stale", 9, 8)), Ok(false));
    assert_eq!(store.list(), vec![record("k", "new", 1, false)]);
}

#[test]
fn merge_breaks_a_tie_by_the_writer() {
    let mut store = Store::new(1);
    assert_eq!(store.merge(version("k", "low", 10, 5)), Ok(true));
    assert_eq!(store.merge(version("k", "high", 10, 6)), Ok(true));
    assert_eq!(store.merge(version("k", "low", 10, 5)), Ok(false));
    assert_eq!(store.merge(version("k", "same", 10, 6)), Ok(false));
    assert_eq!(store.list(), vec![record("k", "high", 1, false)]);
}

#[test]
fn merge_gives_the_same_store_in_either_order() {
    let a = version("k", "a", 10, 5);
    let b = version("k", "b", 10, 6);
    let mut first = Store::new(1);
    first.add("k", "mine", 3).unwrap();
    let mut second = Store::new(1);
    second.add("k", "mine", 3).unwrap();
    first.merge(a.clone()).unwrap();
    first.merge(b.clone()).unwrap();
    second.merge(b).unwrap();
    second.merge(a).unwrap();
    assert_eq!(first.versions(), second.versions());
    assert_eq!(first.list(), vec![record("k", "b", 1, false)]);
}

#[test]
fn merge_refuses_what_may_not_be_held() {
    let mut store = Store::new(1);
    let big = record("k", &"x".repeat(2030), 1, false).serialize();
    assert_eq!(big.len(), 2048);
    let e = Entry { key: "k".to_string(), stamp: 1, writer: 2, content: Some(big) };
    assert_eq!(store.merge(e), Err(StoreError::TooLarge));
    let e = Entry { key: "k".to_string(), stamp: 1, writer: 2, content: Some(vec![1, 2, 3]) };
    assert_eq!(store.merge(e), Err(StoreError::Malformed));
    let other = record("other", "x", 1, false).serialize();
    let e = Entry { key: "k".to_string(), stamp: 1, writer: 2, content: Some(other) };
    assert_eq!(store.merge(e), Err(StoreError::Malformed));
    assert!(store.versions().is_empty());
}

#[test]
fn a_local_write_is_stamped_later_than_the_version_it_replaces() {
    let mut store = Store::new(1);
    let mut remote = Store::new(9);
    remote.merge(version("k", "remote", 100, 9)).unwrap();
    store.merge(version("k", "remote", 100, 9)).unwrap();
    store.update("k", "local", 50).unwrap();
    assert_eq!(store.list(), vec![record("k", "local", 1, false)]);
    assert_eq!(store.versions()[0].stamp, 101);
    assert_eq!(store.versions()[0].writer, 1);
    assert_eq!(remote.merge(store.versions()[0].clone()), Ok(true));
    assert_eq!(remote.list(), vec![record("k", "local", 1, false)]);
}

#[test]
fn a_clock_that_is_ahead_gives_the_stamp() {
    let mut store = Store::new(1);
    store.add("k", "a", 10).unwrap();
    store.update("k", "b", 25).unwrap();
    assert_eq!(store.versions()[0].stamp, 25);
    store.update("k", "c", 25).unwrap();
    assert_eq!(store.versions()[0].stamp, 26);
}

#[test]
fn writes_at_one_clock_value_all_reach_the_peer() {
    let mut a = Store::new(1);
    let mut b = Store::new(2);
    a.add("1", "hi", 7).unwrap();
    replicate(&a, &mut b);
    assert_eq!(b.list(), vec![record("1", "hi", 7, false)]);
    a.update("1", "bye", 7).unwrap();
    replicate(&a, &mut b);
    assert_eq!(b.list(), vec![record("1", "bye", 7, false)]);
    a.delete("1", 7).unwrap();
    let tombstone = a.versions()[0].clone();
    assert_eq!(tombstone.stamp, 9);
    assert_eq!(b.merge(tombstone), Ok(true));
    assert!(b.list().is_empty());
    assert_eq!(b.get("1"), Some(record("1", "bye", 7, true)));
}

#[test]
fn writes_at_one_clock_value_reach_a_peer_that_missed_some() {
    let mut a = Store::new(1);
    let mut b = Store::new(2);
    a.add("1", "hi", 7).unwrap();
    replicate(&a, &mut b);
    a.update("1", "bye", 7).unwrap();
    a.delete("1", 3).unwrap();
    replicate(&a, &mut b);
    assert!(b.list().is_empty());
}

#[test]
fn a_key_whose_stamps_are_used_up_takes_no_more_writes() {
    let mut store = Store::new(1);
    store.merge(version("k", "last", u64::MAX, 9)).unwrap();
    assert_eq!(store.add("k", "x", 5), Err(StoreError::Exhausted));
    assert_eq!(store.update("k", "x", 5), Err(StoreError::Exhausted));
    assert_eq!(store.delete("k", u64::MAX), Err(StoreError::Exhausted));
    assert_eq!(store.list(), vec![record("k", "last", 1, false)]);
    assert_eq!(store.add("other", "x", u64::MAX), Ok(()));
    assert_eq!(store.update("other", "y", 1), Err(StoreError::Exhausted));
    let huge = "x".repeat(3000);
    assert_eq!(store.add("k", &huge, 5), Err(StoreError::TooLarge));
}

#[test]
fn no_id_is_listed_twice() {
    let mut store = Store::new(1);
    store.add("a", "1", 5).unwrap();
    store.add("b", "2", 5).unwrap();
    store.add("a", "3", 5).unwrap();
    store.merge(version("b", "4", 50, 9)).unwrap();
    let listed = ids(&store.list());
    assert_eq!(listed.len(), 2);
    assert!(listed.contains(&"a".to_string()) && listed.contains(&"b".to_string()));
}

fn replicate(from: &Store, to: &mut Store) {
    for e in from.versions() {
        to.merge(e).unwrap();
    }
}

#[test]
fn a_message_added_on_one_node_is_listed_on_the_other() {
    let mut a = Store::new(1);
    let mut b = Store::new(2);
    a.add("1", "hi", 1000).unwrap();
    assert!(b.list().is_empty());
    replicate(&a, &mut b);
    let listed = b.list();
    assert_eq!(listed.len(), 1);
    assert_eq!(listed[0].id, "1");
    assert_eq!(listed[0].label, "hi");
    assert!(!listed[0].is_delete);
}

#[test]
fn a_message_updated_then_deleted_on_one_node_leaves_the_other() {
    let mut a = Store::new(1);
    let mut b = Store::new(2);
    a.add("1", "hi", 1000).unwrap();
    replicate(&a, &mut b);
    a.update("1", "bye", 1001).unwrap();
    replicate(&a, &mut b);
    assert_eq!(b.list(), vec![record("1", "bye", 1000, false)]);
    a.delete("1", 1002).unwrap();
    replicate(&a, &mut b);
    assert!(b.list().is_empty());
    assert_eq!(b.get("1"), Some(record("1", "bye", 1000, true)));
}

#[test]
fn same_text_compares_whole_texts() {
    assert!(same_text("", ""));
    assert!(same_text("abc", "abc"));
    assert!(!same_text("abc", "abd"));
    assert!(!same_text("abc", "ab"));
    assert!(!same_text("é", "e"));
}
