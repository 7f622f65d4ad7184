use test_api::batch::into_batches;
use test_api::lifecycle::{erase_table, reset, setup, HarnessError};
use test_api::record::{Attr, Record};
use test_api::store::ModelStore;

fn fixture(i: usize) -> Record {
    Record {
        attrs: vec![
            Attr { name: "pk".to_string(), value: format!("item#{i}") },
            Attr { name: "sk".to_string(), value: format!("2024-01-01T00:00:{:02}Z", i % 60) },
            Attr { name: "party_id".to_string(), value: "party#1".to_string() },
            Attr { name: "event_id".to_string(), value: format!("event#{i}") },
            Attr { name: "hash".to_string(), value: "0123456789abcdef".to_string() },
        ],
    }
}

fn fixtures(n: usize) -> Vec<Record> {
    (0..n).map(fixture).collect()
}

#[test]
fn should_set_up_tables_for_setup() {
    let mut store = ModelStore::new();
    setup(&mut store, fixtures(25)).unwrap();

    let tables = store.list_table_names();
    assert_eq!(tables.len(), 3);
    assert!(tables.contains(&"parties".to_string()));
    assert!(tables.contains(&"items".to_string()));
    assert!(tables.contains(&"filters".to_string()));
}

#[test]
fn should_insert_test_items_for_setup() {
    let mut store = ModelStore::new();
    setup(&mut store, fixtures(25)).unwrap();

    let items = store.find_table("items").unwrap();
    assert_eq!(store.scan_count(items, 10), 25);
}

#[test]
fn should_write_one_batch_for_twenty_five_items() {
    let mut store = ModelStore::new();
    let calls = setup(&mut store, fixtures(25)).unwrap();
    assert_eq!(calls, 1);

    let items = store.find_table("items").unwrap();
    assert_eq!(store.scan_count(items, 100), 25);
}

#[test]
fn should_write_two_batches_for_thirty_items() {
    let mut store = ModelStore::new();
    let calls = setup(&mut store, fixtures(30)).unwrap();
    assert_eq!(calls, 2);

    let items = store.find_table("items").unwrap();
    assert_eq!(store.scan_count(items, 100), 30);
}

#[test]
fn should_store_fixture_contents_in_order() {
    let mut store = ModelStore::new();
    setup(&mut store, fixtures(3)).unwrap();
    let items = store.find_table("items").unwrap();

    let page = store.scan(items, 0, 10);
    assert_eq!(page.records.len(), 3);
    for (i, rec) in page.records.iter().enumerate() {
        let pk = test_api::record::lookup_attr(rec, "pk").unwrap();
        assert_eq!(pk.as_str(), format!("item#{i}"));
        let party = test_api::record::lookup_attr(rec, "party_id").unwrap();
        assert_eq!(party.as_str(), "party#1");
    }
}

#[test]
fn should_be_idempotent_across_repeated_setup() {
    let mut store = ModelStore::new();
    setup(&mut store, fixtures(25)).unwrap();
    setup(&mut store, fixtures(25)).unwrap();

    assert_eq!(store.table_count(), 3);
    let items = store.find_table("items").unwrap();
    assert_eq!(store.scan_count(items, 100), 25);
}

#[test]
fn should_drop_extra_items_for_reset() {
    let mut store = ModelStore::new();
    setup(&mut store, fixtures(25)).unwrap();
    let items = store.find_table("items").unwrap();

    // a stray record written outside the fixture set
    store.batch_write(items, vec![fixture(1000)]);
    assert_eq!(store.scan_count(items, 100), 26);

    let calls = reset(&mut store, fixtures(25), 100).unwrap();
    assert_eq!(calls, 1);
    assert_eq!(store.scan_count(items, 100), 25);
}

#[test]
fn should_empty_other_tables_for_reset() {
    let mut store = ModelStore::new();
    setup(&mut store, fixtures(25)).unwrap();
    let parties = store.find_table("parties").unwrap();
    store.batch_write(parties, vec![fixture(7)]);
    assert_eq!(store.table_len(parties), 1);

    reset(&mut store, fixtures(25), 100).unwrap();
    assert_eq!(store.table_len(parties), 0);
}

#[test]
fn should_refuse_duplicate_fixture_keys() {
    let mut store = ModelStore::new();
    let mut dup = fixtures(3);
    dup.push(fixture(1));
    assert_eq!(setup(&mut store, dup), Err(HarnessError::InvalidFixtures));
    assert_eq!(store.table_count(), 0);
}

#[test]
fn should_refuse_unkeyed_fixture_records() {
    let mut store = ModelStore::new();
    let bad = vec![Record { attrs: vec![Attr { name: "x".to_string(), value: "y".to_string() }] }];
    assert_eq!(setup(&mut store, bad), Err(HarnessError::InvalidFixtures));
}

#[test]
fn should_report_missing_items_table_for_reset() {
    let mut store = ModelStore::new();
    assert_eq!(reset(&mut store, fixtures(2), 10), Err(HarnessError::MissingItemsTable));
}

#[test]
fn should_erase_large_table_in_multiple_pages_and_batches() {
    let mut store = ModelStore::new();
    setup(&mut store, fixtures(30)).unwrap();
    let items = store.find_table("items").unwrap();

    let counts = erase_table(&mut store, items, 10);
    assert_eq!(counts.scan_calls, 3);
    assert_eq!(counts.delete_batch_calls, 3);
    assert_eq!(store.table_len(items), 0);
}

#[test]
fn should_erase_with_single_page_in_two_delete_batches() {
    let mut store = ModelStore::new();
    setup(&mut store, fixtures(30)).unwrap();
    let items = store.find_table("items").unwrap();

    let counts = erase_table(&mut store, items, 1000);
    assert_eq!(counts.scan_calls, 1);
    assert_eq!(counts.delete_batch_calls, 2);
    assert_eq!(store.table_len(items), 0);
}

#[test]
fn should_scan_empty_table_once_for_erase() {
    let mut store = ModelStore::new();
    setup(&mut store, Vec::new()).unwrap();
    let parties = store.find_table("parties").unwrap();

    let counts = erase_table(&mut store, parties, 10);
    assert_eq!(counts.scan_calls, 1);
    assert_eq!(counts.delete_batch_calls, 0);
}

#[test]
fn should_paginate_scans_with_cursor() {
    let mut store = ModelStore::new();
    setup(&mut store, fixtures(25)).unwrap();
    let items = store.find_table("items").unwrap();

    let first = store.scan(items, 0, 10);
    assert_eq!(first.records.len(), 10);
    assert_eq!(first.next_cursor, Some(10));

    let second = store.scan(items, 10, 10);
    assert_eq!(second.records.len(), 10);
    assert_eq!(second.next_cursor, Some(20));

    let last = store.scan(items, 20, 10);
    assert_eq!(last.records.len(), 5);
    assert_eq!(last.next_cursor, None);
}

#[test]
fn should_chunk_in_batches_of_twenty_five() {
    let empty: Vec<u64> = Vec::new();
    assert_eq!(into_batches(empty).len(), 0);

    let one: Vec<u64> = (0..1).collect();
    assert_eq!(into_batches(one).len(), 1);

    let exact: Vec<u64> = (0..25).collect();
    let exact_batches = into_batches(exact);
    assert_eq!(exact_batches.len(), 1);
    assert_eq!(exact_batches[0].len(), 25);

    let over: Vec<u64> = (0..26).collect();
    let over_batches = into_batches(over);
    assert_eq!(over_batches.len(), 2);
    assert_eq!(over_batches[0].len(), 25);
    assert_eq!(over_batches[1].len(), 1);

    let sixty: Vec<u64> = (0..60).collect();
    let sixty_batches = into_batches(sixty);
    assert_eq!(sixty_batches.len(), 3);
    assert_eq!(sixty_batches[2].len(), 10);
    assert_eq!(sixty_batches[1][0], 25);
    assert_eq!(sixty_batches[2][9], 59);
}

#[test]
fn should_overwrite_record_with_same_key() {
    let mut store = ModelStore::new();
    setup(&mut store, fixtures(3)).unwrap();
    let items = store.find_table("items").unwrap();

    // the same composite key again: a put, not a new record
    store.batch_write(items, vec![fixture(1)]);
    assert_eq!(store.table_len(items), 3);
}
