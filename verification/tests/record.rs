use test_api::record::{
    covered_by, extract_primary_key, key_matches_exec, lookup_attr, record_key_of, Attr, Record,
    RecordKey,
};

fn attr(name: &str, value: &str) -> Attr {
    Attr { name: name.to_string(), value: value.to_string() }
}

fn keyed_record(pk: &str, sk: &str) -> Record {
    Record { attrs: vec![attr("pk", pk), attr("sk", sk), attr("hash", "h")] }
}

#[test]
fn should_look_up_first_attribute_match() {
    let rec = Record { attrs: vec![attr("a", "1"), attr("b", "2"), attr("a", "3")] };
    assert_eq!(lookup_attr(&rec, "a").unwrap().as_str(), "1");
    assert_eq!(lookup_attr(&rec, "b").unwrap().as_str(), "2");
    assert!(lookup_attr(&rec, "c").is_none());
}

#[test]
fn should_extract_composite_primary_key() {
    let rec = keyed_record("item#1", "2024-01-01T00:00:00Z");
    let key = extract_primary_key(&rec);
    assert_eq!(key.attrs.len(), 2);
    assert_eq!(lookup_attr(&key, "pk").unwrap().as_str(), "item#1");
    assert_eq!(lookup_attr(&key, "sk").unwrap().as_str(), "2024-01-01T00:00:00Z");
    assert!(lookup_attr(&key, "hash").is_none());
}

#[test]
fn should_extract_partition_key_alone() {
    let rec = Record { attrs: vec![attr("pk", "p1"), attr("other", "x")] };
    let key = extract_primary_key(&rec);
    assert_eq!(key.attrs.len(), 1);
    assert_eq!(lookup_attr(&key, "pk").unwrap().as_str(), "p1");
    assert!(lookup_attr(&key, "sk").is_none());
}

#[test]
fn should_extract_nothing_from_unkeyed_record() {
    let rec = Record { attrs: vec![attr("other", "x")] };
    let key = extract_primary_key(&rec);
    assert_eq!(key.attrs.len(), 0);
}

#[test]
fn should_build_structured_key() {
    let rec = keyed_record("p", "s");
    let key = record_key_of(&rec).unwrap();
    assert_eq!(key.pk, "p");
    assert_eq!(key.sk.clone().unwrap().as_str(), "s");
    assert!(key_matches_exec(&rec, &key));

    let other = RecordKey { pk: "p".to_string(), sk: None };
    assert!(!key_matches_exec(&rec, &other));
}

#[test]
fn should_report_missing_partition_key() {
    let rec = Record { attrs: vec![attr("sk", "s")] };
    assert!(record_key_of(&rec).is_none());
}

#[test]
fn should_test_key_coverage() {
    let rec = keyed_record("p", "s");
    let hit = RecordKey { pk: "p".to_string(), sk: Some("s".to_string()) };
    let miss = RecordKey { pk: "q".to_string(), sk: Some("s".to_string()) };
    assert!(covered_by(&rec, &vec![miss.clone(), hit]));
    assert!(!covered_by(&rec, &vec![miss]));
    assert!(!covered_by(&rec, &vec![]));
}
