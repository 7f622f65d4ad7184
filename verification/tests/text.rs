use test_api::item::{format_timestamp, ItemModel, ItemState};
use test_api::text::{fnv64_fold, sanitize_category, u64_to_dec_string, u64_to_hex16_string};

#[test]
fn should_render_decimal_zero() {
    assert_eq!(u64_to_dec_string(0), "0");
}

#[test]
fn should_render_decimal_numbers() {
    assert_eq!(u64_to_dec_string(7), "7");
    assert_eq!(u64_to_dec_string(12345), "12345");
    assert_eq!(u64_to_dec_string(1000), "1000");
    assert_eq!(u64_to_dec_string(u64::MAX), "18446744073709551615");
}

#[test]
fn should_render_hexadecimal_padded() {
    assert_eq!(u64_to_hex16_string(0), "0000000000000000");
    assert_eq!(u64_to_hex16_string(255), "00000000000000ff");
    assert_eq!(u64_to_hex16_string(0xdeadbeef), "00000000deadbeef");
    assert_eq!(u64_to_hex16_string(u64::MAX), "ffffffffffffffff");
}

#[test]
fn should_fold_nothing_to_the_basis() {
    assert_eq!(fnv64_fold("", 14695981039346656037), 14695981039346656037);
}

#[test]
fn should_fold_one_character() {
    assert_eq!(fnv64_fold("a", 14695981039346656037), 12638187200555641996);
}

#[test]
fn should_sanitize_categories() {
    assert_eq!(sanitize_category("a b.c,d"), "a/bcd");
    assert_eq!(sanitize_category("lorem ipsum dolor"), "lorem/ipsum/dolor");
    assert_eq!(sanitize_category(""), "");
    assert_eq!(sanitize_category("..,,"), "");
}

fn empty_item(id: &str) -> ItemModel {
    ItemModel {
        item_id: id.to_string(),
        created: None,
        source_id: None,
        event_id: None,
        state: None,
        price: None,
        category: None,
        name_en: None,
        description_en: None,
        name_de: None,
        description_de: None,
        url: None,
        image_url: None,
        hash: None,
    }
}

#[test]
fn should_hash_minimal_item() {
    let item = empty_item("i1");
    assert_eq!(item.content_hash(), "7ff47137b260ec6f");
}

#[test]
fn should_hash_full_item() {
    let mut item = empty_item("id-1");
    item.source_id = Some("src".to_string());
    item.state = Some(ItemState::Available);
    item.price = Some(1999);
    item.category = Some("a/b".to_string());
    item.name_en = Some("Name".to_string());
    item.description_en = Some("Desc".to_string());
    item.name_de = Some("NameDe".to_string());
    item.description_de = Some("DescDe".to_string());
    item.url = Some("u".to_string());
    item.image_url = Some("img".to_string());
    assert_eq!(item.content_hash(), "b2bc38597029d44d");
}

#[test]
fn should_not_let_hash_depend_on_volatile_fields() {
    let mut a = empty_item("same");
    let mut b = empty_item("same");
    a.created = Some("2024-01-01T00:00:00Z".to_string());
    b.created = Some("2025-06-30T12:00:00Z".to_string());
    a.event_id = Some("e1".to_string());
    b.event_id = Some("e2".to_string());
    assert_eq!(a.content_hash(), b.content_hash());
}

#[test]
fn should_format_timestamps() {
    assert_eq!(format_timestamp(0).unwrap(), "1970-01-01T00:00:00Z");
    assert_eq!(format_timestamp(1546300800).unwrap(), "2019-01-01T00:00:00Z");
    assert_eq!(format_timestamp(253402300799).unwrap(), "9999-12-31T23:59:59Z");
    assert!(format_timestamp(-1).is_none());
    assert!(format_timestamp(253402300800).is_none());
}
