use test_api::generator::Generator;
use test_api::item::rand_opt;
use test_api::item::ItemModel;

#[test]
fn should_generate_random_item() {
    let item = ItemModel::generate();

    assert!(item.created.is_some());
    assert!(item.source_id.is_some());
    assert!(item.event_id.is_some());
    assert!(item.url.is_some());
    assert!(item.hash.is_some());
}

#[test]
fn should_generate_well_formed_item() {
    let item = ItemModel::generate();
    assert!(item.is_well_formed());
}

#[test]
fn should_generate_item_with_expected_shapes() {
    let item = ItemModel::generate();

    // base address: "https://" + 10 alphanumerics + ".com"
    let source = item.source_id.clone().unwrap();
    assert_eq!(source.chars().count(), 22);
    assert!(source.starts_with("https://"));
    assert!(source.ends_with(".com"));

    // item identifier: base address + '#' + 36-char uuid
    assert_eq!(item.item_id.chars().count(), 59);
    assert!(item.item_id.starts_with(&source));

    // creation timestamp: 20-char RFC 3339 form
    let created = item.created.clone().unwrap();
    let cs: Vec<char> = created.chars().collect();
    assert_eq!(cs.len(), 20);
    assert_eq!(cs[4], '-');
    assert_eq!(cs[7], '-');
    assert_eq!(cs[10], 'T');
    assert_eq!(cs[13], ':');
    assert_eq!(cs[16], ':');
    assert_eq!(cs[19], 'Z');

    // event identifier: item identifier + '#' + timestamp
    let event = item.event_id.clone().unwrap();
    assert_eq!(event.chars().count(), 59 + 1 + 20);
    assert!(event.starts_with(&item.item_id));
    assert!(event.ends_with(&created));

    // content hash: 16 hexadecimal digits
    let hash = item.hash.clone().unwrap();
    assert_eq!(hash.chars().count(), 16);
    assert!(hash.chars().all(|c| c.is_ascii_hexdigit()));

    // the url always mirrors the base address
    assert_eq!(item.url.clone().unwrap(), source);

    // a present price lies in the generated range of minor units
    if let Some(p) = item.price {
        assert!((500..5000000).contains(&p));
    }

    // a present image url wraps the base address and the item's
    // 36-character identifier
    if let Some(img) = &item.image_url {
        assert_eq!(img.chars().count(), 71);
        assert!(img.starts_with("https://https://"));
        assert!(img.ends_with(".png"));
    }
}

#[test]
fn should_tie_hash_to_generated_fields() {
    let item = ItemModel::generate();
    let mut unhashed = item;
    let recorded = unhashed.hash.take().unwrap();
    assert_eq!(unhashed.content_hash(), recorded);
}

#[test]
fn should_honor_certain_ratio_draws() {
    for _ in 0..20 {
        assert_eq!(rand_opt(7u64, 5, 5), Some(7));
        assert_eq!(rand_opt(7u64, 0, 5), None);
    }
}

#[test]
fn should_sanitize_generated_categories() {
    let items: Vec<ItemModel> = ItemModel::generate_many(40);
    let mut seen_category = false;
    let mut seen_description = false;
    for item in &items {
        if let Some(cat) = &item.category {
            seen_category = true;
            assert!(!cat.contains(' '));
            assert!(!cat.contains('.'));
            assert!(!cat.contains(','));
        }
        if let Some(desc) = &item.description_en {
            seen_description = true;
            assert!(!desc.is_empty());
        }
    }
    assert!(seen_category);
    assert!(seen_description);
}

#[test]
fn should_generate_many_items() {
    let items: Vec<ItemModel> = ItemModel::generate_many(7);
    assert_eq!(items.len(), 7);
}

#[test]
fn should_generate_fixed_number_of_items() {
    let items: Vec<ItemModel> = ItemModel::generate_n::<3>();
    assert_eq!(items.len(), 3);
}
