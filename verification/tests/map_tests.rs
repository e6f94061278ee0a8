use bandsnatch::api::parse_collection_items;
use bandsnatch::api::parse_fanpage_blob;
use bandsnatch::api::structs::DownloadsMap;
use bandsnatch::api::ApiError;

#[test]
fn map_insert_is_last_write_wins() {
    let mut m = DownloadsMap::new();
    assert_eq!(m.len(), 0);
    m.insert("a".to_string(), "u1".to_string());
    m.insert("b".to_string(), "u2".to_string());
    m.insert("a".to_string(), "u3".to_string());
    assert_eq!(m.len(), 2);
    assert_eq!(m.get("a"), Some(&"u3".to_string()));
    assert_eq!(m.get("b"), Some(&"u2".to_string()));
    assert_eq!(m.get("c"), None);
    assert!(m.contains_key("a"));
    assert!(!m.contains_key("c"));
}

#[test]
fn map_extend_prefers_the_other_side() {
    let mut m = DownloadsMap::new();
    m.insert("a".to_string(), "old".to_string());
    m.insert("b".to_string(), "keep".to_string());
    let mut other = DownloadsMap::new();
    other.insert("a".to_string(), "new".to_string());
    other.insert("c".to_string(), "more".to_string());
    m.extend(&other);
    assert_eq!(m.len(), 3);
    assert_eq!(m.get("a"), Some(&"new".to_string()));
    assert_eq!(m.get("b"), Some(&"keep".to_string()));
    assert_eq!(m.get("c"), Some(&"more".to_string()));
}

#[test]
fn map_duplicate_and_pairs_round_trip() {
    let mut m = DownloadsMap::new();
    m.insert("x".to_string(), "1".to_string());
    m.insert("y".to_string(), "2".to_string());
    let copy = m.duplicate();
    assert_eq!(copy.len(), 2);
    let pairs = m.into_pairs();
    assert_eq!(
        pairs,
        vec![("x".to_string(), "1".to_string()), ("y".to_string(), "2".to_string())]
    );
}

#[test]
fn item_cache_entries_parse_into_items() {
    let blob = "{\"fan_data\":{\"fan_id\":9},\
        \"collection_data\":{},\"hidden_data\":{},\
        \"item_cache\":{\"collection\":{\
            \"p101\":{\"sale_item_id\":101,\"sale_item_type\":\"a\",\
            \"band_name\":\"Band X\",\"item_title\":\"Album Y\"}}}}";
    let data = parse_fanpage_blob(blob).unwrap();
    assert_eq!(data.item_cache.collection.len(), 1);
    let (id, item) = &data.item_cache.collection[0];
    assert_eq!(id, "p101");
    assert_eq!(item.sale_item_id, 101);
    assert_eq!(item.band_name, "Band X");
    assert_eq!(item.item_title, "Album Y");
}

#[test]
fn collection_page_items_parse_too() {
    let page = parse_collection_items(
        "{\"more_available\":false,\"last_token\":\"t\",\"redownload_urls\":{},\
         \"items\":[{\"sale_item_id\":7,\"sale_item_type\":\"p\",\
         \"band_name\":\"B\",\"item_title\":\"T\"}]}",
    )
    .unwrap();
    assert_eq!(page.items.len(), 1);
    assert_eq!(page.items[0].sale_item_id, 7);
}

#[test]
fn non_string_url_value_does_not_parse() {
    let blob = "{\"fan_data\":{\"fan_id\":9},\
        \"collection_data\":{\"redownload_urls\":{\"p1\":42}},\"hidden_data\":{},\
        \"item_cache\":{\"collection\":{}}}";
    assert!(matches!(parse_fanpage_blob(blob), Err(ApiError::ParseFailure)));
}

#[test]
fn oversized_sizing_field_does_not_parse() {
    let blob = "{\"fan_data\":{\"fan_id\":9},\
        \"collection_data\":{\"batch_size\":70000},\"hidden_data\":{},\
        \"item_cache\":{\"collection\":{}}}";
    assert!(matches!(parse_fanpage_blob(blob), Err(ApiError::ParseFailure)));
}
