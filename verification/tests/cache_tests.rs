use bandsnatch::cache::Cache;
use bandsnatch::run::filter_new_items;

#[test]
fn missing_ledger_reads_as_empty() {
    let cache = Cache::new(None);
    assert_eq!(cache.content(), Vec::<String>::new());
    assert!(!cache.contains("123"));
}

#[test]
fn content_takes_id_before_delimiter() {
    let text = "111| Album One (2019) by A\n222| UNKNOWN\nplainline\n";
    let cache = Cache::new(Some(text.to_string()));
    assert_eq!(cache.content(), vec!["111", "222", "plainline"]);
    assert!(cache.contains("222"));
    assert!(!cache.contains("333"));
}

#[test]
fn add_appends_one_compatible_line() {
    let mut cache = Cache::new(None);
    let line = cache.add("4021", "Album (2020) by B");
    assert_eq!(line, "4021| Album (2020) by B\n");
    assert!(cache.contains("4021"));
    assert_eq!(cache.content(), vec!["4021"]);
}

#[test]
fn add_if_absent_never_writes_a_duplicate() {
    let mut cache = Cache::new(Some("77| earlier run\n".to_string()));
    assert!(cache.add_if_absent("77", "again").is_none());
    assert_eq!(cache.content(), vec!["77"]);
    let line = cache.add_if_absent("88", "fresh");
    assert_eq!(line, Some("88| fresh\n".to_string()));
    assert_eq!(cache.content(), vec!["77", "88"]);
    assert!(cache.add_if_absent("88", "fresh").is_none());
    assert_eq!(cache.content(), vec!["77", "88"]);
}

#[test]
fn ledger_filter_drops_recorded_items_unless_forced() {
    let items = vec![
        ("a1".to_string(), "u1".to_string()),
        ("a2".to_string(), "u2".to_string()),
        ("a3".to_string(), "u3".to_string()),
    ];
    let done = vec!["a2".to_string()];
    let kept = filter_new_items(items.clone(), &done, false);
    assert_eq!(
        kept,
        vec![("a1".to_string(), "u1".to_string()), ("a3".to_string(), "u3".to_string())]
    );
    let forced = filter_new_items(items.clone(), &done, true);
    assert_eq!(forced, items);
}
