use bandsnatch::api::bc_path;
use bandsnatch::api::classify_response;
use bandsnatch::api::collection_post_body;
use bandsnatch::api::filename_from_disposition;
use bandsnatch::api::needs_pagination;
use bandsnatch::api::paginate_pages;
use bandsnatch::api::paginate_step;
use bandsnatch::api::parse_collection_items;
use bandsnatch::api::parse_fanpage_blob;
use bandsnatch::api::resolve_digital_item;
use bandsnatch::api::retry_protocol_outcome;
use bandsnatch::api::scrape_fanpage;
use bandsnatch::api::structs::CollectionData;
use bandsnatch::api::structs::DownloadsMap;
use bandsnatch::api::ApiError;
use bandsnatch::api::RequestOutcome;
use bandsnatch::api::RetryDecision;
use bandsnatch::api::MAX_RETRIES;

#[test]
fn rate_limit_retry_succeeds_on_fifth_attempt() {
    let statuses: Vec<u16> = vec![429, 429, 429, 429, 200];
    let (outcome, used) = retry_protocol_outcome(&statuses);
    assert_eq!(outcome, Some(RequestOutcome::Success));
    assert_eq!(used, 5);
}

#[test]
fn rate_limit_retry_gives_up_after_max_retries() {
    let statuses: Vec<u16> = vec![429, 429, 429, 429, 429, 429, 429, 429];
    let (outcome, used) = retry_protocol_outcome(&statuses);
    assert_eq!(outcome, Some(RequestOutcome::RateLimited));
    assert_eq!(used, MAX_RETRIES as usize + 1);
}

#[test]
fn other_failures_are_not_retried() {
    let statuses: Vec<u16> = vec![503, 200];
    let (outcome, used) = retry_protocol_outcome(&statuses);
    assert_eq!(outcome, Some(RequestOutcome::Failed(503)));
    assert_eq!(used, 1);
    assert_eq!(classify_response(404, 0), RetryDecision::FailRequest);
    assert_eq!(classify_response(204, 0), RetryDecision::Proceed);
    assert_eq!(classify_response(429, 2), RetryDecision::RetryAfterCooldown);
    assert_eq!(classify_response(429, MAX_RETRIES), RetryDecision::FailRateLimited);
}

#[test]
fn bc_path_prefixes_the_service() {
    assert_eq!(bc_path("somefan"), "https://bandcamp.com/somefan");
    assert_eq!(
        bc_path("api/fancollection/1/collection_items"),
        "https://bandcamp.com/api/fancollection/1/collection_items"
    );
}

#[test]
fn post_body_is_the_documented_json() {
    assert_eq!(
        collection_post_body("1234567", "1668176855:1234:a::"),
        "{\"fan_id\":\"1234567\",\"older_than_token\":\"1668176855:1234:a::\"}"
    );
    assert_eq!(
        collection_post_body("1", "to\"k\\en"),
        "{\"fan_id\":\"1\",\"older_than_token\":\"to\\\"k\\\\en\"}"
    );
}

#[test]
fn pagination_need_follows_declared_sizes() {
    let cd = |item_count: Option<u16>, batch_size: Option<u16>| CollectionData {
        batch_size,
        item_count,
        last_token: None,
        redownload_urls: None,
    };
    assert!(needs_pagination(&cd(Some(3), Some(2))));
    assert!(!needs_pagination(&cd(Some(2), Some(2))));
    assert!(needs_pagination(&cd(Some(1), None)));
    assert!(!needs_pagination(&cd(None, Some(2))));
    assert!(!needs_pagination(&cd(None, None)));
}

#[test]
fn pagination_merges_batches_until_no_more_available() {
    let page1 = parse_collection_items(
        "{\"more_available\":true,\"last_token\":\"t1\",\
         \"redownload_urls\":{\"b1\":\"u1\",\"b2\":\"u2\"},\"items\":[]}",
    )
    .unwrap();
    let page2 = parse_collection_items(
        "{\"more_available\":false,\"last_token\":\"t2\",\
         \"redownload_urls\":{\"b3\":\"u3\",\"b2\":\"u2x\"},\"items\":[]}",
    )
    .unwrap();
    let pages = vec![page1, page2];
    let (map, tokens) = paginate_pages(DownloadsMap::new(), "t0".to_string(), &pages).unwrap();
    // exactly two requests, in token order
    assert_eq!(tokens, vec!["t0".to_string(), "t1".to_string()]);
    // the union of all batches, the later batch winning a duplicate
    assert_eq!(map.len(), 3);
    assert_eq!(map.get("b1"), Some(&"u1".to_string()));
    assert_eq!(map.get("b2"), Some(&"u2x".to_string()));
    assert_eq!(map.get("b3"), Some(&"u3".to_string()));
}

#[test]
fn pagination_model_reports_a_server_that_never_stops() {
    let page = parse_collection_items(
        "{\"more_available\":true,\"last_token\":\"t1\",\"redownload_urls\":{},\"items\":[]}",
    )
    .unwrap();
    assert!(paginate_pages(DownloadsMap::new(), "t0".to_string(), &vec![page]).is_none());
}

#[test]
fn paginate_step_merges_and_signals_continuation() {
    let mut acc = DownloadsMap::new();
    acc.insert("a".to_string(), "u".to_string());
    let page = parse_collection_items(
        "{\"more_available\":true,\"last_token\":\"next\",\
         \"redownload_urls\":{\"b\":\"v\"},\"items\":[]}",
    )
    .unwrap();
    let cont = paginate_step(&mut acc, &page);
    assert_eq!(cont, Some("next".to_string()));
    assert_eq!(acc.len(), 2);
}

#[test]
fn filename_is_read_from_the_disposition_header() {
    let header = "attachment; filename=\"Artíst - Albûm.zip\"; size=123";
    assert_eq!(
        filename_from_disposition(header),
        Some("Artíst - Albûm.zip".to_string())
    );
    assert_eq!(
        filename_from_disposition("attachment; filename=plain.flac"),
        Some("plain.flac".to_string())
    );
    assert_eq!(filename_from_disposition("attachment; size=3"), None);
    assert_eq!(filename_from_disposition(""), None);
}

#[test]
fn fanpage_blob_parses_into_plain_data() {
    let blob = "{\"fan_data\":{\"fan_id\":1234567,\"is_own_page\":true},\
        \"collection_data\":{\"batch_size\":2,\"item_count\":3,\"last_token\":\"tok0\",\
        \"redownload_urls\":{\"p1\":\"https://bc/dl/1\",\"p2\":\"https://bc/dl/2\"}},\
        \"hidden_data\":{\"batch_size\":null,\"item_count\":null,\"last_token\":null,\
        \"redownload_urls\":null},\"item_cache\":{\"collection\":{}}}";
    let data = parse_fanpage_blob(blob).unwrap();
    assert_eq!(data.fan_data.fan_id, "1234567");
    assert_eq!(data.fan_data.is_own_page, Some(true));
    assert_eq!(data.collection_data.batch_size, Some(2));
    assert_eq!(data.collection_data.item_count, Some(3));
    assert_eq!(data.collection_data.last_token, Some("tok0".to_string()));
    let urls = data.collection_data.redownload_urls.unwrap();
    assert_eq!(urls.len(), 2);
    assert_eq!(urls.get("p1"), Some(&"https://bc/dl/1".to_string()));
}

#[test]
fn fanpage_blob_with_string_fan_id_parses_too() {
    let blob = "{\"fan_data\":{\"fan_id\":\"42\"},\
        \"collection_data\":{},\"hidden_data\":{},\"item_cache\":{\"collection\":{}}}";
    let data = parse_fanpage_blob(blob).unwrap();
    assert_eq!(data.fan_data.fan_id, "42");
    assert_eq!(data.fan_data.is_own_page, None);
}

#[test]
fn malformed_blob_is_a_parse_failure() {
    assert!(matches!(parse_fanpage_blob("{not json"), Err(ApiError::ParseFailure)));
    assert!(matches!(parse_fanpage_blob("{}"), Err(ApiError::ParseFailure)));
    assert!(matches!(
        parse_collection_items("{\"more_available\":\"yes\"}"),
        Err(ApiError::ParseFailure)
    ));
}

#[test]
fn scrape_reads_the_pagedata_element() {
    let blob = "{\"fan_data\":{\"fan_id\":7,\"is_own_page\":true},\
        \"collection_data\":{},\"hidden_data\":{},\"item_cache\":{\"collection\":{}}}";
    let html = format!(
        "<html><body><div id=\"pagedata\" data-blob='{}'></div></body></html>",
        blob
    );
    let data = scrape_fanpage(&html).unwrap();
    assert_eq!(data.fan_data.fan_id, "7");
    assert!(matches!(
        scrape_fanpage("<html><body><p>nothing here</p></body></html>"),
        Err(ApiError::ParseFailure)
    ));
}

#[test]
fn missing_item_and_corrupt_item_stay_distinguishable() {
    // no pagedata blob at all: the item legitimately is not there
    let resolved = resolve_digital_item("<html><body></body></html>").unwrap();
    assert!(resolved.is_none());
    // a blob that is not valid JSON: surfaced as an error, never as absence
    let html = "<div id=\"pagedata\" data-blob='{broken'></div>";
    assert!(matches!(resolve_digital_item(html), Err(ApiError::ParseFailure)));
    // a well-formed blob with no items: absence again
    let html = "<div id=\"pagedata\" data-blob='{\"digital_items\":[]}'></div>";
    assert!(resolve_digital_item(html).unwrap().is_none());
}
