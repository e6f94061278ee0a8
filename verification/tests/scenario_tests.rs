//! The full synchronization flow against recorded responses: a landing page
//! declaring three items in batches of two, one pagination page for the
//! third, two single-track items and one without downloads.

use bandsnatch::api::paginate_pages;
use bandsnatch::api::parse_collection_items;
use bandsnatch::api::plan_from_landing_page;
use bandsnatch::api::resolve_digital_item;
use bandsnatch::api::ApiError;
use bandsnatch::cache::Cache;
use bandsnatch::run::filter_new_items;
use bandsnatch::run::sentinel_description;
use bandsnatch::run::worker_plan;
use bandsnatch::run::WorkerPlan;
use bandsnatch::util::WorkQueue;

fn landing_page(own: bool) -> String {
    let blob = format!(
        "{{\"fan_data\":{{\"fan_id\":1234567,\"is_own_page\":{}}},\
         \"collection_data\":{{\"batch_size\":2,\"item_count\":3,\"last_token\":\"tok0\",\
         \"redownload_urls\":{{\"p1\":\"https://bc/dl/1\",\"p2\":\"https://bc/dl/2\"}}}},\
         \"hidden_data\":{{\"batch_size\":null,\"item_count\":null,\"last_token\":null,\
         \"redownload_urls\":null}},\"item_cache\":{{\"collection\":{{}}}}}}",
        own
    );
    format!(
        "<html><head><title>Music Collection</title></head>\
         <body><div id=\"pagedata\" data-blob='{}'></div></body></html>",
        blob
    )
}

fn detail_page(title: &str, with_download: bool) -> String {
    let downloads = if with_download {
        "{\"flac\":{\"url\":\"https://bc/file.flac\"}}"
    } else {
        "null"
    };
    let blob = format!(
        "{{\"digital_items\":[{{\"downloads\":{},\
         \"package_release_date\":\"21 Sep 2018 00:00:00 GMT\",\
         \"title\":\"{}\",\"artist\":\"Artist A\",\
         \"download_type\":\"t\",\"download_type_str\":\"track\",\"item_type\":\"track\"}}]}}",
        downloads, title
    );
    format!("<div id=\"pagedata\" data-blob='{}'></div>", blob)
}

#[test]
fn full_run_against_recorded_responses() {
    // landing page: 3 items declared, batch of 2, so pagination is needed
    let plan = plan_from_landing_page(&landing_page(true)).unwrap();
    assert_eq!(plan.fan_id, "1234567");
    assert_eq!(plan.page_name, "Music Collection");
    assert_eq!(plan.pagination_token, Some("tok0".to_string()));
    assert_eq!(plan.initial.len(), 2);

    // one pagination page supplies the third item and stops
    let page = parse_collection_items(
        "{\"more_available\":false,\"last_token\":\"tokend\",\
         \"redownload_urls\":{\"p3\":\"https://bc/dl/3\"},\"items\":[]}",
    )
    .unwrap();
    let first_token = plan.pagination_token.clone().unwrap();
    let (map, tokens) = paginate_pages(plan.initial, first_token, &vec![page]).unwrap();
    assert_eq!(tokens, vec!["tok0".to_string()]);
    // the item map has exactly 3 entries before filtering
    assert_eq!(map.len(), 3);

    // nothing is in the ledger yet, so all three items are queued
    let mut cache = Cache::new(None);
    let items = filter_new_items(map.into_pairs(), &cache.content(), false);
    assert_eq!(items.len(), 3);
    let mut queue = WorkQueue::from_vec(items);

    let mut successes = 0;
    let mut sentinels: Vec<String> = Vec::new();
    while let Some((id, _url)) = queue.get_work() {
        // two items resolve to single tracks with one format; one has no downloads
        let with_download = id != "p3";
        let resolved = resolve_digital_item(&detail_page(&format!("Item {}", id), with_download));
        let plan = worker_plan(resolved);
        if let Some(sentinel) = sentinel_description(&plan) {
            cache.add(&id, &sentinel);
            sentinels.push(sentinel);
            continue;
        }
        match plan {
            WorkerPlan::Download(item) => {
                // a single track is stored as one file: no archive step
                assert!(item.is_single());
                assert!(item.download_url_for("flac").is_some());
                successes += 1;
                if cache.add_if_absent(&id, "done").is_none() {
                    panic!("duplicate ledger write for {}", id);
                }
            },
            _ => panic!("unexpected plan"),
        }
    }
    assert_eq!(successes, 2);
    assert_eq!(sentinels, vec!["No downloads".to_string()]);
    assert_eq!(cache.content().len(), 3);
}

#[test]
fn landing_page_without_title_does_not_parse() {
    let blob = "{\"fan_data\":{\"fan_id\":1,\"is_own_page\":true},\
        \"collection_data\":{\"redownload_urls\":{}},\"hidden_data\":{},\
        \"item_cache\":{\"collection\":{}}}";
    let html = format!("<div id=\"pagedata\" data-blob='{}'></div>", blob);
    assert!(matches!(plan_from_landing_page(&html), Err(ApiError::ParseFailure)));
}

#[test]
fn foreign_landing_page_is_access_denied() {
    assert!(matches!(
        plan_from_landing_page(&landing_page(false)),
        Err(ApiError::AccessDenied)
    ));
}
