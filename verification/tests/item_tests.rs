use bandsnatch::api::resolve_digital_item;
use bandsnatch::api::structs::digital_item::DigitalItem;
use bandsnatch::api::structs::digital_item::DigitalItemDownload;
use bandsnatch::api::ApiError;
use bandsnatch::run::completion_description;
use bandsnatch::run::dry_run_line;
use bandsnatch::run::sentinel_description;
use bandsnatch::run::worker_plan;
use bandsnatch::run::WorkerPlan;

fn sample_item() -> DigitalItem {
    DigitalItem {
        downloads: Some(vec![(
            "flac".to_string(),
            DigitalItemDownload { url: "https://bc/file1.flac".to_string() },
        )]),
        package_release_date: Some("21 Sep 2018 00:00:00 GMT".to_string()),
        title: "Song One".to_string(),
        artist: "Artist A".to_string(),
        download_type: Some("t".to_string()),
        download_type_str: "track".to_string(),
        item_type: "track".to_string(),
    }
}

#[test]
fn single_detection_by_any_kind_tag() {
    let mut item = sample_item();
    assert!(item.is_single());
    item.download_type = Some("a".to_string());
    item.download_type_str = "album".to_string();
    item.item_type = "album".to_string();
    assert!(!item.is_single());
    item.item_type = "track".to_string();
    assert!(item.is_single());
    item.item_type = "album".to_string();
    item.download_type = None;
    item.download_type_str = "track".to_string();
    assert!(item.is_single());
}

#[test]
fn release_year_comes_from_the_date() {
    let mut item = sample_item();
    assert_eq!(item.release_year(), "2018");
    item.package_release_date = Some("07 Jan 1999 12:30:00 UTC".to_string());
    assert_eq!(item.release_year(), "1999");
    item.package_release_date = Some("not a date".to_string());
    assert_eq!(item.release_year(), "0000");
    item.package_release_date = None;
    assert_eq!(item.release_year(), "0000");
}

#[test]
fn destination_path_is_sanitized_and_dated() {
    let mut item = sample_item();
    item.artist = "AC/DC".to_string();
    item.title = "Back In Black?".to_string();
    assert_eq!(
        item.destination_path("./music"),
        "./music/AC\u{ff0f}DC/Back In Black\u{ff1f} (2018)"
    );
}

#[test]
fn download_url_lookup_by_format() {
    let item = sample_item();
    assert_eq!(item.download_url_for("flac"), Some(&"https://bc/file1.flac".to_string()));
    assert_eq!(item.download_url_for("mp3-320"), None);
    let mut bare = sample_item();
    bare.downloads = None;
    assert_eq!(bare.download_url_for("flac"), None);
}

#[test]
fn detail_page_resolves_to_the_first_item() {
    let blob = "{\"digital_items\":[{\
        \"downloads\":{\"flac\":{\"url\":\"https://bc/file1.flac\",\"size_mb\":\"12MB\"}},\
        \"package_release_date\":\"21 Sep 2018 00:00:00 GMT\",\
        \"title\":\"Song One\",\"artist\":\"Artist A\",\
        \"download_type\":\"t\",\"download_type_str\":\"track\",\"item_type\":\"track\"}]}";
    let html = format!("<div id=\"pagedata\" data-blob='{}'></div>", blob);
    let item = resolve_digital_item(&html).unwrap().unwrap();
    assert_eq!(item.title, "Song One");
    assert_eq!(item.artist, "Artist A");
    assert!(item.is_single());
    assert_eq!(item.download_url_for("flac"), Some(&"https://bc/file1.flac".to_string()));
}

#[test]
fn download_entry_without_url_does_not_resolve() {
    let blob = "{\"digital_items\":[{\"downloads\":{\"flac\":{\"size_mb\":\"12MB\"}},\
        \"package_release_date\":null,\"title\":\"T\",\"artist\":\"A\",\
        \"download_type\":null,\"download_type_str\":\"album\",\"item_type\":\"album\"}]}";
    let html = format!("<div id=\"pagedata\" data-blob='{}'></div>", blob);
    assert!(matches!(resolve_digital_item(&html), Err(ApiError::ParseFailure)));
}

#[test]
fn descriptions_and_dry_run_lines() {
    let item = sample_item();
    assert_eq!(completion_description(&item), "Song One (2018) by Artist A");
    assert_eq!(dry_run_line("4021", &item), "4021, Song One - Artist A");
}

#[test]
fn worker_decisions_cover_every_resolve_outcome() {
    let plan = worker_plan(Ok(Some(sample_item())));
    assert!(matches!(plan, WorkerPlan::Download(_)));
    assert_eq!(sentinel_description(&plan), None);

    let mut bare = sample_item();
    bare.downloads = None;
    let plan = worker_plan(Ok(Some(bare)));
    assert!(matches!(plan, WorkerPlan::RecordNoDownloads));
    assert_eq!(sentinel_description(&plan), Some("No downloads".to_string()));

    let plan = worker_plan(Ok(None));
    assert!(matches!(plan, WorkerPlan::RecordUnknown));
    assert_eq!(sentinel_description(&plan), Some("UNKNOWN".to_string()));

    let plan = worker_plan(Err(ApiError::ParseFailure));
    assert!(matches!(plan, WorkerPlan::SkipNoRecord));
    assert_eq!(sentinel_description(&plan), None);
}
