use bandsnatch::cookies::cookie_header_value;
use bandsnatch::cookies::get_json_cookies;
use bandsnatch::cookies::get_text_cookies;

#[test]
fn text_export_yields_seven_column_lines() {
    let content = "# Netscape HTTP Cookie File\n\
        # This is a comment\n\
        bandcamp.com\tTRUE\t/\tTRUE\t0\tidentity\tSECRET-REDACTED\n\
        short\tline\n\
        example.org\tFALSE\t/\tTRUE\t0\tsession\tXYZ\n";
    let cookies = get_text_cookies(content);
    assert_eq!(cookies.len(), 2);
    assert_eq!(cookies[0].host, "https://bandcamp.com");
    assert_eq!(cookies[0].name, "identity");
    assert_eq!(cookies[0].content, "SECRET-REDACTED");
    assert_eq!(cookies[1].host, "https://example.org");
    assert_eq!(cookies[1].name, "session");
}

#[test]
fn empty_text_export_yields_nothing() {
    assert!(get_text_cookies("").is_empty());
    assert!(get_text_cookies("# only a comment\n").is_empty());
}

#[test]
fn json_export_yields_raw_cookies() {
    let json = "[{\"Host raw\":\"https://bandcamp.com/\",\
        \"Name raw\":\"identity\",\"Content raw\":\"abc\"}]";
    let cookies = get_json_cookies(json).unwrap();
    assert_eq!(cookies.len(), 1);
    assert_eq!(cookies[0].host, "https://bandcamp.com/");
    assert_eq!(cookies[0].name, "identity");
    assert_eq!(cookies[0].content, "abc");
    assert!(get_json_cookies("{not json").is_none());
    assert!(get_json_cookies("{\"an\":\"object\"}").is_none());
}

#[test]
fn cookie_header_line_carries_domain() {
    assert_eq!(
        cookie_header_value("identity", "abc", "bandcamp.com"),
        "identity=abc; Domain=bandcamp.com"
    );
}
