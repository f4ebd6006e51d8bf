use x_viz::bing::{
    clamp_fetch_count, extract_filename, fetch_url, format_date, image_from_api, iso_date_text,
    upgrade_to_uhd, BingApiImage,
};

#[test]
fn test_upgrade_to_uhd() {
    let url = "https://www.bing.com/th?id=OHR.Test_EN-US123_1920x1080.jpg&rf=abc";
    assert!(upgrade_to_uhd(url).contains("_UHD"));
    assert!(!upgrade_to_uhd(url).contains("_1920x1080"));
}

#[test]
fn test_extract_filename() {
    let url = "/th?id=OHR.FoxSparrow_EN-US1234_UHD.jpg&rf=123";
    assert_eq!(extract_filename(url), "OHR.FoxSparrow_EN-US1234_UHD.jpg");
}

#[test]
fn test_format_date() {
    assert_eq!(format_date("20260317"), "2026-03-17");
    assert_eq!(format_date("invalid"), "invalid");
}

#[test]
fn upgrade_to_uhd_exact_result() {
    assert_eq!(
        upgrade_to_uhd("/th?id=OHR.A_1920x1080.jpg&x=_1920x1080"),
        "/th?id=OHR.A_UHD.jpg&x=_UHD"
    );
}

#[test]
fn upgrade_to_uhd_keeps_url_without_marker() {
    let url = "/th?id=OHR.A_UHD.jpg";
    assert_eq!(upgrade_to_uhd(url), url);
    assert_eq!(upgrade_to_uhd(""), "");
}

#[test]
fn upgrade_to_uhd_leaves_no_marker_from_overlaps() {
    let out = upgrade_to_uhd("_1920_1920x1080x1080");
    assert_eq!(out, "_1920_UHDx1080");
    assert!(!out.contains("_1920x1080"));
}

#[test]
fn extract_filename_without_id_falls_back() {
    assert_eq!(extract_filename("/th?x=1&y=2"), "wallpaper.jpg");
    assert_eq!(extract_filename(""), "wallpaper.jpg");
}

#[test]
fn extract_filename_stops_at_next_id() {
    assert_eq!(extract_filename("/th?id=A.jpgid=B&z"), "A.jpg");
    assert_eq!(extract_filename("id=only"), "only");
    assert_eq!(extract_filename("id=&rest"), "");
}

#[test]
fn extract_filename_result_has_no_ampersand() {
    for url in ["id=a&b&c", "x&id=&&", "&&&", "id=abc"] {
        assert!(!extract_filename(url).contains('&'));
    }
}

#[test]
fn format_date_rejects_bad_dates() {
    assert_eq!(format_date("20260230"), "20260230");
    assert_eq!(format_date("2026131"), "2026131");
    assert_eq!(format_date(""), "");
}

#[test]
fn format_date_pads_small_years() {
    assert_eq!(format_date("00050101"), "0005-01-01");
}

#[test]
fn iso_date_text_renders_years_like_chrono() {
    assert_eq!(iso_date_text(2026, 3, 17), "2026-03-17");
    assert_eq!(iso_date_text(7, 1, 2), "0007-01-02");
    assert_eq!(iso_date_text(-5, 12, 31), "-0005-12-31");
    assert_eq!(iso_date_text(12345, 6, 9), "+12345-06-09");
}

#[test]
fn clamp_fetch_count_holds_range() {
    assert_eq!(clamp_fetch_count(0), 1);
    assert_eq!(clamp_fetch_count(1), 1);
    assert_eq!(clamp_fetch_count(5), 5);
    assert_eq!(clamp_fetch_count(8), 8);
    assert_eq!(clamp_fetch_count(200), 8);
}

#[test]
fn fetch_url_has_count_and_market() {
    assert_eq!(
        fetch_url("zh-CN", 20),
        "https://www.bing.com/HPImageArchive.aspx?format=js&idx=0&n=8&mkt=zh-CN"
    );
    assert_eq!(
        fetch_url("en-US", 0),
        "https://www.bing.com/HPImageArchive.aspx?format=js&idx=0&n=1&mkt=en-US"
    );
}

#[test]
fn image_from_api_completes_url_and_date() {
    let api = BingApiImage {
        title: "Fox".to_string(),
        startdate: "20260317".to_string(),
        url: "/th?id=OHR.Fox_1920x1080.jpg".to_string(),
        urlbase: "/th?id=OHR.Fox".to_string(),
        copyright: "(c) someone".to_string(),
        copyrightlink: "https://example.org".to_string(),
    };
    let img = image_from_api(api);
    assert_eq!(img.title, "Fox");
    assert_eq!(img.date, "2026-03-17");
    assert_eq!(img.url, "https://www.bing.com/th?id=OHR.Fox_1920x1080.jpg");
    assert_eq!(img.url_base, "/th?id=OHR.Fox");
    assert_eq!(img.copyright, "(c) someone");
    assert_eq!(img.copyright_link, "https://example.org");
}

#[test]
fn upgrade_to_uhd_twice_is_once() {
    let url = "/th?id=OHR.A_1920x1080.jpg";
    let once = upgrade_to_uhd(url);
    assert_eq!(upgrade_to_uhd(&once), once);
}
