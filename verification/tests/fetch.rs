use texttv::fetch::{http_error_message, network_error_message, svt_url, texttv_nu_url};

#[test]
fn page_addresses() {
    assert_eq!(svt_url(300), "https://www.svt.se/text-tv/300");
    assert_eq!(
        texttv_nu_url(100, "0.3.1"),
        "https://api.texttv.nu/api/get/100?app=texttvcliv0.3.1"
    );
}

#[test]
fn fetch_error_messages() {
    assert_eq!(
        http_error_message(404, "Not Found", "https://www.svt.se/text-tv/999"),
        "HTTP 404 Not Found for https://www.svt.se/text-tv/999"
    );
    assert_eq!(network_error_message("timed out"), "network error: timed out");
}
