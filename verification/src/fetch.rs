//! Where pages are fetched from, and what a failed fetch is reported as.

use vstd::prelude::*;

use crate::textutil::{dec, push_decimal, push_str};

verus! {

/// The address of SVT's page `page`.
pub open spec fn spec_svt_url(page: u16) -> Seq<char> {
    "https://www.svt.se/text-tv/"@ + dec(page as nat)
}

/// The address of SVT's page `page`.
pub fn svt_url(page: u16) -> (r: String)
    ensures
        r@ == spec_svt_url(page),
{
    let mut s = String::new();
    push_str(&mut s, "https://www.svt.se/text-tv/");
    push_decimal(&mut s, page as u32);
    s
}

/// The address of texttv.nu's JSON for page `page`. The `app` parameter
/// names this client and its version, as texttv.nu asks API users to do.
pub open spec fn spec_texttv_nu_url(page: u16, version: Seq<char>) -> Seq<char> {
    "https://api.texttv.nu/api/get/"@ + dec(page as nat) + "?app=texttvcliv"@ + version
}

/// The address of texttv.nu's JSON for page `page`, for client `version`.
pub fn texttv_nu_url(page: u16, version: &str) -> (r: String)
    ensures
        r@ == spec_texttv_nu_url(page, version@),
{
    let mut s = String::new();
    push_str(&mut s, "https://api.texttv.nu/api/get/");
    push_decimal(&mut s, page as u32);
    push_str(&mut s, "?app=texttvcliv");
    push_str(&mut s, version);
    s
}

/// The message for an HTTP error status.
pub open spec fn spec_http_error_message(code: u16, status_text: Seq<char>, url: Seq<char>) -> Seq<char> {
    "HTTP "@ + dec(code as nat) + " "@ + status_text + " for "@ + url
}

/// The message for an HTTP error status `code` with its reason phrase.
pub fn http_error_message(code: u16, status_text: &str, url: &str) -> (r: String)
    ensures
        r@ == spec_http_error_message(code, status_text@, url@),
{
    let mut s = String::new();
    push_str(&mut s, "HTTP ");
    push_decimal(&mut s, code as u32);
    push_str(&mut s, " ");
    push_str(&mut s, status_text);
    push_str(&mut s, " for ");
    push_str(&mut s, url);
    s
}

/// The message for a failure below HTTP (DNS, connection, TLS, timeout).
pub fn network_error_message(detail: &str) -> (r: String)
    ensures
        r@ == "network error: "@ + detail@,
{
    let mut s = String::new();
    push_str(&mut s, "network error: ");
    push_str(&mut s, detail);
    s
}

} // verus!
