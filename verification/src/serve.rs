//! The report server's decisions: which endpoint a request asks for,
//! whether the cached report can answer it, and the HTTP response.
use vstd::prelude::*;

use crate::scanner::utf8_lossy;
use crate::text::{chars_of, dec, fill, fill_template, lines, lines_of, str_eq, string_from_chars, to_owned_string, words, words_of};

verus! {

/// The path that a request's first line asks for (`/` when it names none).
pub open spec fn request_path_spec(req: Seq<char>) -> Seq<char> {
    let ls = lines(req);
    let first = if ls.len() > 0 { ls[0] } else { Seq::empty() };
    let w = words(first);
    if w.len() > 1 { w[1] } else { "/"@ }
}

/// The path that a request asks for.
pub fn request_path(request: &str) -> (r: String)
    ensures
        r@ == request_path_spec(request@),
{
    let cs = chars_of(request);
    let ls = lines_of(&cs);
    let ghost lv = ls@.map_values(|p: Vec<char>| p@);
    if ls.len() == 0 {
        assert(words(Seq::<char>::empty()) =~= Seq::<Seq<char>>::empty());
        return to_owned_string("/");
    }
    assert(lv[0] == ls@[0]@);
    let w = words_of(&ls[0]);
    let ghost wv = w@.map_values(|p: Vec<char>| p@);
    if w.len() > 1 {
        assert(wv[1] == w@[1]@);
        string_from_chars(&w[1])
    } else {
        to_owned_string("/")
    }
}

/// The path of a request received as bytes (decoded leniently).
pub fn request_path_from_bytes(bytes: &[u8]) -> (r: String)
    ensures
        r@ == request_path_spec(utf8_lossy(bytes@)),
{
    let text = crate::scanner::decode_lossy(bytes);
    request_path(text.as_str())
}

/// What a request asks for.
#[derive(Debug, Clone, Copy, PartialEq, Eq, Structural)]
pub enum Endpoint {
    /// `/health`: a fixed status.
    Health,
    /// `/json`: the report as JSON.
    Json,
    /// Any other path: the report page.
    Page,
}

/// The endpoint of a path.
pub open spec fn endpoint_spec(path: Seq<char>) -> Endpoint {
    if path == "/health"@ {
        Endpoint::Health
    } else if path == "/json"@ {
        Endpoint::Json
    } else {
        Endpoint::Page
    }
}

/// The endpoint of a path.
pub fn endpoint(path: &str) -> (e: Endpoint)
    ensures
        e == endpoint_spec(path@),
{
    if str_eq(path, "/health") {
        Endpoint::Health
    } else if str_eq(path, "/json") {
        Endpoint::Json
    } else {
        Endpoint::Page
    }
}

/// How long a report answers requests before a new scan, in seconds.
pub const CACHE_SECS: u64 = 12;

/// How the server answers a request.
#[derive(Debug, Clone, Copy, PartialEq, Eq, Structural)]
pub enum ServePlan {
    /// Answer the health check.
    Health,
    /// Answer from the cached report.
    FromCache,
    /// No fresh report: answer that a scan is running.
    Loading,
}

/// The answer to a request and whether to start a scan in the background,
/// given the age in seconds of the cached report (`None` without one) and
/// whether a scan is already running. Health checks never scan. A report
/// younger than [`CACHE_SECS`] answers every other request. Without one (no
/// report, or one [`CACHE_SECS`] old or older) the request is told that a
/// scan is running, and one starts unless one is running already.
pub open spec fn plan_spec(e: Endpoint, cache_age_secs: Option<u64>, scanning: bool) -> (ServePlan, bool) {
    match e {
        Endpoint::Health => (ServePlan::Health, false),
        _ => match cache_age_secs {
            Some(age) => if age < CACHE_SECS {
                (ServePlan::FromCache, false)
            } else {
                (ServePlan::Loading, !scanning)
            },
            None => (ServePlan::Loading, !scanning),
        },
    }
}

/// The answer to a request and whether to start a scan.
pub fn plan(e: Endpoint, cache_age_secs: Option<u64>, scanning: bool) -> (r: (ServePlan, bool))
    ensures
        r == plan_spec(e, cache_age_secs, scanning),
{
    match e {
        Endpoint::Health => (ServePlan::Health, false),
        _ => match cache_age_secs {
            Some(age) => if age < CACHE_SECS {
                (ServePlan::FromCache, false)
            } else {
                (ServePlan::Loading, !scanning)
            },
            None => (ServePlan::Loading, !scanning),
        },
    }
}

/// At most one scan runs at a time: no request starts a scan while one is
/// running; and a health check never starts one.
pub proof fn lemma_one_scan_at_a_time(e: Endpoint, cache_age_secs: Option<u64>)
    ensures
        !plan_spec(e, cache_age_secs, true).1,
        !plan_spec(Endpoint::Health, cache_age_secs, false).1,
{
}

/// A request that finds no fresh report (none, or one [`CACHE_SECS`] old or
/// older) is answered at once: `/json` with `202 Accepted`, any page with
/// the self-reloading page; a cached report is never served once that old.
pub proof fn lemma_loading_answers(cache_age_secs: Option<u64>, scanning: bool, json: Seq<char>, html: Seq<char>)
    requires
        cache_age_secs matches Some(age) ==> age >= CACHE_SECS,
    ensures
        answer_spec(Endpoint::Json, plan_spec(Endpoint::Json, cache_age_secs, scanning).0, json, html).0
            == "202 Accepted"@,
        answer_spec(Endpoint::Page, plan_spec(Endpoint::Page, cache_age_secs, scanning).0, json, html).1
            == crate::templates::LOADING_PAGE@,
{
}

/// The status, body and content type that answer an endpoint under a plan,
/// given the cached report as JSON and as HTML. While the first scan runs,
/// `/json` is answered `202 Accepted` with a scanning status and the page
/// is a small one that reloads itself every two seconds.
pub open spec fn answer_spec(e: Endpoint, p: ServePlan, json: Seq<char>, html: Seq<char>) -> (Seq<char>, Seq<char>, Seq<char>) {
    match e {
        Endpoint::Health => ("200 OK"@, "{\"status\":\"ok\"}"@, "application/json"@),
        Endpoint::Json => if p == ServePlan::Loading {
            ("202 Accepted"@, "{\"status\":\"scanning\"}"@, "application/json; charset=utf-8"@)
        } else {
            ("200 OK"@, json, "application/json; charset=utf-8"@)
        },
        Endpoint::Page => if p == ServePlan::Loading {
            ("200 OK"@, crate::templates::LOADING_PAGE@, "text/html; charset=utf-8"@)
        } else {
            ("200 OK"@, html, "text/html; charset=utf-8"@)
        },
    }
}

/// The status, body and content type that answer an endpoint.
pub fn answer(e: Endpoint, p: ServePlan, json: &str, html: &str) -> (r: (String, String, String))
    ensures
        (r.0@, r.1@, r.2@) == answer_spec(e, p, json@, html@),
{
    let loading = match p {
        ServePlan::Loading => true,
        _ => false,
    };
    match e {
        Endpoint::Health => (
            to_owned_string("200 OK"),
            to_owned_string("{\"status\":\"ok\"}"),
            to_owned_string("application/json"),
        ),
        Endpoint::Json => if loading {
            (
                to_owned_string("202 Accepted"),
                to_owned_string("{\"status\":\"scanning\"}"),
                to_owned_string("application/json; charset=utf-8"),
            )
        } else {
            (
                to_owned_string("200 OK"),
                to_owned_string(json),
                to_owned_string("application/json; charset=utf-8"),
            )
        },
        Endpoint::Page => if loading {
            (
                to_owned_string("200 OK"),
                to_owned_string(crate::templates::LOADING_PAGE),
                to_owned_string("text/html; charset=utf-8"),
            )
        } else {
            (
                to_owned_string("200 OK"),
                to_owned_string(html),
                to_owned_string("text/html; charset=utf-8"),
            )
        },
    }
}

/// An HTTP/1.1 response that any origin may read and that closes the
/// connection; the length is the body's length in bytes.
pub open spec fn http_response_spec(status: Seq<char>, content_type: Seq<char>, body: Seq<char>) -> Seq<char> {
    fill(
        "HTTP/1.1 {}\r\nContent-Type: {}\r\nContent-Length: {}\r\nCache-Control: no-cache\r\nAccess-Control-Allow-Origin: *\r\nConnection: close\r\n\r\n{}"@,
        seq![status, content_type, dec((vstd::utf8::encode_utf8(body).len() as usize) as nat), body],
    )
}

/// The HTTP response for a status, content type and body.
pub fn http_response(status: &str, content_type: &str, body: &str) -> (r: String)
    ensures
        r@ == http_response_spec(status@, content_type@, body@),
{
    let len = body.len();
    let args = vec![
        to_owned_string(status),
        to_owned_string(content_type),
        crate::text::decimal_string(len as u128),
        to_owned_string(body),
    ];
    assert(args.deep_view() =~= seq![
        status@,
        content_type@,
        dec((vstd::utf8::encode_utf8(body@).len() as usize) as nat),
        body@,
    ]);
    fill_template(
        "HTTP/1.1 {}\r\nContent-Type: {}\r\nContent-Length: {}\r\nCache-Control: no-cache\r\nAccess-Control-Allow-Origin: *\r\nConnection: close\r\n\r\n{}",
        &args,
    )
}

} // verus!
