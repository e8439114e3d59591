use audeep::serve::{answer, endpoint, http_response, plan, request_path, request_path_from_bytes, Endpoint, ServePlan};

#[test]
fn request_paths() {
    assert_eq!(request_path("GET /json HTTP/1.1\r\nHost: x\r\n\r\n"), "/json");
    assert_eq!(request_path("GET  /health  HTTP/1.1"), "/health");
    assert_eq!(request_path("GET"), "/");
    assert_eq!(request_path(""), "/");
    assert_eq!(request_path("\r\nGET /json"), "/");
    assert_eq!(request_path_from_bytes(b"GET /index.html HTTP/1.0\r\n"), "/index.html");
    assert_eq!(request_path_from_bytes(&[b'G', b' ', 0xff, b' ']), "\u{FFFD}");
}

#[test]
fn endpoints_and_plans() {
    assert_eq!(endpoint("/health"), Endpoint::Health);
    assert_eq!(endpoint("/json"), Endpoint::Json);
    assert_eq!(endpoint("/"), Endpoint::Page);
    assert_eq!(endpoint("/index.html"), Endpoint::Page);
    assert_eq!(plan(Endpoint::Health, None, false), (ServePlan::Health, false));
    assert_eq!(plan(Endpoint::Health, Some(99), false), (ServePlan::Health, false));
    assert_eq!(plan(Endpoint::Json, None, false), (ServePlan::Loading, true));
    assert_eq!(plan(Endpoint::Json, None, true), (ServePlan::Loading, false));
    assert_eq!(plan(Endpoint::Page, None, true), (ServePlan::Loading, false));
    assert_eq!(plan(Endpoint::Json, Some(11), false), (ServePlan::FromCache, false));
    assert_eq!(plan(Endpoint::Page, Some(12), false), (ServePlan::Loading, true));
    assert_eq!(plan(Endpoint::Json, Some(300), true), (ServePlan::Loading, false));
    assert_eq!(plan(Endpoint::Page, Some(0), false), (ServePlan::FromCache, false));
}

#[test]
fn answers() {
    assert_eq!(
        answer(Endpoint::Health, ServePlan::Health, "J", "H"),
        ("200 OK".to_string(), "{\"status\":\"ok\"}".to_string(), "application/json".to_string())
    );
    assert_eq!(answer(Endpoint::Json, ServePlan::FromCache, "J", "H").1, "J");
    assert_eq!(answer(Endpoint::Page, ServePlan::FromCache, "J", "H").1, "H");
    assert_eq!(answer(Endpoint::Page, ServePlan::FromCache, "J", "H").2, "text/html; charset=utf-8");
}

#[test]
fn answers_while_scanning() {
    assert_eq!(
        answer(Endpoint::Json, ServePlan::Loading, "J", "H"),
        (
            "202 Accepted".to_string(),
            "{\"status\":\"scanning\"}".to_string(),
            "application/json; charset=utf-8".to_string()
        )
    );
    let (status, body, ctype) = answer(Endpoint::Page, ServePlan::Loading, "J", "H");
    assert_eq!(status, "200 OK");
    assert_eq!(ctype, "text/html; charset=utf-8");
    assert!(body.contains("<meta http-equiv=\"refresh\" content=\"2\">"));
    assert!(body.starts_with("<!DOCTYPE html>"));
    assert_eq!(answer(Endpoint::Health, ServePlan::Health, "J", "H").0, "200 OK");
}

#[test]
fn responses() {
    assert_eq!(
        http_response("200 OK", "text/plain", "héllo"),
        "HTTP/1.1 200 OK\r\nContent-Type: text/plain\r\nContent-Length: 6\r\nCache-Control: no-cache\r\nAccess-Control-Allow-Origin: *\r\nConnection: close\r\n\r\nhéllo"
    );
    assert_eq!(
        http_response("200 OK", "application/json", ""),
        "HTTP/1.1 200 OK\r\nContent-Type: application/json\r\nContent-Length: 0\r\nCache-Control: no-cache\r\nAccess-Control-Allow-Origin: *\r\nConnection: close\r\n\r\n"
    );
}
