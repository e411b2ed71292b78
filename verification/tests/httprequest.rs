use http::httprequest::{Headers, HttpRequest, Method, ParseError, Resource, Version};

#[test]
fn test_method_into() {
    let m = Method::from("GET");
    assert_eq!(m, Method::GET);
}

#[test]
fn test_version_into() {
    let v = Version::from("HTTP/1.1");
    assert_eq!(v, Version::V1_1);
}

#[test]
fn test_read_http() {
    let s: String = String::from(
        "GET /greeting HTTP/1.1\r\nHOST: localhost\r\nAccept: */*\r\nUser-Agent: Mobile/Iphone",
    );
    let req: HttpRequest = HttpRequest::parse(&s).unwrap();

    assert_eq!(Method::GET, req.method);
    assert_eq!(Version::V1_1, req.version);
    assert_eq!(Resource::Path("/greeting".to_string()), req.resource);
    assert_eq!(req.headers.get("HOST"), Some(&" localhost".to_string()));
    assert_eq!(req.headers.get("Accept"), Some(&" */*".to_string()));
    assert_eq!(req.headers.get("User-Agent"), Some(&" Mobile/Iphone".to_string()));
    assert_eq!(req.msg_body, "");
}

#[test]
fn method_mapping_degrades_to_sentinel() {
    assert_eq!(Method::from("POST"), Method::POST);
    assert_eq!(Method::from("PUT"), Method::UNINITIALIZED);
    assert_eq!(Method::from("get"), Method::UNINITIALIZED);
    assert_eq!(Method::from(""), Method::UNINITIALIZED);
}

#[test]
fn version_mapping_degrades_to_sentinel() {
    assert_eq!(Version::from("HTTP/2.0"), Version::UNINITIALIZED);
    assert_eq!(Version::from("http/1.1"), Version::UNINITIALIZED);
    assert_eq!(Version::from(""), Version::UNINITIALIZED);
}

#[test]
fn header_last_write_wins() {
    let mut h = Headers::new();
    h.insert("A".to_string(), "1".to_string());
    h.insert("A".to_string(), "2".to_string());
    assert_eq!(h.get("A"), Some(&"2".to_string()));
    assert_eq!(h.get("B"), None);
}

#[test]
fn parse_keeps_last_duplicate_header() {
    let req = HttpRequest::parse("GET / HTTP/1.1\r\nA: 1\r\nA: 2").unwrap();
    assert_eq!(req.headers.get("A"), Some(&" 2".to_string()));
}

#[test]
fn malformed_request_line_is_reported() {
    let r = HttpRequest::parse("GET HTTP/1.1\r\nHOST: localhost");
    assert_eq!(r.unwrap_err(), ParseError::MalformedRequestLine);
}

#[test]
fn two_token_line_without_version_marker_becomes_body() {
    // The line holds no `HTTP`, so it is never classified as a request
    // line: parsing degrades instead of failing.
    let req = HttpRequest::parse("GET /x").unwrap();
    assert_eq!(req.method, Method::UNINITIALIZED);
    assert_eq!(req.version, Version::V1_1);
    assert_eq!(req.msg_body, "GET /x");
}

#[test]
fn empty_input_yields_defaults() {
    let req = HttpRequest::parse("").unwrap();
    assert_eq!(req.method, Method::UNINITIALIZED);
    assert_eq!(req.version, Version::V1_1);
    assert_eq!(req.resource, Resource::Path("".to_string()));
    assert_eq!(req.msg_body, "");
}

#[test]
fn parse_accepts_bare_line_feeds() {
    let req = HttpRequest::parse("POST /submit HTTP/1.1\nHost: here\n\npayload").unwrap();
    assert_eq!(req.method, Method::POST);
    assert_eq!(req.resource, Resource::Path("/submit".to_string()));
    assert_eq!(req.headers.get("Host"), Some(&" here".to_string()));
    assert_eq!(req.msg_body, "payload");
}

#[test]
fn last_body_line_wins() {
    let req = HttpRequest::parse("GET / HTTP/1.1\r\n\r\nfirst\r\nsecond").unwrap();
    assert_eq!(req.msg_body, "second");
}

#[test]
fn header_line_splits_at_first_colon() {
    let (k, v) = http::httprequest::process_header_line("Host: localhost:3000");
    assert_eq!(k, "Host");
    assert_eq!(v, " localhost:3000");
}

#[test]
fn header_line_without_colon_has_empty_value() {
    let (k, v) = http::httprequest::process_header_line("plain");
    assert_eq!(k, "plain");
    assert_eq!(v, "");
}

#[test]
fn request_line_with_extra_tokens_keeps_first_three() {
    let (m, r, v) = http::httprequest::process_req_line("GET /a HTTP/1.1 extra").unwrap();
    assert_eq!(m, Method::GET);
    assert_eq!(r, Resource::Path("/a".to_string()));
    assert_eq!(v, Version::V1_1);
}

#[test]
fn request_line_with_two_tokens_is_malformed() {
    let r = http::httprequest::process_req_line("GET /x");
    assert_eq!(r.unwrap_err(), ParseError::MalformedRequestLine);
}

#[test]
fn request_line_tokens_split_on_unicode_whitespace() {
    // A no-break space delimits tokens just as an ASCII space does.
    let req = HttpRequest::parse("GET\u{a0}/x\u{a0}HTTP/1.1").unwrap();
    assert_eq!(req.method, Method::GET);
    assert_eq!(req.resource, Resource::Path("/x".to_string()));
    assert_eq!(req.version, Version::V1_1);
}

#[test]
fn unrecognized_tokens_parse_to_sentinels() {
    let req = HttpRequest::parse("PATCH /x HTTP/1.0").unwrap();
    assert_eq!(req.method, Method::UNINITIALIZED);
    assert_eq!(req.version, Version::UNINITIALIZED);
    assert_eq!(req.resource, Resource::Path("/x".to_string()));
}
