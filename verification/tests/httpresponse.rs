use http::httprequest::{HttpRequest, Method, Resource, Version};
use http::httpresponse::{dec_str, HttpResponse};

#[test]
fn serializes_exact_wire_bytes() {
    let headers = vec![("Content-Length".to_string(), "5".to_string())];
    let resp = HttpResponse::new(200, headers, Some("hello".to_string()));
    assert_eq!(resp.serialize(), "HTTP/1.1 200 OK\r\nContent-Length: 5\r\n\r\nhello");
}

#[test]
fn serialization_round_trip_recovers_the_message() {
    let headers = vec![("Content-Length".to_string(), "5".to_string())];
    let resp = HttpResponse::new(200, headers, Some("hello".to_string()));
    let bytes = resp.serialize();

    // Read the produced bytes back as a generic message: the status line
    // carries the status as its middle token, and header and body come
    // back as they were written.
    let msg = HttpRequest::parse(&bytes).unwrap();
    assert_eq!(msg.resource, Resource::Path("200".to_string()));
    assert_eq!(msg.headers.get("Content-Length"), Some(&" 5".to_string()));
    assert_eq!(msg.msg_body, "hello");
}

#[test]
fn reason_phrases_follow_the_status_code() {
    let resp = HttpResponse::new(404, Vec::new(), None);
    assert_eq!(resp.status_code(), 404);
    assert_eq!(resp.status_text(), "Not Found");
    assert_eq!(resp.version(), "HTTP/1.1");
    assert_eq!(resp.serialize(), "HTTP/1.1 404 Not Found\r\n\r\n");

    let resp = HttpResponse::new(500, Vec::new(), None);
    assert_eq!(resp.status_text(), "Internal Server Error");
    let resp = HttpResponse::new(400, Vec::new(), None);
    assert_eq!(resp.status_text(), "Bad Request");
    let resp = HttpResponse::new(299, Vec::new(), None);
    assert_eq!(resp.status_text(), "");
}

#[test]
fn headers_serialize_in_insertion_order() {
    let headers = vec![
        ("B".to_string(), "2".to_string()),
        ("A".to_string(), "1".to_string()),
    ];
    let resp = HttpResponse::new(200, headers, None);
    assert_eq!(resp.serialize(), "HTTP/1.1 200 OK\r\nB: 2\r\nA: 1\r\n\r\n");
    assert_eq!(resp.headers().len(), 2);
    assert_eq!(resp.body(), &None);
}

#[test]
fn decimal_notation_is_exact() {
    assert_eq!(dec_str(0), "0");
    assert_eq!(dec_str(7), "7");
    assert_eq!(dec_str(10), "10");
    assert_eq!(dec_str(404), "404");
    assert_eq!(dec_str(65535), "65535");
}

#[test]
fn request_types_have_value_equality() {
    assert_eq!(Method::GET, Method::GET);
    assert_ne!(Method::GET, Method::POST);
    assert_eq!(Version::V1_1, Version::V1_1);
    assert_ne!(
        Resource::Path("/a".to_string()),
        Resource::Path("/b".to_string())
    );
}
