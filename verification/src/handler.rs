//! The three handlers: each is a pure function from a parsed request to a
//! structured response. What only the surrounding server can know — the
//! contents of a page on disk, the payload of the service — is handed in
//! as a plain value.

use crate::httprequest::HttpRequest;
use crate::httpresponse::{byte_len, dec_seq, dec_str, HttpResponse, RespModel};
use vstd::prelude::*;

verus! {

/// The view of an optional body.
pub open spec fn opt_view(b: Option<String>) -> Option<Seq<char>> {
    match b {
        Option::Some(s) => Option::Some(s@),
        Option::None => Option::None,
    }
}

/// The headers every handler sets: the content type as given, and the
/// exact byte length of the body.
pub open spec fn content_headers(ctype: Seq<char>, body: Seq<char>) -> Seq<(Seq<char>, Seq<char>)> {
    seq![
        ("Content-Type"@, ctype),
        ("Content-Length"@, dec_seq(byte_len(body))),
    ]
}

/// The fixed response of the Not-Found handler.
pub open spec fn not_found_model() -> RespModel {
    RespModel {
        version: "HTTP/1.1"@,
        status_code: 404,
        status_text: "Not Found"@,
        headers: content_headers("text/html"@, "<h1>Not Found</h1>"@),
        body: Option::Some("<h1>Not Found</h1>"@),
    }
}

/// A success response carrying a page.
pub open spec fn page_model(contents: Seq<char>) -> RespModel {
    RespModel {
        version: "HTTP/1.1"@,
        status_code: 200,
        status_text: "OK"@,
        headers: content_headers("text/html"@, contents),
        body: Option::Some(contents),
    }
}

/// The Static-Page handler's response: the page when the lookup produced
/// one, the Not-Found response when it did not.
pub open spec fn static_model(page: Option<Seq<char>>) -> RespModel {
    match page {
        Option::Some(contents) => page_model(contents),
        Option::None => not_found_model(),
    }
}

/// The API handler's response: a success response carrying the service's
/// payload as JSON.
pub open spec fn api_model(data: Seq<char>) -> RespModel {
    RespModel {
        version: "HTTP/1.1"@,
        status_code: 200,
        status_text: "OK"@,
        headers: content_headers("application/json"@, data),
        body: Option::Some(data),
    }
}

fn build(status_code: u16, ctype: &str, body: String) -> (r: HttpResponse)
    ensures
        r@ == (RespModel {
            version: "HTTP/1.1"@,
            status_code: status_code,
            status_text: crate::httpresponse::reason_of(status_code),
            headers: content_headers(ctype@, body@),
            body: Option::Some(body@),
        }),
{
    let len = dec_str(body.as_str().len() as u64);
    let mut headers: Vec<(String, String)> = Vec::new();
    headers.push((String::from_str("Content-Type"), String::from_str(ctype)));
    headers.push((String::from_str("Content-Length"), len));
    let r = HttpResponse::new(status_code, headers, Some(body));
    proof {
        assert(r@.headers =~~= content_headers(ctype@, r@.body->Some_0));
    }
    r
}

/// The fixed response for a request whose text was malformed.
pub open spec fn bad_request_model() -> RespModel {
    RespModel {
        version: "HTTP/1.1"@,
        status_code: 400,
        status_text: "Bad Request"@,
        headers: content_headers("text/html"@, "<h1>Bad Request</h1>"@),
        body: Option::Some("<h1>Bad Request</h1>"@),
    }
}

/// Builds the fixed 400 response the router answers a malformed request
/// with.
pub fn build_bad_request() -> (r: HttpResponse)
    ensures
        r@ == bad_request_model(),
{
    build(400, "text/html", String::from_str("<h1>Bad Request</h1>"))
}

/// The Not-Found handler: a fixed 404 response, whatever the request held.
pub struct PageNotFoundHandler;

impl PageNotFoundHandler {
    /// Always returns the fixed 404 response; the request is not
    /// inspected.
    pub fn handle(_req: &HttpRequest) -> (r: HttpResponse)
        ensures
            r@ == not_found_model(),
            r@.status_code == 404,
    {
        build(404, "text/html", String::from_str("<h1>Not Found</h1>"))
    }
}

/// The Static-Page handler: serves a page that the surrounding server
/// looked up on disk, or falls back to the Not-Found response.
pub struct StaticPageHandler;

impl StaticPageHandler {
    /// Wraps the outcome of the page lookup: a page becomes a success
    /// response, a missed lookup the Not-Found response.
    pub fn handle(_req: &HttpRequest, page: Option<String>) -> (r: HttpResponse)
        ensures
            r@ == static_model(opt_view(page)),
    {
        match page {
            Some(contents) => build(200, "text/html", contents),
            None => PageNotFoundHandler::handle(_req),
        }
    }
}

/// The API handler: a success response around the service's payload. The
/// payload itself is this handler's extension point and is handed in by
/// the surrounding server.
pub struct WebServiceHandler;

impl WebServiceHandler {
    /// Wraps the service payload in a success response.
    pub fn handle(_req: &HttpRequest, data: String) -> (r: HttpResponse)
        ensures
            r@ == api_model(data@),
    {
        build(200, "application/json", data)
    }
}

} // verus!
