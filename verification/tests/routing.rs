use http::handler::{PageNotFoundHandler, StaticPageHandler, WebServiceHandler};
use http::httprequest::HttpRequest;
use http::router::{RouteTarget, Router};

fn parsed(text: &str) -> HttpRequest {
    HttpRequest::parse(text).unwrap()
}

#[test]
fn get_to_api_path_dispatches_to_api_handler() {
    let req = parsed("GET /api/shipping/orders HTTP/1.1");
    assert_eq!(Router::dispatch(&req), RouteTarget::Api);
    let req = parsed("GET /api HTTP/1.1");
    assert_eq!(Router::dispatch(&req), RouteTarget::Api);
}

#[test]
fn get_to_other_paths_dispatches_to_static_handler() {
    let req = parsed("GET /anything-else HTTP/1.1");
    assert_eq!(Router::dispatch(&req), RouteTarget::StaticPage);
    let req = parsed("GET / HTTP/1.1");
    assert_eq!(Router::dispatch(&req), RouteTarget::StaticPage);
    let req = parsed("GET /apis HTTP/1.1");
    assert_eq!(Router::dispatch(&req), RouteTarget::StaticPage);
}

#[test]
fn non_get_dispatches_to_not_found() {
    let req = parsed("POST /api/x HTTP/1.1");
    assert_eq!(Router::dispatch(&req), RouteTarget::NotFound);
    let req = parsed("PATCH /any HTTP/1.1");
    assert_eq!(Router::dispatch(&req), RouteTarget::NotFound);
}

#[test]
fn not_found_handler_always_returns_404() {
    for text in [
        "GET / HTTP/1.1",
        "POST /api/x HTTP/1.1",
        "GET /greeting HTTP/1.1\r\nHOST: localhost",
        "",
    ] {
        let req = parsed(text);
        let resp = PageNotFoundHandler::handle(&req);
        assert_eq!(resp.status_code(), 404);
    }
}

#[test]
fn static_handler_serves_the_page_or_falls_back() {
    let req = parsed("GET /index HTTP/1.1");
    let resp = StaticPageHandler::handle(&req, Some("<p>hi</p>".to_string()));
    assert_eq!(resp.status_code(), 200);
    assert_eq!(resp.body(), &Some("<p>hi</p>".to_string()));

    let resp = StaticPageHandler::handle(&req, None);
    assert_eq!(resp.status_code(), 404);
}

#[test]
fn api_handler_wraps_the_payload() {
    let req = parsed("GET /api/orders HTTP/1.1");
    let resp = WebServiceHandler::handle(&req, "[{\"order\":1}]".to_string());
    assert_eq!(resp.status_code(), 200);
    assert_eq!(resp.body(), &Some("[{\"order\":1}]".to_string()));
    assert_eq!(
        resp.serialize(),
        "HTTP/1.1 200 OK\r\nContent-Type: application/json\r\nContent-Length: 13\r\n\r\n[{\"order\":1}]"
    );
}

#[test]
fn route_writes_the_selected_handlers_response() {
    let req = parsed("GET /page HTTP/1.1");
    let bytes = Router::route(req, Some("body!".to_string()), String::new());
    assert_eq!(
        bytes,
        "HTTP/1.1 200 OK\r\nContent-Type: text/html\r\nContent-Length: 5\r\n\r\nbody!"
    );

    let req = parsed("GET /api/x HTTP/1.1");
    let bytes = Router::route(req, None, "{}".to_string());
    assert_eq!(
        bytes,
        "HTTP/1.1 200 OK\r\nContent-Type: application/json\r\nContent-Length: 2\r\n\r\n{}"
    );

    let req = parsed("POST /page HTTP/1.1");
    let bytes = Router::route(req, Some("body!".to_string()), String::new());
    assert!(bytes.starts_with("HTTP/1.1 404 Not Found\r\n"));
}

#[test]
fn bad_request_is_a_400_response() {
    let bytes = Router::bad_request();
    assert_eq!(
        bytes,
        "HTTP/1.1 400 Bad Request\r\nContent-Type: text/html\r\nContent-Length: 20\r\n\r\n<h1>Bad Request</h1>"
    );
}
