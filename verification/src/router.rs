//! The router: a two-level decision — method first, then the first path
//! segment — that selects exactly one handler and drives the response
//! builder.

use crate::handler::{
    api_model, bad_request_model, not_found_model, opt_view, static_model, PageNotFoundHandler,
    StaticPageHandler, WebServiceHandler,
};
use crate::httprequest::{HttpRequest, Method, ReqModel, Resource};
use crate::httpresponse::{wire, RespModel};
use vstd::prelude::*;

verus! {

/// The three targets a request can be dispatched to.
#[derive(Debug, PartialEq, Eq, Structural, Clone, Copy)]
pub enum RouteTarget {
    Api,
    StaticPage,
    NotFound,
}

/// Index of the first slash at or after `i`, or the length of `s` if
/// there is none.
pub open spec fn next_slash(s: Seq<char>, i: int) -> int
    decreases s.len() - i,
{
    if i < 0 || i >= s.len() {
        s.len() as int
    } else if s[i] == '/' {
        i
    } else {
        next_slash(s, i + 1)
    }
}

/// The second segment of a path split on slashes: the text between the
/// first slash and the one after it. A path without any slash has no
/// second segment.
pub open spec fn has_second_segment(path: Seq<char>) -> bool {
    next_slash(path, 0) < path.len()
}

pub open spec fn second_segment(path: Seq<char>) -> Seq<char> {
    let a = next_slash(path, 0);
    path.subrange(a + 1, next_slash(path, a + 1))
}

/// The routing decision: anything but a plain GET is not found; a GET
/// whose first path segment is `api` goes to the API handler; every other
/// GET goes to the Static-Page handler.
pub open spec fn dispatch_of(m: ReqModel) -> RouteTarget {
    if m.method != Method::GET {
        RouteTarget::NotFound
    } else if has_second_segment(m.path) && second_segment(m.path) == "api"@ {
        RouteTarget::Api
    } else {
        RouteTarget::StaticPage
    }
}

/// The response a request is answered with, given what the two lookups
/// outside this core produced: the page for the Static-Page handler and
/// the payload for the API handler.
pub open spec fn route_model(m: ReqModel, page: Option<Seq<char>>, data: Seq<char>) -> RespModel {
    match dispatch_of(m) {
        RouteTarget::Api => api_model(data),
        RouteTarget::StaticPage => static_model(page),
        RouteTarget::NotFound => not_found_model(),
    }
}

fn find_slash(s: &str, from: usize) -> (r: usize)
    requires
        from <= s@.len(),
    ensures
        r == next_slash(s@, from as int),
        from <= r <= s@.len(),
{
    let n = s.unicode_len();
    let mut i = from;
    while i < n && s.get_char(i) != '/'
        invariant
            n == s@.len(),
            from <= i <= n,
            next_slash(s@, from as int) == next_slash(s@, i as int),
        decreases n - i,
    {
        i += 1;
    }
    i
}

pub struct Router;

impl Router {
    /// Selects the one handler a request is dispatched to.
    pub fn dispatch(req: &HttpRequest) -> (t: RouteTarget)
        ensures
            t == dispatch_of(req@),
    {
        if !matches!(req.method, Method::GET) {
            return RouteTarget::NotFound;
        }
        match &req.resource {
            Resource::Path(p) => {
                let s = p.as_str();
                let n = s.unicode_len();
                let a = find_slash(s, 0);
                if a < n {
                    let b = find_slash(s, a + 1);
                    if crate::httprequest::str_eq(s.substring_char(a + 1, b), "api") {
                        RouteTarget::Api
                    } else {
                        RouteTarget::StaticPage
                    }
                } else {
                    RouteTarget::StaticPage
                }
            },
        }
    }

    /// Dispatches the request, lets the selected handler build the
    /// response, and drives the response builder: the result is the exact
    /// bytes to write back on the connection. `page` is what the page
    /// lookup produced, `api_data` what the service produced; each is
    /// consulted only when its handler is the one selected.
    pub fn route(req: HttpRequest, page: Option<String>, api_data: String) -> (r: String)
        ensures
            r@ == wire(route_model(req@, opt_view(page), api_data@)),
    {
        let resp = match Router::dispatch(&req) {
            RouteTarget::Api => WebServiceHandler::handle(&req, api_data),
            RouteTarget::StaticPage => StaticPageHandler::handle(&req, page),
            RouteTarget::NotFound => PageNotFoundHandler::handle(&req),
        };
        resp.serialize()
    }

    /// The response for a connection whose request text could not be
    /// parsed: a plain 400, already serialized.
    pub fn bad_request() -> (r: String)
        ensures
            r@ == wire(bad_request_model()),
    {
        let resp = crate::handler::build_bad_request();
        resp.serialize()
    }
}

/// Law: the status code of the routed response follows the dispatch
/// decision alone — 404 for anything but a plain GET or for a page that
/// was not found, 200 for a served page or an API reply.
pub proof fn lemma_route_status(m: ReqModel, page: Option<Seq<char>>, data: Seq<char>)
    ensures
        dispatch_of(m) == RouteTarget::NotFound ==> route_model(m, page, data).status_code == 404,
        dispatch_of(m) == RouteTarget::Api ==> route_model(m, page, data).status_code == 200,
        dispatch_of(m) == RouteTarget::StaticPage && page is Some ==> route_model(m, page, data).status_code == 200,
        dispatch_of(m) == RouteTarget::StaticPage && page is None ==> route_model(m, page, data).status_code == 404,
        m.method != Method::GET ==> route_model(m, page, data).status_code == 404,
{
}

} // verus!
