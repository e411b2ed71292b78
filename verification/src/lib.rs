//! A small, verified HTTP/1.1 core: a request parser, a router, a set of
//! handlers, and a response builder. The surrounding server (sockets, the
//! accept loop, file lookup) lives outside this crate and exchanges plain
//! strings with it.

pub mod handler;
pub mod httprequest;
pub mod httpresponse;
pub mod router;
pub mod util;
