//! A small HTTP/1.1 server core: a typed message model, a parser for
//! requests read off a connection, an exact serializer for responses, a
//! matching client-side decoder, and the route handlers the server
//! dispatches to. Sockets, threads and the file system stay with the
//! caller; everything here is plain values in and plain values out.
use vstd::prelude::*;

pub mod ascii;
pub mod decode;
pub mod endpoints;
pub mod headers;
pub mod http_response;
pub mod model;
pub mod num;
pub mod parse;
pub mod scan;
pub mod settings;

verus! {

} // verus!
