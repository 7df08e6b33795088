//! The inbound request, as the handlers see it.

use vstd::prelude::*;

verus! {

/// The HTTP method of a request. Only `GET` and `POST` select an operation; every
/// other method is `Other`.
#[derive(Clone, Copy, Debug, PartialEq, Eq, Structural)]
pub enum Method {
    Get,
    Post,
    Other,
}

/// One inbound request: its method, the path of its URL and its body as it arrived.
#[derive(Debug)]
pub struct Request {
    pub method: Method,
    pub path: String,
    pub body: Vec<u8>,
}

} // verus!
