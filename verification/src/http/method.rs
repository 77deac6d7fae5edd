//! The methods a request is sent under, and the statuses an answer carries.

use vstd::prelude::*;

verus! {

/// A status an answer carries, as its three-digit code.
pub type HttpStatus = u16;

/// The request succeeded.
pub const OK: u16 = 200;

/// The request created something.
pub const CREATED: u16 = 201;

/// The request succeeded and the answer carries nothing.
pub const NO_CONTENT: u16 = 204;

/// What was asked for is found elsewhere, to be asked for with `GET`.
pub const SEE_OTHER: u16 = 303;

/// The request could not be read.
pub const BAD_REQUEST: u16 = 400;

/// Nothing answers at the path asked for.
pub const NOT_FOUND: u16 = 404;

/// Something answers at the path asked for, but not under this method.
pub const METHOD_NOT_ALLOWED: u16 = 405;

/// The surface failed to answer.
pub const INTERNAL: u16 = 500;

/// The methods a request can be sent under.
#[derive(Debug, Clone, Copy, PartialEq, Eq, Hash, Structural)]
pub enum HttpMethod {
    /// `GET`
    Get,
    /// `POST`
    Post,
    /// `PUT`
    Put,
    /// `PATCH`
    Patch,
    /// `DELETE`
    Delete,
    /// `HEAD`
    Head,
    /// `OPTIONS`
    Options,
    /// `TRACE`
    Trace,
    /// `CONNECT`
    Connect,
}

/// The name a method is sent under.
pub open spec fn method_label(method: HttpMethod) -> Seq<char> {
    match method {
        HttpMethod::Get => "GET"@,
        HttpMethod::Post => "POST"@,
        HttpMethod::Put => "PUT"@,
        HttpMethod::Patch => "PATCH"@,
        HttpMethod::Delete => "DELETE"@,
        HttpMethod::Head => "HEAD"@,
        HttpMethod::Options => "OPTIONS"@,
        HttpMethod::Trace => "TRACE"@,
        HttpMethod::Connect => "CONNECT"@,
    }
}

impl HttpMethod {
    /// Returns the name this method is sent under.
    pub fn label(self) -> (r: &'static str)
        ensures
            r@ == method_label(self),
    {
        match self {
            HttpMethod::Get => "GET",
            HttpMethod::Post => "POST",
            HttpMethod::Put => "PUT",
            HttpMethod::Patch => "PATCH",
            HttpMethod::Delete => "DELETE",
            HttpMethod::Head => "HEAD",
            HttpMethod::Options => "OPTIONS",
            HttpMethod::Trace => "TRACE",
            HttpMethod::Connect => "CONNECT",
        }
    }
}

} // verus!
