//! HTTP status codes and their reason phrases.

use vstd::prelude::*;

verus! {

/// The status line tail of a response: code plus reason phrase.
#[derive(Clone, Copy, PartialEq, Eq, Structural, Debug)]
pub enum Status {
    OK,
    BadRequest,
    NotFound,
    InternalServerError,
}

/// The text a status renders to, e.g. `200 OK`.
pub open spec fn spec_status_text(s: Status) -> Seq<char> {
    match s {
        Status::OK => "200 OK"@,
        Status::BadRequest => "400 Bad Request"@,
        Status::NotFound => "404 Not Found"@,
        Status::InternalServerError => "500 Internal Server Error"@,
    }
}

impl Status {
    /// The code and reason phrase as one string, e.g. `200 OK`.
    pub fn text(&self) -> (r: &'static str)
        ensures
            r@ == spec_status_text(*self),
    {
        match self {
            Status::OK => "200 OK",
            Status::BadRequest => "400 Bad Request",
            Status::NotFound => "404 Not Found",
            Status::InternalServerError => "500 Internal Server Error",
        }
    }
}

} // verus!
