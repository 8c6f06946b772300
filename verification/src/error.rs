//! The parse-failure taxonomy for a single connection.

use vstd::prelude::*;

verus! {

/// What went wrong while parsing one request.  Every variant is
/// recovered per-connection: the caller writes a generic error
/// response on the still-open socket and closes it.
#[derive(Debug)]
pub enum RequestError {
    /// The request line could not be read (no CR LF arrived).
    MalformedRequestLine,
    /// The request line holds no space, so no method can be split off.
    MissingMethod,
    /// The remainder after the method holds no space, so path and
    /// version cannot be told apart.
    MissingVersionOrPath,
    /// A header line holds no `": "` separator; carries the offending line.
    MalformedHeader(String),
    /// The `Content-Length` value is not a non-negative integer that
    /// fits the machine.
    InvalidContentLength,
    /// A read failed: a header line or the body was cut short.
    IoError,
}

/// The same taxonomy without payloads, for use in specifications.
#[derive(Debug)]
pub enum ErrKind {
    MalformedRequestLine,
    MissingMethod,
    MissingVersionOrPath,
    MalformedHeader,
    InvalidContentLength,
    IoError,
}

impl RequestError {
    /// The payload-free class of this error.
    pub open spec fn kind(&self) -> ErrKind {
        match self {
            RequestError::MalformedRequestLine => ErrKind::MalformedRequestLine,
            RequestError::MissingMethod => ErrKind::MissingMethod,
            RequestError::MissingVersionOrPath => ErrKind::MissingVersionOrPath,
            RequestError::MalformedHeader(_) => ErrKind::MalformedHeader,
            RequestError::InvalidContentLength => ErrKind::InvalidContentLength,
            RequestError::IoError => ErrKind::IoError,
        }
    }

    /// The offending header line, where one is carried.
    pub open spec fn detail(&self) -> Seq<char> {
        match self {
            RequestError::MalformedHeader(line) => line@,
            _ => Seq::<char>::empty(),
        }
    }

    /// A short description of the failure, for operator-facing logs.
    pub fn describe(&self) -> (r: &'static str)
        ensures
            r@ == spec_describe(self.kind()),
    {
        match self {
            RequestError::MalformedRequestLine => "could not read request line",
            RequestError::MissingMethod => "could not parse method",
            RequestError::MissingVersionOrPath => "could not parse path and version",
            RequestError::MalformedHeader(_) => "could not parse header",
            RequestError::InvalidContentLength => "could not parse content length",
            RequestError::IoError => "connection closed mid-request",
        }
    }
}

/// The description each error class carries.
pub open spec fn spec_describe(k: ErrKind) -> Seq<char> {
    match k {
        ErrKind::MalformedRequestLine => "could not read request line"@,
        ErrKind::MissingMethod => "could not parse method"@,
        ErrKind::MissingVersionOrPath => "could not parse path and version"@,
        ErrKind::MalformedHeader => "could not parse header"@,
        ErrKind::InvalidContentLength => "could not parse content length"@,
        ErrKind::IoError => "connection closed mid-request"@,
    }
}

} // verus!
