//! A minimal embeddable HTTP/1.1 server core.
//!
//! The library parses an HTTP request (request line, header block,
//! optional fixed-length body) out of a raw byte stream, offers
//! case-insensitive header lookup and client-IP resolution over the
//! parsed request, and formats plain HTTP responses.  All protocol
//! logic is verified; the surrounding socket plumbing is ordinary
//! async code that feeds bytes in and writes bytes out.

pub mod error;
pub mod headers;
pub mod laws;
pub mod parse;
pub mod request;
pub mod response;
pub mod server;
pub mod status;
