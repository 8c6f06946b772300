//! Server configuration: where to bind and how loudly to log.
//!
//! The accept loop itself is asynchronous socket work and lives with
//! the embedding program; it reads the configuration through the
//! getters here and abandons any connection that takes longer than
//! [`CONNECTION_TIMEOUT_SECS`] to parse and handle.

use vstd::prelude::*;

verus! {

/// How many seconds one connection may take, parse and handler
/// together, before it is abandoned.
pub const CONNECTION_TIMEOUT_SECS: u64 = 60;

/// The configuration of one server: host, port and verbosity.
pub struct WebServer {
    host: String,
    port: u16,
    verbose: bool,
}

impl WebServer {
    /// The configured host string.
    pub closed spec fn spec_host(&self) -> Seq<char> {
        self.host@
    }

    /// The configured port.
    pub closed spec fn spec_port(&self) -> u16 {
        self.port
    }

    /// The configured verbosity.
    pub closed spec fn spec_verbose(&self) -> bool {
        self.verbose
    }

    /// A server that will bind `host:port`, logging operator
    /// diagnostics only when `verbose` is set.
    pub fn new(host: String, port: u16, verbose: bool) -> (r: WebServer)
        ensures
            r.spec_host() == host@,
            r.spec_port() == port,
            r.spec_verbose() == verbose,
    {
        WebServer { host, port, verbose }
    }

    /// The host to bind.
    pub fn host(&self) -> (r: &String)
        ensures
            r@ == self.spec_host(),
    {
        &self.host
    }

    /// The port to bind.
    pub fn port(&self) -> (r: u16)
        ensures
            r == self.spec_port(),
    {
        self.port
    }

    /// Whether operator diagnostics are wanted.
    pub fn verbose(&self) -> (r: bool)
        ensures
            r == self.spec_verbose(),
    {
        self.verbose
    }
}

} // verus!
