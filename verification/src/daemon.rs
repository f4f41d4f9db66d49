//! The background service: its handle and the requests it understands.

use vstd::prelude::*;

verus! {

/// The background service. It holds nothing yet.
#[derive(Debug, Clone, Copy, PartialEq, Eq, Structural)]
pub struct Daemon;

impl Daemon {
    /// A handle to the service.
    pub fn new() -> (d: Self)
        ensures
            d == Daemon,
    {
        Daemon
    }
}

impl Default for Daemon {
    fn default() -> (d: Self)
        ensures
            d == Daemon,
    {
        Daemon
    }
}

/// A request of a client to the service.
#[derive(Debug, Clone)]
pub enum Request {
    /// Search the index.
    Search { query: String, limit: Option<usize> },
    /// Report the state of the service.
    Status,
    /// Answer to show that the service is alive.
    Ping,
    /// Stop the service.
    Shutdown,
}

impl Request {
    /// The name of the request on the wire.
    pub fn kind(&self) -> (s: &'static str)
        ensures
            s@ == match *self {
                Request::Search { .. } => "search"@,
                Request::Status => "status"@,
                Request::Ping => "ping"@,
                Request::Shutdown => "shutdown"@,
            },
    {
        match self {
            Request::Search { .. } => "search",
            Request::Status => "status",
            Request::Ping => "ping",
            Request::Shutdown => "shutdown",
        }
    }
}

} // verus!
