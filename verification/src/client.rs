//! Clients of the daemon's socket: where they connect, and the request
//! line they send. The connection itself is made by the caller.
use vstd::prelude::*;
use crate::text::concat_strs;

verus! {

/// Talks HTTP to the daemon over its Unix socket.
#[derive(Debug, Clone)]
pub struct CrawlClient {
    socket_path: String,
}

impl CrawlClient {
    pub closed spec fn path(&self) -> Seq<char> {
        self.socket_path@
    }

    pub fn new(socket_path: String) -> (c: Self)
        ensures
            c.path() == socket_path@,
    {
        CrawlClient { socket_path }
    }

    pub fn socket_path(&self) -> (p: &String)
        ensures
            p@ == self.path(),
    {
        &self.socket_path
    }

    /// The URI of a request for `path` (`http://localhost` and the path).
    pub fn request_uri(path: &str) -> (u: String)
        ensures
            u@ == "http://localhost"@ + path@,
    {
        concat_strs("http://localhost", path)
    }
}

/// Talks JSON-RPC to the daemon over its Unix socket.
#[derive(Debug, Clone)]
pub struct JsonRpcClient {
    socket_path: String,
}

impl JsonRpcClient {
    pub closed spec fn path(&self) -> Seq<char> {
        self.socket_path@
    }

    pub fn new(socket_path: String) -> (c: Self)
        ensures
            c.path() == socket_path@,
    {
        JsonRpcClient { socket_path }
    }

    pub fn socket_path(&self) -> (p: &String)
        ensures
            p@ == self.path(),
    {
        &self.socket_path
    }
}

/// Subscribes to the daemon's event stream.
#[derive(Debug, Clone)]
pub struct EventSubscription {
    socket_path: String,
}

impl EventSubscription {
    pub closed spec fn path(&self) -> Seq<char> {
        self.socket_path@
    }

    pub fn new(socket_path: String) -> (s: Self)
        ensures
            s.path() == socket_path@,
    {
        EventSubscription { socket_path }
    }

    pub fn socket_path(&self) -> (p: &String)
        ensures
            p@ == self.path(),
    {
        &self.socket_path
    }
}

} // verus!
