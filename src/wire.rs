//! Values of the datagram protocol spoken between the coordinator and its
//! game servers, and the address of a server.

use vstd::prelude::*;

verus! {

/// Lifecycle phase of a game server as observed by probing.
#[derive(Clone, Copy, Debug, PartialEq, Eq, Structural)]
pub enum Phase {
    /// Never successfully probed.
    Unknown,
    /// Ready to accept work.
    Waiting,
    /// Occupied.
    Busy,
    /// The last probe got no reply.
    Unreachable,
}

/// Payload of a protocol message.
#[derive(Clone, Debug)]
pub enum Content {
    /// Asks a server for its status.
    Query,
    /// A server's reply to a query.
    Status(Phase),
    /// Opaque token payload a server may send instead of a status.
    Tokens(Vec<u8>),
}

/// A protocol message; its content may be absent on the wire.
#[derive(Clone, Debug)]
pub struct Message {
    pub content: Option<Content>,
}

impl Message {
    /// The message that asks a server for its status.
    pub fn query() -> (r: Message)
        ensures
            r.content == Some(Content::Query),
    {
        Message { content: Some(Content::Query) }
    }
}

/// Host name and port of a game server; equal when both parts are equal.
#[derive(Clone, Debug)]
pub struct ServerAddress {
    pub host: String,
    pub port: i16,
}

impl View for ServerAddress {
    type V = (Seq<char>, i16);

    open spec fn view(&self) -> (Seq<char>, i16) {
        (self.host@, self.port)
    }
}

impl ServerAddress {
    pub fn new(host: String, port: i16) -> (r: ServerAddress)
        ensures
            r@ == (host@, port),
    {
        ServerAddress { host, port }
    }

    /// Whether both addresses name the same host and port.
    pub fn same(&self, other: &ServerAddress) -> (r: bool)
        ensures
            r == (self@ == other@),
    {
        self.port == other.port && self.host == other.host
    }

    /// An equal, independently owned address.
    pub fn copy(&self) -> (r: ServerAddress)
        ensures
            r@ == self@,
    {
        ServerAddress { host: self.host.clone(), port: self.port }
    }
}

} // verus!
