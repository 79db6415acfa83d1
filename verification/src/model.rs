//! Shared data model of the RPC core: the negotiation record, the correlated
//! message envelope, and the string-carrying error value.

use vstd::prelude::*;
use vstd::string::StringExecFns;

verus! {

/// The first record on every new bidirectional stream: selects the service
/// that the stream will carry, by name.
#[derive(Debug, Clone)]
pub struct Negotiate {
    pub name: String,
}

/// How a negotiated stream is used once the service is selected.
#[derive(Debug, Clone, PartialEq, Eq, Structural)]
pub enum ServiceForm {
    Rpc,
    PubSub,
}

/// Correlation envelope: a per-stream identifier plus the payload.  The
/// client assigns `id`; the server echoes it unchanged in the reply.
#[derive(Debug, Clone)]
pub struct Message<T> {
    pub id: u64,
    pub payload: T,
}

/// A string-carrying value-type error.  It has no identity beyond its
/// message; it is only a signal.
#[derive(Debug, Clone)]
pub struct Error(pub String);

/// The rendering of an [`Error`] for human eyes.
pub open spec fn display_of(msg: Seq<char>) -> Seq<char> {
    "Nitrogen Error: "@ + msg
}

impl Error {
    /// The error's message.
    pub fn message(&self) -> (r: &String)
        ensures
            r@ == self.0@,
    {
        &self.0
    }

    /// The full human-readable rendering, prefixed with the framework name.
    pub fn to_display_string(&self) -> (r: String)
        ensures
            r@ == display_of(self.0@),
    {
        let prefix: String = String::from_str("Nitrogen Error: ");
        prefix.concat(self.0.as_str())
    }
}

impl<T> Message<T> {
    /// A reply envelope carries the same identifier as the request it
    /// answers: the server only echoes, it never originates.
    pub fn reply(id: u64, payload: T) -> (r: Message<T>)
        ensures
            r.id == id,
            r.payload == payload,
    {
        Message { id, payload }
    }
}

} // verus!
