//! Sessions: the client-facing handle to one live peer connection.  A
//! session stands for the connection's stream opener together with the two
//! socket addresses of the connection; copies of a session share the same
//! underlying handle.

use vstd::prelude::*;

use crate::model::{Error, Negotiate};
use crate::negotiator::Negotiator;

verus! {

/// A socket address: the host and the port, as plain values.
#[derive(Debug, Clone, Copy, PartialEq, Eq, Hash, Structural)]
pub struct Addr {
    pub ip: u32,
    pub port: u16,
}

impl Addr {
    /// An address from its host and port.
    pub fn new(ip: u32, port: u16) -> (r: Addr)
        ensures
            r.ip == ip,
            r.port == port,
    {
        Addr { ip, port }
    }
}

/// A handle to one side of a peer connection.  `handle` stands for the
/// connection's stream opener; two sessions with the same handle share the
/// same connection.  A session is created by the peer when it accepts or
/// establishes a connection and lives in the peer's session registry;
/// callers hold copies.
#[derive(Debug, Clone, Copy, PartialEq, Eq, Structural)]
pub struct Session {
    pub handle: u64,
    pub local: Addr,
    pub remote: Addr,
}

impl Session {
    /// A session over the given connection handle and its addresses.
    pub fn new(handle: u64, local: Addr, remote: Addr) -> (r: Session)
        ensures
            r.handle == handle,
            r.local == local,
            r.remote == remote,
    {
        Session { handle, local, remote }
    }

    /// The address of this endpoint's side of the connection.
    pub fn local_addr(&self) -> (r: Addr)
        ensures
            r == self.local,
    {
        self.local
    }

    /// The address of the remote side of the connection.
    pub fn remote_addr(&self) -> (r: Addr)
        ensures
            r == self.remote,
    {
        self.remote
    }

    /// The handshake frame that opens a new stream on this session: the
    /// negotiation record that must precede all other traffic.  The task
    /// opening the stream writes exactly these bytes first, then switches
    /// the stream to the steady-state framing.
    pub fn new_stream_frame(&self, negotiate: &Negotiate) -> (r: Result<Vec<u8>, Error>)
        ensures
            crate::negotiator::negotiate_wire(negotiate.name@).len()
                <= crate::framed::MAX_HANDSHAKE_LEN ==> (r matches Ok(buf) && buf@
                == crate::framed::handshake_bytes(
                crate::negotiator::negotiate_wire(negotiate.name@),
            )),
            crate::negotiator::negotiate_wire(negotiate.name@).len()
                > crate::framed::MAX_HANDSHAKE_LEN ==> (r matches Err(e) && e.0@
                == crate::framed::handshake_oversize_message()),
    {
        Negotiator::new().encode(negotiate)
    }
}

} // verus!
