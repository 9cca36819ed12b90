//! Device-facing state types of the host-side vsock endpoint that take part
//! in snapshotting: plain-value identifiers and queue items whose state the
//! engine can carry across versions.  The transport itself (sockets, event
//! loops) is an external collaborator and stays outside this crate.

use vstd::prelude::*;

verus! {

/// The kind of host-side vsock backend a stream belongs to.
#[derive(Debug, PartialEq, Eq, Structural, Clone, Copy, Hash)]
pub enum VsockBackendType {
    /// Unix domain socket.
    Uds,
    /// TCP socket.
    Tcp,
    /// In-process backend.
    Inner,
}

/// A unique identifier of one vsock connection: the (host, guest) port pair
/// under which the connection is registered.
#[derive(Debug, PartialEq, Eq, Structural, Clone, Copy, Hash)]
pub struct ConnMapKey {
    pub local_port: u32,
    pub peer_port: u32,
}

impl ConnMapKey {
    /// The key for the given (host, guest) port pair.
    pub fn new(local_port: u32, peer_port: u32) -> (k: ConnMapKey)
        ensures
            k == (ConnMapKey { local_port, peer_port }),
    {
        ConnMapKey { local_port, peer_port }
    }

    /// The host-side port.
    pub fn local_port(&self) -> (p: u32)
        ensures
            p == self.local_port,
    {
        self.local_port
    }

    /// The guest-side port.
    pub fn peer_port(&self) -> (p: u32)
        ensures
            p == self.peer_port,
    {
        self.peer_port
    }
}

/// A multiplexer receive-queue item.
#[derive(Debug, PartialEq, Eq, Structural, Clone, Copy)]
pub enum MuxerRx {
    /// The packet must be fetched from the connection with this key.
    ConnRx(ConnMapKey),
    /// The multiplexer must produce a reset packet for this port pair.
    RstPkt { local_port: u32, peer_port: u32 },
}

/// A multiplexer error.  The multiplexer has no failure of its own: every
/// failure it surfaces comes from a backend, surfaced here unchanged.
#[derive(Debug, PartialEq, Eq, Structural, Clone, Copy)]
pub enum Error {
    /// A backend failure, surfaced to the operator-facing error path.
    Backend,
}

} // verus!
