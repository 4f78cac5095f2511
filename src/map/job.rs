use vstd::prelude::*;

use crate::model::Position;
use crate::net::incoming::Incoming;
use crate::net::outgoing::Outgoing;
use crate::reason::DropReason;

verus! {

/// Work for a map's worker; `C` is a live connection.
pub enum Job<C> {
    /// A connection handed over for an actor, to be placed at a position.
    Accept(C, String, Position),
    Drop(String, DropReason),
    Readable(String),
    Incoming(String, Incoming),
    Write(String, Outgoing),
    Broadcast(Outgoing),
    /// Continue an actor's movement; each step takes the given milliseconds.
    Move(String, u64),
}

/// What the worker asks of whoever owns the sockets, after a job.
pub enum Action<C> {
    Nothing,
    /// Write these bytes to the actor's socket, without blocking.
    Write(String, Vec<u8>),
    /// Write these bytes to every registered socket, without blocking.
    Broadcast(Vec<u8>),
    /// This connection left the map: close it.
    Close(C, DropReason),
}

} // verus!
