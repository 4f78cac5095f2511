use vstd::prelude::*;

use crate::net::outgoing::EncodeError;
use crate::net::reader::ReadError;

verus! {

/// What went wrong while a worker handled a job.
#[derive(Clone, Copy, Debug, PartialEq, Eq, Structural)]
pub enum Failure {
    /// A handed-off connection names a position where the map has no tile.
    WrongPosition,
    /// A handed-off connection names an actor that is already on the map.
    AlreadyRegistered,
    /// The connection to drop is not registered.
    DropFailed,
    /// The connection that became readable is not registered.
    StreamNotFound,
    /// The actor that sent a packet or is moving has no registered connection.
    NoStream,
    /// The actor's registered position has no tile.
    NoTile,
    /// The actor's tile does not hold it.
    NoActor,
    /// No map worker is registered under the map id a player was routed to.
    UnknownMap,
    /// A packet could not be encoded.
    Encode(EncodeError),
}

/// Why a connection is dropped.
#[derive(Clone, Debug, PartialEq, Eq)]
pub enum DropReason {
    /// Reading from the socket failed, or what it sent is not a message.
    Read(ReadError),
    /// Writing to the socket failed; the text says how.
    Write(String),
    /// Authentication refused the client; the text is the answer's body.
    Rejected(String),
    /// Handling a packet from the connection failed.
    Failed(Failure),
}

} // verus!
