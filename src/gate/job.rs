use vstd::prelude::*;

use crate::model::Position;
use crate::net::incoming::Incoming;
use crate::reason::DropReason;

verus! {

/// Work for the router; `C` is a live connection, indexed by its place among the router's.
pub enum Job<C> {
    Accept(C),
    Drop(usize, DropReason),
    Readable(usize),
    Incoming(usize, Incoming),
    /// Hand connection `index` over to map `map_id` as player `user_id`.
    Send { index: usize, user_id: String, map_id: String },
}

/// What the router asks of whoever owns the sockets, the channels and the outside services.
pub enum Action<C> {
    Nothing,
    /// Check `token` with the authentication service and look up the player's map, then
    /// report the outcome with `on_auth`.
    Authenticate { index: usize, token: String },
    /// Move the connection into the handoff channel at `channel`.
    Handoff { conn: C, channel: usize, user_id: String, position: Position },
    /// Close this connection.
    Close(C, DropReason),
}

/// What authentication and the player lookup gave.
#[derive(Clone, Debug, PartialEq, Eq)]
pub enum Auth {
    /// The player exists; `map_id` is where they were last, if that is on record.
    Granted { user_id: String, map_id: Option<String> },
    /// The service refused, or a lookup failed; the text says why.
    Denied(String),
}

} // verus!
