use vstd::prelude::*;

use crate::model::Direction;

verus! {

/// A connected player's avatar on a map.
#[derive(Clone, Debug)]
pub struct Actor {
    /// Same as the id of the player's connection.
    pub id: String,
    pub movable: Movable,
}

impl Actor {
    pub open spec fn new_spec(id: String, now: u64) -> Actor {
        Actor { id, movable: Movable { direction: Direction::Idle, moved_at: now } }
    }

    /// A standing actor that last changed tiles at `now`.
    pub fn new(id: String, now: u64) -> (r: Actor)
        ensures
            r == Actor::new_spec(id, now),
    {
        Actor { id, movable: Movable::new(now) }
    }
}

/// Where an actor is heading and when it last changed tiles, in milliseconds.
#[derive(Clone, Copy, Debug, PartialEq, Eq, Structural)]
pub struct Movable {
    pub direction: Direction,
    pub moved_at: u64,
}

impl Movable {
    pub fn new(now: u64) -> (r: Movable)
        ensures
            r.direction == Direction::Idle,
            r.moved_at == now,
    {
        Movable { direction: Direction::Idle, moved_at: now }
    }
}

} // verus!
