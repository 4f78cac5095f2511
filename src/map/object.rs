use vstd::prelude::*;

use crate::model::Direction;

verus! {

/// A static placeable's instance on a tile.
#[derive(Clone, Debug)]
pub struct Object {
    pub id: String,
    /// Present only for objects that can move.
    pub movable: Option<Movable>,
}

/// Direction of a movable object and when it was last updated, in milliseconds.
#[derive(Clone, Copy, Debug, PartialEq, Eq, Structural)]
pub struct Movable {
    pub direction: Direction,
    pub updated_at: Option<u64>,
}

} // verus!
