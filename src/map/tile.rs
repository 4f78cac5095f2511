use vstd::prelude::*;

use crate::map::actor::Actor;
use crate::map::object::Object;
use crate::model::Placable;

verus! {

/// One square of a map's grid and who stands on it.
#[derive(Clone, Debug)]
pub struct Tile {
    pub rotation: u8,
    pub object: Option<Object>,
    pub actors: Vec<Actor>,
}

impl Tile {
    /// An empty tile laid out as the content origin describes it.
    pub fn from_placable(placable: Placable) -> (r: Tile)
        ensures
            r.rotation == placable.rotation,
            r.object is None,
            r.actors@.len() == 0,
    {
        Tile { rotation: placable.rotation, object: None, actors: Vec::new() }
    }
}

} // verus!
