use vstd::prelude::*;

verus! {

/// Facing or moving direction of something that can move on the grid.
#[derive(Clone, Copy, Debug, PartialEq, Eq, Structural)]
pub enum Direction {
    Idle,
    Up,
    Right,
    Down,
    Left,
}

/// Coordinate of a tile in a map's grid.
#[derive(Clone, Copy, Debug, PartialEq, Eq, Hash, Structural)]
pub struct Position {
    pub x: i32,
    pub y: i32,
    pub z: i32,
}

/// The position one unit step away from `p` in direction `d` (Up = +z, Right = +x,
/// Down = -z, Left = -x), as mathematical integers.
pub open spec fn step(p: Position, d: Direction) -> (int, int, int) {
    match d {
        Direction::Idle => (p.x as int, p.y as int, p.z as int),
        Direction::Up => (p.x as int, p.y as int, p.z + 1),
        Direction::Right => (p.x + 1, p.y as int, p.z as int),
        Direction::Down => (p.x as int, p.y as int, p.z - 1),
        Direction::Left => (p.x - 1, p.y as int, p.z as int),
    }
}

/// The coordinates of `p` as mathematical integers.
pub open spec fn coords(p: Position) -> (int, int, int) {
    (p.x as int, p.y as int, p.z as int)
}

/// The neighbouring position in direction `d`, or `None` where a coordinate would leave
/// the range of `i32` (no tile can exist there).
pub fn next_position(p: Position, d: Direction) -> (r: Option<Position>)
    ensures
        r matches Some(q) ==> coords(q) == step(p, d),
        r is None ==> step(p, d).0 < i32::MIN || step(p, d).0 > i32::MAX || step(p, d).2 < i32::MIN
            || step(p, d).2 > i32::MAX,
{
    match d {
        Direction::Idle => Some(p),
        Direction::Up => {
            if p.z == i32::MAX {
                None
            } else {
                Some(Position { x: p.x, y: p.y, z: p.z + 1 })
            }
        },
        Direction::Right => {
            if p.x == i32::MAX {
                None
            } else {
                Some(Position { x: p.x + 1, y: p.y, z: p.z })
            }
        },
        Direction::Down => {
            if p.z == i32::MIN {
                None
            } else {
                Some(Position { x: p.x, y: p.y, z: p.z - 1 })
            }
        },
        Direction::Left => {
            if p.x == i32::MIN {
                None
            } else {
                Some(Position { x: p.x - 1, y: p.y, z: p.z })
            }
        },
    }
}


/// What the content origin says of one tile of a map.
#[derive(Clone, Copy, Debug, PartialEq, Eq, Structural)]
pub struct Placable {
    /// Layout rotation of the tile.
    pub rotation: u8,
}

/// A map definition as the content origin gives it: ids and the tiles it consists of.
#[derive(Clone, Debug)]
pub struct MapData {
    pub id: String,
    pub name: String,
    pub tiles: Vec<(Position, Placable)>,
}

} // verus!
