use vstd::prelude::*;

use crate::map::actor::{Actor, Movable};
use crate::map::job::{Action, Job};
use crate::map::tile::Tile;
use crate::model::{coords, next_position, step, Direction, MapData, Placable, Position};
use crate::net::incoming::Incoming;
use crate::net::outgoing::{encodable, outgoing_bytes, EncodeError, Outgoing};
use crate::net::reader::{ReadError, Reader};
use crate::net::writer::{frame, get_packet_buf, MAX_FRAME};
use crate::reason::{DropReason, Failure};
use crate::schedule::{inserted, Schedule, ScheduleQueue};

verus! {

/// Shortest time between two tile changes of one actor, in milliseconds.
pub const COOLDOWN: u64 = 300;

/// A registered connection: the actor it belongs to, the socket and where the actor is.
pub struct Stream<C> {
    pub id: String,
    pub conn: C,
    pub position: Position,
}

/// Whether `t` holds an actor with id `id`.
pub open spec fn has_actor(t: Tile, id: Seq<char>) -> bool {
    exists|a: int| 0 <= a < t.actors@.len() && #[trigger] t.actors@[a].id@ == id
}

/// Whether the tile at `p` holds an actor with id `id`.
pub open spec fn occupied(tiles: Seq<(Position, Tile)>, id: Seq<char>, p: Position) -> bool {
    exists|t: int| 0 <= t < tiles.len() && tiles[t].0 == p && #[trigger] has_actor(tiles[t].1, id)
}

/// Whether the registry places actor `id` at `p`.
pub open spec fn registered<C>(streams: Seq<Stream<C>>, id: Seq<char>, p: Position) -> bool {
    exists|i: int| 0 <= i < streams.len() && #[trigger] streams[i].id@ == id && streams[i].position == p
}

/// Whether the registry holds actor `id` anywhere.
pub open spec fn online<C>(streams: Seq<Stream<C>>, id: Seq<char>) -> bool {
    exists|i: int| 0 <= i < streams.len() && #[trigger] streams[i].id@ == id
}

/// Whether the map has a tile at `p`.
pub open spec fn tile_at(tiles: Seq<(Position, Tile)>, p: Position) -> bool {
    exists|t: int| 0 <= t < tiles.len() && #[trigger] tiles[t].0 == p
}

/// Tile membership and the registry agree: an actor stands on the tile at `p` exactly when
/// the registry places it at `p`.
pub open spec fn consistent<C>(tiles: Seq<(Position, Tile)>, streams: Seq<Stream<C>>) -> bool {
    forall|id: Seq<char>, p: Position|
        #![trigger occupied(tiles, id, p)]
        #![trigger registered(streams, id, p)]
        occupied(tiles, id, p) <==> registered(streams, id, p)
}

pub open spec fn distinct_positions(tiles: Seq<(Position, Tile)>) -> bool {
    forall|i: int, j: int| 0 <= i < j < tiles.len() ==> tiles[i].0 != tiles[j].0
}

pub open spec fn distinct_ids<C>(streams: Seq<Stream<C>>) -> bool {
    forall|i: int, j: int| 0 <= i < j < streams.len() ==> streams[i].id@ != streams[j].id@
}

pub open spec fn distinct_actors(t: Tile) -> bool {
    forall|a: int, b: int| 0 <= a < b < t.actors@.len() ==> t.actors@[a].id@ != t.actors@[b].id@
}

pub open spec fn tiles_wf(tiles: Seq<(Position, Tile)>) -> bool {
    &&& distinct_positions(tiles)
    &&& forall|t: int| 0 <= t < tiles.len() ==> #[trigger] distinct_actors(tiles[t].1)
}

/// The (id, position) pairs of everyone registered, in registry order.
pub open spec fn roster<C>(streams: Seq<Stream<C>>) -> Seq<(Seq<char>, Position)> {
    streams.map_values(|s: Stream<C>| (s.id@, s.position))
}

/// Whether the tile at `p` holds `actor`, whose id is `id`.
pub open spec fn actor_at(tiles: Seq<(Position, Tile)>, id: Seq<char>, p: Position, actor: Actor) -> bool {
    exists|t: int, a: int|
        0 <= t < tiles.len() && 0 <= a < tiles[t].1.actors@.len() && tiles[t].0 == p && #[trigger] tiles[t].1.actors@[a]
            == actor && actor.id@ == id
}

/// Whether `t` holds exactly `act`.
pub open spec fn holds(t: Tile, act: Actor) -> bool {
    exists|a: int| 0 <= a < t.actors@.len() && #[trigger] t.actors@[a] == act
}

/// Every tile keeps its place, rotation and object.
pub open spec fn layout_kept(old: Seq<(Position, Tile)>, new: Seq<(Position, Tile)>) -> bool {
    &&& new.len() == old.len()
    &&& forall|t: int|
        0 <= t < old.len() ==> #[trigger] new[t].0 == old[t].0 && new[t].1.rotation == old[t].1.rotation
            && new[t].1.object == old[t].1.object
}

/// Every actor other than `key` stands where it stood, unchanged.
pub open spec fn others_kept(old: Seq<(Position, Tile)>, new: Seq<(Position, Tile)>, key: Seq<char>) -> bool {
    forall|x: Seq<char>, q: Position, other: Actor|
        x != key ==> (#[trigger] actor_at(new, x, q, other) <==> actor_at(old, x, q, other))
}

proof fn lemma_holds_push(t: Tile, na: Actor, t2: Tile)
    requires
        t2.actors@ == t.actors@.push(na),
    ensures
        forall|act: Actor| #[trigger] holds(t2, act) <==> holds(t, act) || act == na,
{
    assert forall|act: Actor| #[trigger] holds(t2, act) <==> holds(t, act) || act == na by {
        if holds(t, act) {
            let a = choose|a: int| 0 <= a < t.actors@.len() && #[trigger] t.actors@[a] == act;
            assert(t2.actors@[a] == act);
        }
        if act == na {
            assert(t2.actors@[t.actors@.len() as int] == act);
        }
        if holds(t2, act) {
            let a = choose|a: int| 0 <= a < t2.actors@.len() && #[trigger] t2.actors@[a] == act;
            if a < t.actors@.len() {
                assert(t.actors@[a] == act);
            }
        }
    }
}

proof fn lemma_holds_remove(t: Tile, k: int, t2: Tile)
    requires
        0 <= k < t.actors@.len(),
        t2.actors@ == t.actors@.remove(k),
    ensures
        forall|act: Actor| act.id@ != t.actors@[k].id@ ==> (#[trigger] holds(t2, act) <==> holds(t, act)),
{
    assert forall|act: Actor| act.id@ != t.actors@[k].id@ implies (#[trigger] holds(t2, act) <==> holds(t, act)) by {
        if holds(t2, act) {
            let a = choose|a: int| 0 <= a < t2.actors@.len() && #[trigger] t2.actors@[a] == act;
            if a < k {
                assert(t.actors@[a] == act);
            } else {
                assert(t.actors@[a + 1] == act);
            }
        }
        if holds(t, act) {
            let a = choose|a: int| 0 <= a < t.actors@.len() && #[trigger] t.actors@[a] == act;
            assert(a != k);
            if a < k {
                assert(t2.actors@[a] == act);
            } else {
                assert(t2.actors@[a - 1] == act);
            }
        }
    }
}

/// Replacing the tile at `t` by one that holds the same actors but those with id `key`, in
/// the same place, rotation and object, keeps the layout and every other actor.
proof fn lemma_others_update(tiles: Seq<(Position, Tile)>, t: int, tile: Tile, key: Seq<char>)
    requires
        0 <= t < tiles.len(),
        tile.rotation == tiles[t].1.rotation,
        tile.object == tiles[t].1.object,
        forall|act: Actor| act.id@ != key ==> (#[trigger] holds(tile, act) <==> holds(tiles[t].1, act)),
    ensures
        others_kept(tiles, tiles.update(t, (tiles[t].0, tile)), key),
        layout_kept(tiles, tiles.update(t, (tiles[t].0, tile))),
{
    let n = tiles.update(t, (tiles[t].0, tile));
    assert forall|x: Seq<char>, q: Position, other: Actor|
        x != key implies (#[trigger] actor_at(n, x, q, other) <==> actor_at(tiles, x, q, other)) by {
        if actor_at(n, x, q, other) {
            let (t2, a2) = choose|t2: int, a2: int|
                0 <= t2 < n.len() && 0 <= a2 < n[t2].1.actors@.len() && n[t2].0 == q && #[trigger] n[t2].1.actors@[a2]
                    == other && other.id@ == x;
            if t2 == t {
                assert(holds(tile, other));
                assert(holds(tiles[t].1, other));
                let a = choose|a: int| 0 <= a < tiles[t].1.actors@.len() && #[trigger] tiles[t].1.actors@[a] == other;
                assert(tiles[t].1.actors@[a] == other);
            } else {
                assert(tiles[t2].1.actors@[a2] == other);
            }
        }
        if actor_at(tiles, x, q, other) {
            let (t2, a2) = choose|t2: int, a2: int|
                0 <= t2 < tiles.len() && 0 <= a2 < tiles[t2].1.actors@.len() && tiles[t2].0 == q && #[trigger] tiles[t2].1.actors@[a2]
                    == other && other.id@ == x;
            if t2 == t {
                assert(holds(tiles[t].1, other));
                assert(holds(tile, other));
                let a = choose|a: int| 0 <= a < tile.actors@.len() && #[trigger] tile.actors@[a] == other;
                assert(n[t].1.actors@[a] == other);
            } else {
                assert(n[t2].1.actors@[a2] == other);
            }
        }
    }
}

/// Whether an actor that last changed tiles at `moved_at` is still cooling down at `now`.
pub open spec fn cooling(moved_at: u64, now: u64) -> bool {
    now < moved_at + COOLDOWN
}

proof fn lemma_has_push(t: Tile, a: Actor, t2: Tile)
    requires
        t2.actors@ == t.actors@.push(a),
    ensures
        forall|x: Seq<char>| #[trigger] has_actor(t2, x) <==> has_actor(t, x) || x == a.id@,
{
    assert forall|x: Seq<char>| #[trigger] has_actor(t2, x) <==> has_actor(t, x) || x == a.id@ by {
        if has_actor(t, x) {
            let k = choose|k: int| 0 <= k < t.actors@.len() && #[trigger] t.actors@[k].id@ == x;
            assert(t2.actors@[k].id@ == x);
        }
        if x == a.id@ {
            assert(t2.actors@[t.actors@.len() as int].id@ == x);
        }
        if has_actor(t2, x) {
            let k = choose|k: int| 0 <= k < t2.actors@.len() && #[trigger] t2.actors@[k].id@ == x;
            if k < t.actors@.len() {
                assert(t.actors@[k].id@ == x);
            }
        }
    }
}

proof fn lemma_has_remove(t: Tile, k: int, t2: Tile)
    requires
        distinct_actors(t),
        0 <= k < t.actors@.len(),
        t2.actors@ == t.actors@.remove(k),
    ensures
        forall|x: Seq<char>| #[trigger] has_actor(t2, x) <==> has_actor(t, x) && x != t.actors@[k].id@,
        distinct_actors(t2),
{
    assert forall|x: Seq<char>| #[trigger] has_actor(t2, x) <==> has_actor(t, x) && x != t.actors@[k].id@ by {
        if has_actor(t2, x) {
            let j = choose|j: int| 0 <= j < t2.actors@.len() && #[trigger] t2.actors@[j].id@ == x;
            if j < k {
                assert(t.actors@[j].id@ == x);
            } else {
                assert(t.actors@[j + 1].id@ == x);
            }
        }
        if has_actor(t, x) && x != t.actors@[k].id@ {
            let j = choose|j: int| 0 <= j < t.actors@.len() && #[trigger] t.actors@[j].id@ == x;
            if j < k {
                assert(t2.actors@[j].id@ == x);
            } else {
                assert(j != k);
                assert(t2.actors@[j - 1].id@ == x);
            }
        }
    }
}

proof fn lemma_has_same_ids(t: Tile, t2: Tile)
    requires
        t.actors@.len() == t2.actors@.len(),
        forall|a: int| 0 <= a < t.actors@.len() ==> t.actors@[a].id@ == t2.actors@[a].id@,
    ensures
        forall|x: Seq<char>| #[trigger] has_actor(t2, x) <==> has_actor(t, x),
        distinct_actors(t) ==> distinct_actors(t2),
{
    assert forall|x: Seq<char>| #[trigger] has_actor(t2, x) <==> has_actor(t, x) by {
        if has_actor(t2, x) {
            let j = choose|j: int| 0 <= j < t2.actors@.len() && #[trigger] t2.actors@[j].id@ == x;
            assert(t.actors@[j].id@ == x);
        }
        if has_actor(t, x) {
            let j = choose|j: int| 0 <= j < t.actors@.len() && #[trigger] t.actors@[j].id@ == x;
            assert(t2.actors@[j].id@ == x);
        }
    }
}

/// Replacing the tile at index `t` changes membership at its position only.
proof fn lemma_occupied_update(tiles: Seq<(Position, Tile)>, t: int, tile: Tile)
    requires
        distinct_positions(tiles),
        0 <= t < tiles.len(),
    ensures
        forall|x: Seq<char>, p: Position|
            #[trigger] occupied(tiles.update(t, (tiles[t].0, tile)), x, p) <==> if p == tiles[t].0 {
                has_actor(tile, x)
            } else {
                occupied(tiles, x, p)
            },
        distinct_positions(tiles.update(t, (tiles[t].0, tile))),
        forall|p: Position| #[trigger] tile_at(tiles.update(t, (tiles[t].0, tile)), p) <==> tile_at(tiles, p),
{
    let n = tiles.update(t, (tiles[t].0, tile));
    assert forall|x: Seq<char>, p: Position|
        #[trigger] occupied(n, x, p) <==> if p == tiles[t].0 {
            has_actor(tile, x)
        } else {
            occupied(tiles, x, p)
        } by {
        if occupied(n, x, p) {
            let j = choose|j: int| 0 <= j < n.len() && n[j].0 == p && #[trigger] has_actor(n[j].1, x);
            if j != t {
                assert(has_actor(tiles[j].1, x));
            }
        }
        if p == tiles[t].0 && has_actor(tile, x) {
            assert(has_actor(n[t].1, x));
        }
        if p != tiles[t].0 && occupied(tiles, x, p) {
            let j = choose|j: int| 0 <= j < tiles.len() && tiles[j].0 == p && #[trigger] has_actor(tiles[j].1, x);
            assert(has_actor(n[j].1, x));
        }
    }
    assert forall|p: Position| #[trigger] tile_at(n, p) <==> tile_at(tiles, p) by {
        if tile_at(tiles, p) {
            let j = choose|j: int| 0 <= j < tiles.len() && #[trigger] tiles[j].0 == p;
            assert(n[j].0 == p);
        }
        if tile_at(n, p) {
            let j = choose|j: int| 0 <= j < n.len() && #[trigger] n[j].0 == p;
            assert(tiles[j].0 == p);
        }
    }
}

proof fn lemma_registered_push<C>(streams: Seq<Stream<C>>, s: Stream<C>)
    ensures
        forall|x: Seq<char>, p: Position|
            #[trigger] registered(streams.push(s), x, p) <==> registered(streams, x, p) || (x == s.id@
                && p == s.position),
        forall|x: Seq<char>| #[trigger] online(streams.push(s), x) <==> online(streams, x) || x == s.id@,
{
    let n = streams.push(s);
    assert forall|x: Seq<char>, p: Position|
        #[trigger] registered(n, x, p) <==> registered(streams, x, p) || (x == s.id@ && p == s.position) by {
        if registered(streams, x, p) {
            let j = choose|j: int| 0 <= j < streams.len() && #[trigger] streams[j].id@ == x && streams[j].position == p;
            assert(n[j].id@ == x);
        }
        if x == s.id@ && p == s.position {
            assert(n[streams.len() as int].id@ == x);
        }
        if registered(n, x, p) {
            let j = choose|j: int| 0 <= j < n.len() && #[trigger] n[j].id@ == x && n[j].position == p;
            if j < streams.len() {
                assert(streams[j].id@ == x);
            }
        }
    }
    assert forall|x: Seq<char>| #[trigger] online(n, x) <==> online(streams, x) || x == s.id@ by {
        if online(streams, x) {
            let j = choose|j: int| 0 <= j < streams.len() && #[trigger] streams[j].id@ == x;
            assert(n[j].id@ == x);
        }
        if x == s.id@ {
            assert(n[streams.len() as int].id@ == x);
        }
        if online(n, x) {
            let j = choose|j: int| 0 <= j < n.len() && #[trigger] n[j].id@ == x;
            if j < streams.len() {
                assert(streams[j].id@ == x);
            }
        }
    }
}

proof fn lemma_registered_remove<C>(streams: Seq<Stream<C>>, i: int)
    requires
        distinct_ids(streams),
        0 <= i < streams.len(),
    ensures
        forall|x: Seq<char>, p: Position|
            #[trigger] registered(streams.remove(i), x, p) <==> registered(streams, x, p) && x
                != streams[i].id@,
        forall|x: Seq<char>| #[trigger] online(streams.remove(i), x) <==> online(streams, x) && x
            != streams[i].id@,
        distinct_ids(streams.remove(i)),
{
    let n = streams.remove(i);
    assert forall|x: Seq<char>, p: Position|
        #[trigger] registered(n, x, p) <==> registered(streams, x, p) && x != streams[i].id@ by {
        if registered(n, x, p) {
            let j = choose|j: int| 0 <= j < n.len() && #[trigger] n[j].id@ == x && n[j].position == p;
            if j < i {
                assert(streams[j].id@ == x);
            } else {
                assert(streams[j + 1].id@ == x);
            }
        }
        if registered(streams, x, p) && x != streams[i].id@ {
            let j = choose|j: int| 0 <= j < streams.len() && #[trigger] streams[j].id@ == x && streams[j].position == p;
            if j < i {
                assert(n[j].id@ == x);
            } else {
                assert(n[j - 1].id@ == x);
            }
        }
    }
    assert forall|x: Seq<char>| #[trigger] online(n, x) <==> online(streams, x) && x != streams[i].id@ by {
        if online(n, x) {
            let j = choose|j: int| 0 <= j < n.len() && #[trigger] n[j].id@ == x;
            if j < i {
                assert(streams[j].id@ == x);
            } else {
                assert(streams[j + 1].id@ == x);
            }
        }
        if online(streams, x) && x != streams[i].id@ {
            let j = choose|j: int| 0 <= j < streams.len() && #[trigger] streams[j].id@ == x;
            if j < i {
                assert(n[j].id@ == x);
            } else {
                assert(n[j - 1].id@ == x);
            }
        }
    }
}

proof fn lemma_registered_relocate<C>(streams: Seq<Stream<C>>, i: int, s: Stream<C>)
    requires
        distinct_ids(streams),
        0 <= i < streams.len(),
        s.id@ == streams[i].id@,
    ensures
        forall|x: Seq<char>, p: Position|
            #[trigger] registered(streams.update(i, s), x, p) <==> if x == s.id@ {
                p == s.position
            } else {
                registered(streams, x, p)
            },
        forall|x: Seq<char>| #[trigger] online(streams.update(i, s), x) <==> online(streams, x),
        distinct_ids(streams.update(i, s)),
{
    let n = streams.update(i, s);
    assert forall|x: Seq<char>, p: Position|
        #[trigger] registered(n, x, p) <==> if x == s.id@ {
            p == s.position
        } else {
            registered(streams, x, p)
        } by {
        if registered(n, x, p) {
            let j = choose|j: int| 0 <= j < n.len() && #[trigger] n[j].id@ == x && n[j].position == p;
            if j != i {
                assert(streams[j].id@ == x);
            }
        }
        if x == s.id@ && p == s.position {
            assert(n[i].id@ == x);
        }
        if x != s.id@ && registered(streams, x, p) {
            let j = choose|j: int| 0 <= j < streams.len() && #[trigger] streams[j].id@ == x && streams[j].position == p;
            assert(n[j].id@ == x);
        }
    }
    assert forall|x: Seq<char>| #[trigger] online(n, x) <==> online(streams, x) by {
        if online(n, x) {
            let j = choose|j: int| 0 <= j < n.len() && #[trigger] n[j].id@ == x;
            assert(streams[j].id@ == x);
        }
        if online(streams, x) {
            let j = choose|j: int| 0 <= j < streams.len() && #[trigger] streams[j].id@ == x;
            assert(n[j].id@ == x);
        }
    }
}


/// Under the invariant, the actor at `(t, a)` is the one actor with its id.
proof fn lemma_actor_of<C>(tiles: Seq<(Position, Tile)>, streams: Seq<Stream<C>>, t: int, a: int)
    requires
        tiles_wf(tiles),
        distinct_ids(streams),
        consistent(tiles, streams),
        0 <= t < tiles.len(),
        0 <= a < tiles[t].1.actors@.len(),
    ensures
        actor_at(tiles, tiles[t].1.actors@[a].id@, tiles[t].0, tiles[t].1.actors@[a]),
        forall|p: Position, act: Actor| #[trigger] actor_at(tiles, tiles[t].1.actors@[a].id@, p, act)
            ==> p == tiles[t].0 && act == tiles[t].1.actors@[a],
        registered(streams, tiles[t].1.actors@[a].id@, tiles[t].0),
{
    let id = tiles[t].1.actors@[a].id@;
    assert(has_actor(tiles[t].1, id));
    assert(occupied(tiles, id, tiles[t].0));
    let j = choose|j: int| 0 <= j < streams.len() && #[trigger] streams[j].id@ == id && streams[j].position == tiles[t].0;
    assert(tiles[t].1.actors@[a] == tiles[t].1.actors@[a]);
    assert forall|p: Position, act: Actor| #[trigger] actor_at(tiles, id, p, act) implies p == tiles[t].0
        && act == tiles[t].1.actors@[a] by {
        let (t2, a2) = choose|t2: int, a2: int|
            0 <= t2 < tiles.len() && 0 <= a2 < tiles[t2].1.actors@.len() && tiles[t2].0 == p && #[trigger] tiles[t2].1.actors@[a2]
                == act && act.id@ == id;
        assert(tiles[t2].1.actors@[a2].id@ == id);
        assert(has_actor(tiles[t2].1, id));
        assert(occupied(tiles, id, tiles[t2].0));
        let j2 = choose|j2: int| 0 <= j2 < streams.len() && #[trigger] streams[j2].id@ == id && streams[j2].position == tiles[t2].0;
        assert(j == j2);
        assert(t == t2);
        assert(distinct_actors(tiles[t].1));
        if a < a2 {
            assert(tiles[t].1.actors@[a].id@ != tiles[t].1.actors@[a2].id@);
        } else if a2 < a {
            assert(tiles[t].1.actors@[a2].id@ != tiles[t].1.actors@[a].id@);
        }
    }
}

/// Changing the actor at `(t, a)` to one with the same id changes nothing that the ids
/// decide, and no other actor.
proof fn lemma_actor_replace(tiles: Seq<(Position, Tile)>, n: Seq<(Position, Tile)>, t: int, a: int, na: Actor)
    requires
        tiles_wf(tiles),
        0 <= t < tiles.len(),
        0 <= a < tiles[t].1.actors@.len(),
        na.id@ == tiles[t].1.actors@[a].id@,
        n.len() == tiles.len(),
        forall|k: int| 0 <= k < n.len() && k != t ==> n[k] == tiles[k],
        n[t].0 == tiles[t].0,
        n[t].1.actors@ == tiles[t].1.actors@.update(a, na),
        n[t].1.rotation == tiles[t].1.rotation,
        n[t].1.object == tiles[t].1.object,
    ensures
        tiles_wf(n),
        layout_kept(tiles, n),
        forall|x: Seq<char>, p: Position| #[trigger] occupied(n, x, p) <==> occupied(tiles, x, p),
        forall|p: Position| #[trigger] tile_at(n, p) <==> tile_at(tiles, p),
        actor_at(n, na.id@, tiles[t].0, na),
        forall|x: Seq<char>, p: Position, act: Actor|
            x != na.id@ ==> (#[trigger] actor_at(n, x, p, act) <==> actor_at(tiles, x, p, act)),
{
    lemma_has_same_ids(tiles[t].1, n[t].1);
    assert(distinct_actors(tiles[t].1));
    lemma_occupied_update(tiles, t, n[t].1);
    assert(n =~= tiles.update(t, (tiles[t].0, n[t].1)));
    assert forall|k: int| 0 <= k < n.len() implies #[trigger] distinct_actors(n[k].1) by {
        if k != t {
            assert(distinct_actors(tiles[k].1));
        }
    }
    assert forall|x: Seq<char>, p: Position| #[trigger] occupied(n, x, p) <==> occupied(tiles, x, p) by {
        if p == tiles[t].0 && occupied(tiles, x, p) {
            let k = choose|k: int| 0 <= k < tiles.len() && tiles[k].0 == p && #[trigger] has_actor(tiles[k].1, x);
            assert(k == t);
        }
    }
    assert(n[t].1.actors@[a] == na);
    assert forall|x: Seq<char>, p: Position, act: Actor|
        x != na.id@ implies (#[trigger] actor_at(n, x, p, act) <==> actor_at(tiles, x, p, act)) by {
        if actor_at(n, x, p, act) {
            let (t2, a2) = choose|t2: int, a2: int|
                0 <= t2 < n.len() && 0 <= a2 < n[t2].1.actors@.len() && n[t2].0 == p && #[trigger] n[t2].1.actors@[a2]
                    == act && act.id@ == x;
            assert(tiles[t2].1.actors@[a2] == act);
        }
        if actor_at(tiles, x, p, act) {
            let (t2, a2) = choose|t2: int, a2: int|
                0 <= t2 < tiles.len() && 0 <= a2 < tiles[t2].1.actors@.len() && tiles[t2].0 == p && #[trigger] tiles[t2].1.actors@[a2]
                    == act && act.id@ == x;
            assert(n[t2].1.actors@[a2] == act);
        }
    }
}

/// An actor that the registry does not hold stands on no tile.
proof fn lemma_offline<C>(tiles: Seq<(Position, Tile)>, streams: Seq<Stream<C>>, id: Seq<char>)
    requires
        consistent(tiles, streams),
        !online(streams, id),
    ensures
        forall|p: Position, act: Actor| !#[trigger] actor_at(tiles, id, p, act),
{
    assert forall|p: Position, act: Actor| !#[trigger] actor_at(tiles, id, p, act) by {
        if actor_at(tiles, id, p, act) {
            let (t, a) = choose|t: int, a: int|
                0 <= t < tiles.len() && 0 <= a < tiles[t].1.actors@.len() && tiles[t].0 == p && #[trigger] tiles[t].1.actors@[a]
                    == act && act.id@ == id;
            assert(tiles[t].1.actors@[a].id@ == id);
            assert(has_actor(tiles[t].1, id));
            assert(occupied(tiles, id, p));
            assert(registered(streams, id, p));
            let i = choose|i: int| 0 <= i < streams.len() && #[trigger] streams[i].id@ == id && streams[i].position == p;
            assert(streams[i].id@ == id);
        }
    }
}

/// Where the registry places an actor, a tile holds it.
proof fn lemma_registered_occupied<C>(tiles: Seq<(Position, Tile)>, streams: Seq<Stream<C>>, i: int)
    requires
        consistent(tiles, streams),
        0 <= i < streams.len(),
    ensures
        occupied(tiles, streams[i].id@, streams[i].position),
        tile_at(tiles, streams[i].position),
{
    assert(registered(streams, streams[i].id@, streams[i].position));
    let t = choose|t: int| 0 <= t < tiles.len() && tiles[t].0 == streams[i].position && #[trigger] has_actor(tiles[t].1, streams[i].id@);
    assert(tiles[t].0 == streams[i].position);
}

/// Registry entries with one id sit at one position.
proof fn lemma_registered_unique<C>(streams: Seq<Stream<C>>, i: int, id: Seq<char>, p: Position)
    requires
        distinct_ids(streams),
        0 <= i < streams.len(),
        streams[i].id@ == id,
    ensures
        registered(streams, id, p) <==> p == streams[i].position,
        online(streams, id),
{
    if registered(streams, id, p) {
        let j = choose|j: int| 0 <= j < streams.len() && #[trigger] streams[j].id@ == id && streams[j].position == p;
        assert(i == j);
    }
    assert(streams[i].id@ == id);
}

/// The (id, position) pairs of a roster message.
pub open spec fn roster_of(actors: Seq<(String, Position)>) -> Seq<(Seq<char>, Position)> {
    actors.map_values(|a: (String, Position)| (a.0@, a.1))
}

/// `m` is the last of the first `n` entries of a map definition at position `p`.
pub open spec fn last_entry(entries: Seq<(Position, Placable)>, n: int, p: Position, m: int) -> bool {
    &&& 0 <= m < n <= entries.len()
    &&& entries[m].0 == p
    &&& forall|j: int| m < j < n ==> entries[j].0 != p
}

/// A tile as the first `n` entries of a map definition make it: the rotation of the last
/// entry at its position, no object and nobody on it.
pub open spec fn built_from(entries: Seq<(Position, Placable)>, n: int, tile: (Position, Tile)) -> bool {
    &&& tile.1.object is None
    &&& tile.1.actors@.len() == 0
    &&& exists|m: int| #[trigger] last_entry(entries, n, tile.0, m) && entries[m].1.rotation == tile.1.rotation
}

/// One map's state: its tiles, who is connected and where, and its pending jobs.
pub struct Worker<C> {
    id: String,
    name: String,
    map: Vec<(Position, Tile)>,
    streams: Vec<Stream<C>>,
    schedule_queue: ScheduleQueue<Job<C>>,
}

impl<C> Worker<C> {
    pub closed spec fn map_id(&self) -> Seq<char> {
        self.id@
    }

    pub closed spec fn map_name(&self) -> Seq<char> {
        self.name@
    }

    pub closed spec fn tiles(&self) -> Seq<(Position, Tile)> {
        self.map@
    }

    pub closed spec fn streams(&self) -> Seq<Stream<C>> {
        self.streams@
    }

    pub closed spec fn jobs(&self) -> Seq<Schedule<Job<C>>> {
        self.schedule_queue@
    }

    pub closed spec fn wf(&self) -> bool {
        &&& tiles_wf(self.map@)
        &&& distinct_ids(self.streams@)
        &&& consistent(self.map@, self.streams@)
        &&& self.schedule_queue.wf()
    }

    /// The map's tiles, built from its definition; nobody is on it yet.
    pub fn from_map(map: MapData) -> (r: Worker<C>)
        ensures
            r.wf(),
            r.map_id() == map.id@,
            r.map_name() == map.name@,
            forall|p: Position| #[trigger] tile_at(r.tiles(), p) <==> exists|k: int|
                0 <= k < map.tiles@.len() && #[trigger] map.tiles@[k].0 == p,
            forall|t: int| 0 <= t < r.tiles().len() ==> #[trigger] built_from(map.tiles@, map.tiles@.len() as int, r.tiles()[t]),
            r.streams().len() == 0,
            r.jobs().len() == 0,
    {
        let mut tiles: Vec<(Position, Tile)> = Vec::new();
        let mut k: usize = 0;
        while k < map.tiles.len()
            invariant
                k <= map.tiles@.len(),
                distinct_positions(tiles@),
                forall|t: int| 0 <= t < tiles@.len() ==> (#[trigger] tiles@[t]).1.actors@.len() == 0,
                forall|t: int| 0 <= t < tiles@.len() ==> #[trigger] built_from(map.tiles@, k as int, tiles@[t]),
                forall|p: Position| #[trigger] tile_at(tiles@, p) <==> exists|j: int|
                    0 <= j < k && #[trigger] map.tiles@[j].0 == p,
            decreases map.tiles@.len() - k,
        {
            let (p, placable) = map.tiles[k];
            let ghost before = tiles@;
            let found = find_position(&tiles, p);
            match found {
                Some(t) => {
                    tiles.set(t, (p, Tile::from_placable(placable)));
                    proof {
                        lemma_occupied_update(before, t as int, tiles@[t as int].1);
                        assert(tiles@ =~= before.update(t as int, (before[t as int].0, tiles@[t as int].1)));
                    }
                },
                None => {
                    tiles.push((p, Tile::from_placable(placable)));
                    assert forall|spot: Position| #[trigger] tile_at(tiles@, spot) <==> tile_at(before, spot) || spot == p by {
                        if tile_at(tiles@, spot) {
                            let j = choose|j: int| 0 <= j < tiles@.len() && #[trigger] tiles@[j].0 == spot;
                            if j < before.len() {
                                assert(before[j].0 == spot);
                            }
                        }
                        if tile_at(before, spot) {
                            let j = choose|j: int| 0 <= j < before.len() && #[trigger] before[j].0 == spot;
                            assert(tiles@[j].0 == spot);
                        }
                        if spot == p {
                            assert(tiles@[before.len() as int].0 == spot);
                        }
                    }
                },
            }
            k = k + 1;
            assert forall|t: int| 0 <= t < tiles@.len() implies #[trigger] built_from(map.tiles@, k as int, tiles@[t]) by {
                if tiles@[t].0 == p {
                    assert(last_entry(map.tiles@, k as int, p, k - 1));
                } else {
                    assert(t < before.len() && tiles@[t] == before[t]);
                    assert(built_from(map.tiles@, k - 1, before[t]));
                    let m = choose|m: int| #[trigger] last_entry(map.tiles@, k - 1, before[t].0, m)
                        && map.tiles@[m].1.rotation == before[t].1.rotation;
                    assert(last_entry(map.tiles@, k as int, before[t].0, m));
                }
            }
            assert forall|spot: Position| #[trigger] tile_at(tiles@, spot) <==> exists|j: int|
                0 <= j < k && #[trigger] map.tiles@[j].0 == spot by {
                if spot == p {
                    assert(map.tiles@[k - 1].0 == spot);
                }
                if exists|j: int| 0 <= j < k && #[trigger] map.tiles@[j].0 == spot {
                    let j = choose|j: int| 0 <= j < k && #[trigger] map.tiles@[j].0 == spot;
                    if j < k - 1 {
                        assert(exists|j2: int| 0 <= j2 < k - 1 && #[trigger] map.tiles@[j2].0 == spot);
                    }
                }
            }
        }
        let w = Worker {
            id: map.id,
            name: map.name,
            map: tiles,
            streams: Vec::new(),
            schedule_queue: ScheduleQueue::new(),
        };
        assert forall|id: Seq<char>, p: Position| !occupied(w.map@, id, p) by {
            if occupied(w.map@, id, p) {
                let t = choose|t: int| 0 <= t < w.map@.len() && w.map@[t].0 == p && #[trigger] has_actor(w.map@[t].1, id);
                assert(w.map@[t].1.actors@.len() == 0);
            }
        }
        w
    }

    /// The map's id.
    pub fn get_id(&self) -> (r: &str)
        ensures
            r@ == self.map_id(),
    {
        self.id.as_str()
    }

    /// The map's name.
    pub fn get_name(&self) -> (r: &str)
        ensures
            r@ == self.map_name(),
    {
        self.name.as_str()
    }
}

impl<C> Worker<C> {
    /// Registry index, tile index and index within the tile of actor `key`.
    fn locate(&self, key: &String) -> (r: Option<(usize, usize, usize)>)
        requires
            self.wf(),
        ensures
            r is None <==> !online(self.streams(), key@),
            r matches Some((i, t, a)) ==> {
                &&& i < self.streams().len()
                &&& t < self.tiles().len()
                &&& a < self.tiles()[t as int].1.actors@.len()
                &&& self.streams()[i as int].id@ == key@
                &&& self.tiles()[t as int].0 == self.streams()[i as int].position
                &&& self.tiles()[t as int].1.actors@[a as int].id@ == key@
                &&& actor_at(self.tiles(), key@, self.tiles()[t as int].0, self.tiles()[t as int].1.actors@[a as int])
                &&& forall|p: Position, act: Actor| #[trigger] actor_at(self.tiles(), key@, p, act)
                    ==> p == self.tiles()[t as int].0 && act == self.tiles()[t as int].1.actors@[a as int]
            },
    {
        let i = match find_stream(&self.streams, key) {
            Some(i) => i,
            None => return None,
        };
        let position = self.streams[i].position;
        proof {
            lemma_registered_occupied(self.map@, self.streams@, i as int);
        }
        let t = match find_position(&self.map, position) {
            Some(t) => t,
            None => return None,
        };
        proof {
            let t2 = choose|t2: int| 0 <= t2 < self.map@.len() && self.map@[t2].0 == position && #[trigger] has_actor(self.map@[t2].1, key@);
            assert(t2 == t);
        }
        let a = match find_actor(&self.map[t].1, key) {
            Some(a) => a,
            None => return None,
        };
        proof {
            lemma_actor_of(self.map@, self.streams@, t as int, a as int);
        }
        Some((i, t, a))
    }

    /// Places a handed-off connection's actor on the tile at `position` and queues a
    /// greeting that tells it the map's id and who is where.
    pub fn accept(&mut self, conn: C, id: String, position: Position, now: u64) -> (r: Result<(), Failure>)
        requires
            old(self).wf(),
        ensures
            final(self).wf(),
            accepted(*old(self), *final(self), conn, id, position, now, failure_of(r)),
    {
        let t = match find_position(&self.map, position) {
            Some(t) => t,
            None => return Err(Failure::WrongPosition),
        };
        if find_stream(&self.streams, &id).is_some() {
            return Err(Failure::AlreadyRegistered);
        }
        let ghost old_tiles = self.map@;
        let ghost old_streams = self.streams@;
        proof {
            if occupied(old_tiles, id@, position) {
                assert(registered(old_streams, id@, position));
                let j = choose|j: int| 0 <= j < old_streams.len() && #[trigger] old_streams[j].id@ == id@ && old_streams[j].position == position;
                assert(online(old_streams, id@));
            }
            assert(!has_actor(old_tiles[t as int].1, id@));
        }
        self.map[t].1.actors.push(Actor::new(id.clone(), now));
        let ghost new_tile = self.map@[t as int].1;
        proof {
            assert(new_tile.actors@ == old_tiles[t as int].1.actors@.push(Actor::new_spec(id, now)));
            assert(distinct_actors(old_tiles[t as int].1));
            lemma_has_push(old_tiles[t as int].1, Actor::new_spec(id, now), new_tile);
            lemma_holds_push(old_tiles[t as int].1, Actor::new_spec(id, now), new_tile);
            lemma_others_update(old_tiles, t as int, new_tile, id@);
            lemma_occupied_update(old_tiles, t as int, new_tile);
            assert(self.map@ =~= old_tiles.update(t as int, (old_tiles[t as int].0, new_tile)));
            assert forall|a: int, b: int| 0 <= a < b < new_tile.actors@.len() implies new_tile.actors@[a].id@ != new_tile.actors@[b].id@ by {
                if b == new_tile.actors@.len() - 1 {
                    assert(old_tiles[t as int].1.actors@[a].id@ == new_tile.actors@[a].id@);
                    assert(has_actor(old_tiles[t as int].1, new_tile.actors@[a].id@));
                } else {
                    assert(old_tiles[t as int].1.actors@[a].id@ != old_tiles[t as int].1.actors@[b].id@);
                }
            }
            assert(distinct_actors(new_tile));
            assert forall|k: int| 0 <= k < self.map@.len() implies #[trigger] distinct_actors(self.map@[k].1) by {
                if k != t {
                    assert(distinct_actors(old_tiles[k].1));
                }
            }
        }
        let stream = Stream { id: id.clone(), conn, position };
        self.streams.push(stream);
        proof {
            lemma_registered_push(old_streams, stream);
            assert(consistent(self.map@, self.streams@));
            assert forall|i: int, j: int| 0 <= i < j < self.streams@.len() implies self.streams@[i].id@ != self.streams@[j].id@ by {
                if j == old_streams.len() {
                    assert(old_streams[i].id@ == self.streams@[i].id@);
                }
            }
            lemma_actor_of(self.map@, self.streams@, t as int, new_tile.actors@.len() - 1);
        }
        let ghost registry = self.streams@;
        let mut actors: Vec<(String, Position)> = Vec::new();
        let mut k: usize = 0;
        while k < self.streams.len()
            invariant
                self.streams@ == registry,
                k <= self.streams@.len(),
                actors@.len() == k,
                roster_of(actors@) == roster(self.streams@).subrange(0, k as int),
            decreases self.streams@.len() - k,
        {
            let entry = (self.streams[k].id.clone(), self.streams[k].position);
            actors.push(entry);
            k = k + 1;
            assert(roster_of(actors@) =~= roster(self.streams@).subrange(0, k as int));
        }
        assert(roster(self.streams@).subrange(0, k as int) =~= roster(self.streams@));
        let packet = Outgoing::Hello { id: id.clone(), map_id: self.id.clone(), actors };
        let entry = Schedule::instant(Job::Write(id, packet), now);
        self.schedule_queue.push(entry);
        assert(inserted(old(self).jobs(), self.jobs(), entry));
        Ok(())
    }

    /// Queues what a read from actor `key`'s socket gave: a packet to handle, or the drop
    /// of a connection that failed; a read that would block changes nothing.
    pub fn on_read(&mut self, key: &String, result: Result<Incoming, ReadError>, now: u64)
        requires
            old(self).wf(),
        ensures
            final(self).wf(),
            final(self).map_id() == old(self).map_id(),
            result matches Err(ReadError::WouldBlock) ==> *final(self) == *old(self),
            result matches Ok(p) ==> queued(*old(self), *final(self), Schedule { job: Job::Incoming(*key, p), due: now }),
            result matches Err(e) ==> (e is WouldBlock || queued(
                *old(self),
                *final(self),
                Schedule { job: Job::Drop(*key, DropReason::Read(e)), due: now },
            )),
    {
        match result {
            Ok(packet) => {
                self.schedule_queue.push(Schedule::instant(Job::Incoming(key.clone(), packet), now));
            },
            Err(ReadError::WouldBlock) => {},
            Err(e) => {
                self.schedule_queue.push(Schedule::instant(Job::Drop(key.clone(), DropReason::Read(e)), now));
            },
        }
    }

    /// Queues the drop of actor `key`, whose socket failed on a write.
    pub fn on_write_error(&mut self, key: &String, reason: String, now: u64)
        requires
            old(self).wf(),
        ensures
            final(self).wf(),
            queued(*old(self), *final(self), Schedule { job: Job::Drop(*key, DropReason::Write(reason)), due: now }),
    {
        self.schedule_queue.push(Schedule::instant(Job::Drop(key.clone(), DropReason::Write(reason)), now));
    }

    /// Handles a packet from actor `key`. A move packet turns the actor; from standing
    /// still and out of its cooldown it also starts a movement step now.
    pub fn handle_packet(&mut self, key: &String, packet: Incoming, now: u64) -> (r: Result<(), Failure>)
        requires
            old(self).wf(),
        ensures
            final(self).wf(),
            handled(*old(self), *final(self), *key, packet, now, failure_of(r)),
    {
        let direction = match packet {
            Incoming::Move { direction } => direction,
            Incoming::Hello { .. } => return Ok(()),
        };
        let (i, t, a) = match self.locate(key) {
            Some(found) => found,
            None => {
                proof {
                    lemma_offline(self.map@, self.streams@, key@);
                }
                return Err(Failure::NoStream);
            },
        };
        let movable = self.map[t].1.actors[a].movable;
        if movable.direction == direction {
            return Ok(());
        }
        let ghost old_tiles = self.map@;
        let ghost turned_actor = Actor { id: old_tiles[t as int].1.actors@[a as int].id, movable: Movable { direction, moved_at: movable.moved_at } };
        let last_direction = movable.direction;
        self.map[t].1.actors[a].movable.direction = direction;
        proof {
            assert(self.map@[t as int].1.actors@ == old_tiles[t as int].1.actors@.update(a as int, turned_actor));
            lemma_actor_replace(old_tiles, self.map@, t as int, a as int, turned_actor);
            assert(consistent(self.map@, self.streams@));
        }
        let is_cool = now < movable.moved_at || now - movable.moved_at < COOLDOWN;
        if is_cool || direction == Direction::Idle || last_direction != Direction::Idle {
            return Ok(());
        }
        self.schedule_queue.push(Schedule::instant(Job::Move(key.clone(), COOLDOWN), now));
        Ok(())
    }

    /// One step of actor `key`'s movement, as a `Move` job makes it.
    pub fn move_actor(&mut self, key: &String, duration: u64, now: u64) -> (r: Result<(), Failure>)
        requires
            old(self).wf(),
        ensures
            final(self).wf(),
            moved(*old(self), *final(self), *key, duration, now, failure_of(r)),
    {
        let (i, t, a) = match self.locate(key) {
            Some(found) => found,
            None => {
                proof {
                    lemma_offline(self.map@, self.streams@, key@);
                }
                return Err(Failure::NoStream);
            },
        };
        let position = self.streams[i].position;
        let direction = self.map[t].1.actors[a].movable.direction;
        let stop = Schedule::instant(Job::Broadcast(Outgoing::Stop { id: key.clone(), position }), now);
        if direction == Direction::Idle {
            self.schedule_queue.push(stop);
            return Ok(());
        }
        let next = match next_position(position, direction) {
            Some(q) => q,
            None => {
                proof {
                    assert forall|q: Position| coords(q) == step(position, direction) implies !#[trigger] tile_at(self.map@, q) by {}
                }
                self.schedule_queue.push(stop);
                return Ok(());
            },
        };
        let t2 = match find_position(&self.map, next) {
            Some(t2) => t2,
            None => {
                proof {
                    assert forall|q: Position| coords(q) == step(position, direction) implies !#[trigger] tile_at(self.map@, q) by {
                        assert(q == next);
                    }
                }
                self.schedule_queue.push(stop);
                return Ok(());
            },
        };
        let ghost old_tiles = self.map@;
        let ghost old_streams = self.streams@;
        let ghost old_jobs = self.schedule_queue@;
        assert(t != t2);
        let mut actor = self.map[t].1.actors.remove(a);
        actor.movable.moved_at = now;
        let ghost mid_tiles = self.map@;
        proof {
            lemma_has_remove(old_tiles[t as int].1, a as int, mid_tiles[t as int].1);
            lemma_holds_remove(old_tiles[t as int].1, a as int, mid_tiles[t as int].1);
            lemma_others_update(old_tiles, t as int, mid_tiles[t as int].1, key@);
            lemma_occupied_update(old_tiles, t as int, mid_tiles[t as int].1);
            assert(mid_tiles =~= old_tiles.update(t as int, (old_tiles[t as int].0, mid_tiles[t as int].1)));
            if has_actor(old_tiles[t2 as int].1, key@) {
                assert(occupied(old_tiles, key@, next));
                assert(registered(old_streams, key@, next));
                lemma_registered_unique(old_streams, i as int, key@, next);
            }
            assert(distinct_actors(old_tiles[t2 as int].1));
        }
        self.map[t2].1.actors.push(actor);
        let ghost new_tiles = self.map@;
        proof {
            lemma_has_push(mid_tiles[t2 as int].1, actor, new_tiles[t2 as int].1);
            lemma_holds_push(mid_tiles[t2 as int].1, actor, new_tiles[t2 as int].1);
            lemma_others_update(mid_tiles, t2 as int, new_tiles[t2 as int].1, key@);
            assert(layout_kept(old_tiles, new_tiles));
            assert(others_kept(old_tiles, new_tiles, key@));
            lemma_occupied_update(mid_tiles, t2 as int, new_tiles[t2 as int].1);
            assert(new_tiles =~= mid_tiles.update(t2 as int, (mid_tiles[t2 as int].0, new_tiles[t2 as int].1)));
            assert(distinct_actors(new_tiles[t2 as int].1)) by {
                assert forall|x: int, y: int| 0 <= x < y < new_tiles[t2 as int].1.actors@.len() implies
                    new_tiles[t2 as int].1.actors@[x].id@ != new_tiles[t2 as int].1.actors@[y].id@ by {
                    if y == new_tiles[t2 as int].1.actors@.len() - 1 {
                        assert(has_actor(old_tiles[t2 as int].1, new_tiles[t2 as int].1.actors@[x].id@));
                    } else {
                        assert(old_tiles[t2 as int].1.actors@[x].id@ != old_tiles[t2 as int].1.actors@[y].id@);
                    }
                }
            }
            assert forall|k: int| 0 <= k < new_tiles.len() implies #[trigger] distinct_actors(new_tiles[k].1) by {
                if k != t2 && k != t {
                    assert(distinct_actors(old_tiles[k].1));
                }
            }
        }
        self.streams[i].position = next;
        proof {
            let s = self.streams@[i as int];
            assert(self.streams@ == old_streams.update(i as int, s));
            lemma_registered_relocate(old_streams, i as int, s);
            assert forall|x: Seq<char>, r: Position|
                #![trigger occupied(new_tiles, x, r)]
                #![trigger registered(self.streams@, x, r)]
                occupied(new_tiles, x, r) <==> registered(self.streams@, x, r) by {
                if x == key@ && r != next && r != position && occupied(old_tiles, x, r) {
                    assert(registered(old_streams, x, r));
                    lemma_registered_unique(old_streams, i as int, x, r);
                }
                if x != key@ && r == position {
                    assert(occupied(old_tiles, x, r) == registered(old_streams, x, r));
                }
                if x != key@ && r == next {
                    assert(occupied(old_tiles, x, r) == registered(old_streams, x, r));
                }
            }
            lemma_actor_of(new_tiles, self.streams@, t2 as int, new_tiles[t2 as int].1.actors@.len() - 1);
        }
        let broadcast = Schedule::instant(Job::Broadcast(Outgoing::Move { id: key.clone(), position: next, duration }), now);
        self.schedule_queue.push(broadcast);
        let ghost mid_jobs = self.schedule_queue@;
        let due = if duration > u64::MAX - now { u64::MAX } else { now + duration };
        self.schedule_queue.push(Schedule::new(Job::Move(key.clone(), duration), due));
        proof {
            assert(inserted(old_jobs, mid_jobs, broadcast));
            assert forall|q: Position| #![trigger coords(q)] coords(q) == step(position, direction) implies q == next by {}
            assert(tile_at(old_tiles, next));
            assert(can_step(old_tiles, position, direction));
            let act = old_tiles[t as int].1.actors@[a as int];
            let moved = Actor { id: act.id, movable: Movable { direction, moved_at: now } };
            assert(actor == moved);
            assert(actor_at(new_tiles, key@, next, moved));
            assert(due == deadline(now, duration));
            assert(inserted(mid_jobs, self.schedule_queue@, Schedule { job: Job::Move(*key, duration), due: deadline(now, duration) }));
            assert(broadcast == Schedule { job: Job::<C>::Broadcast(Outgoing::Move { id: *key, position: next, duration }), due: now });
            assert(forall|r: Position| #[trigger] tile_at(new_tiles, r) <==> tile_at(old_tiles, r));
            assert(old(self).jobs() == old_jobs);
            assert(exists|m: Seq<Schedule<Job<C>>>|
                inserted(old_jobs, m, Schedule { job: Job::Broadcast(Outgoing::Move { id: *key, position: next, duration }), due: now })
                    && inserted(m, self.jobs(), Schedule { job: Job::Move(*key, duration), due: deadline(now, duration) })) by {
                assert(inserted(old_jobs, mid_jobs, broadcast));
            }
            assert(forall|x: Seq<char>, r: Position| #[trigger] registered(self.streams(), x, r) <==> if x == key@ {
                r == next
            } else {
                registered(old_streams, x, r)
            });
            assert(forall|x: Seq<char>| #[trigger] online(self.streams(), x) <==> online(old_streams, x));
            assert(self.map_id() == old(self).map_id());
            assert(stepped(*old(self), *self, *key, position, act, duration, now));
        }
        Ok(())
    }

    /// The framed bytes of `packet` for actor `key`'s socket; nothing where `key` is not
    /// registered.
    pub fn write(&self, key: &String, packet: Outgoing) -> (r: Result<Action<C>, Failure>)
        ensures
            written(*self, key@, packet, r),
    {
        if find_stream(&self.streams, key).is_none() {
            return Ok(Action::Nothing);
        }
        match get_packet_buf(packet) {
            Ok(buf) => Ok(Action::Write(key.clone(), buf)),
            Err(e) => Err(Failure::Encode(e)),
        }
    }

    /// The framed bytes of `packet`, encoded once for every registered socket.
    pub fn broadcast(&self, packet: Outgoing) -> (r: Result<Action<C>, Failure>)
        ensures
            framed(packet, r),
    {
        match get_packet_buf(packet) {
            Ok(buf) => Ok(Action::Broadcast(buf)),
            Err(e) => Err(Failure::Encode(e)),
        }
    }

    /// Takes actor `key` off the map and out of the registry, and hands back its connection.
    pub fn drop_stream(&mut self, key: &String) -> (r: Result<C, Failure>)
        requires
            old(self).wf(),
        ensures
            final(self).wf(),
            !online(old(self).streams(), key@) ==> r == Err::<C, Failure>(Failure::DropFailed)
                && *final(self) == *old(self),
            online(old(self).streams(), key@) ==> dropped(*old(self), *final(self), key@) && (r matches Ok(c)
                && conn_of(*old(self), key@, c)),
    {
        let (i, t, a) = match self.locate(key) {
            Some(found) => found,
            None => return Err(Failure::DropFailed),
        };
        let ghost old_tiles = self.map@;
        let ghost old_streams = self.streams@;
        self.map[t].1.actors.remove(a);
        let ghost new_tile = self.map@[t as int].1;
        proof {
            lemma_has_remove(old_tiles[t as int].1, a as int, new_tile);
            lemma_holds_remove(old_tiles[t as int].1, a as int, new_tile);
            lemma_others_update(old_tiles, t as int, new_tile, key@);
            lemma_occupied_update(old_tiles, t as int, new_tile);
            assert(self.map@ =~= old_tiles.update(t as int, (old_tiles[t as int].0, new_tile)));
            assert forall|k: int| 0 <= k < self.map@.len() implies #[trigger] distinct_actors(self.map@[k].1) by {
                if k != t {
                    assert(distinct_actors(old_tiles[k].1));
                }
            }
        }
        let conn = self.streams.remove(i).conn;
        proof {
            lemma_registered_remove(old_streams, i as int);
            assert forall|x: Seq<char>, p: Position|
                #[trigger] occupied(self.map@, x, p) <==> occupied(old_tiles, x, p) && x != key@ by {
                if x == key@ && p == old_tiles[t as int].0 {
                    assert(!has_actor(new_tile, x));
                }
                if x == key@ && p != old_tiles[t as int].0 && occupied(old_tiles, x, p) {
                    assert(registered(old_streams, x, p));
                    lemma_registered_unique(old_streams, i as int, x, p);
                }
            }
            assert(consistent(self.map@, self.streams@));
            assert forall|p: Position, act: Actor| !#[trigger] actor_at(self.map@, key@, p, act) by {
                if actor_at(self.map@, key@, p, act) {
                    let (t2, a2) = choose|t2: int, a2: int|
                        0 <= t2 < self.map@.len() && 0 <= a2 < self.map@[t2].1.actors@.len() && self.map@[t2].0 == p
                            && #[trigger] self.map@[t2].1.actors@[a2] == act && act.id@ == key@;
                    assert(self.map@[t2].1.actors@[a2].id@ == key@);
                    assert(has_actor(self.map@[t2].1, key@));
                    assert(occupied(self.map@, key@, self.map@[t2].0));
                }
            }
        }
        Ok(conn)
    }
}

impl<C: Reader> Worker<C> {
    /// Handles one job. A job about one connection that fails turns into that connection's
    /// drop or into an error for the caller to log; the map stays consistent either way.
    pub fn handle_job(&mut self, job: Job<C>, now: u64) -> (r: Result<Action<C>, Failure>)
        requires
            old(self).wf(),
        ensures
            final(self).wf(),
            job matches Job::Accept(c, id, p) ==> accepted(*old(self), *final(self), c, id, p, now, failure_of(r))
                && (r is Ok ==> r matches Ok(Action::Nothing)),
            job matches Job::Drop(key, reason) ==> if online(old(self).streams(), key@) {
                dropped(*old(self), *final(self), key@) && (r matches Ok(Action::Close(c, why)) && conn_of(
                    *old(self),
                    key@,
                    c,
                ) && why == reason)
            } else {
                r == Err::<Action<C>, Failure>(Failure::DropFailed) && *final(self) == *old(self)
            },
            job matches Job::Readable(key) ==> if online(old(self).streams(), key@) {
                r matches Ok(Action::Nothing) && read_handled(*old(self), *final(self), key, now)
            } else {
                r == Err::<Action<C>, Failure>(Failure::StreamNotFound) && *final(self) == *old(self)
            },
            job matches Job::Incoming(key, packet) ==> r matches Ok(Action::Nothing) && if online(
                old(self).streams(),
                key@,
            ) || packet is Hello {
                handled(*old(self), *final(self), key, packet, now, None)
            } else {
                queued(
                    *old(self),
                    *final(self),
                    Schedule { job: Job::Drop(key, DropReason::Failed(Failure::NoStream)), due: now },
                )
            },
            job matches Job::Write(key, packet) ==> written(*old(self), key@, packet, r) && *final(self)
                == *old(self),
            job matches Job::Broadcast(packet) ==> framed(packet, r) && *final(self) == *old(self),
            job matches Job::Move(key, duration) ==> moved(*old(self), *final(self), key, duration, now, failure_of(r))
                && (r is Ok ==> r matches Ok(Action::Nothing)),
    {
        match job {
            Job::Accept(conn, id, position) => {
                self.accept(conn, id, position, now)?;
                Ok(Action::Nothing)
            },
            Job::Drop(key, reason) => {
                let conn = self.drop_stream(&key)?;
                Ok(Action::Close(conn, reason))
            },
            Job::Readable(key) => {
                let i = match find_stream(&self.streams, &key) {
                    Some(i) => i,
                    None => return Err(Failure::StreamNotFound),
                };
                let result = self.streams[i].conn.try_read_packet();
                let ghost before = *self;
                let ghost got = result;
                self.on_read(&key, result, now);
                proof {
                    match got {
                        Ok(p) => {
                            assert(queued(before, *self, Schedule { job: Job::Incoming(key, p), due: now }));
                        },
                        Err(e) => {
                            if !(e is WouldBlock) {
                                assert(queued(before, *self, Schedule { job: Job::Drop(key, DropReason::Read(e)), due: now }));
                            }
                        },
                    }
                }
                Ok(Action::Nothing)
            },
            Job::Incoming(key, packet) => {
                if let Err(e) = self.handle_packet(&key, packet, now) {
                    self.schedule_queue.push(
                        Schedule::instant(Job::Drop(key, DropReason::Failed(e)), now),
                    );
                }
                Ok(Action::Nothing)
            },
            Job::Write(key, packet) => self.write(&key, packet),
            Job::Broadcast(packet) => self.broadcast(packet),
            Job::Move(key, duration) => {
                self.move_actor(&key, duration, now)?;
                Ok(Action::Nothing)
            },
        }
    }
}

impl<C> Worker<C> {
    /// The earliest pending job, removed, where it is due at `now`. The event loop asks
    /// this before it waits on anything, so due jobs never wait behind socket traffic.
    pub fn take_due(&mut self, now: u64) -> (r: Option<Job<C>>)
        requires
            old(self).wf(),
        ensures
            final(self).wf(),
            final(self).map_id() == old(self).map_id(),
            final(self).tiles() == old(self).tiles(),
            final(self).streams() == old(self).streams(),
            old(self).jobs().len() > 0 && old(self).jobs()[0].due <= now ==> r == Some(old(self).jobs()[0].job)
                && final(self).jobs() == old(self).jobs().drop_first(),
            !(old(self).jobs().len() > 0 && old(self).jobs()[0].due <= now) ==> r is None && *final(self)
                == *old(self),
    {
        if self.schedule_queue.is_first_due(now) {
            self.schedule_queue.take_due(now)
        } else {
            None
        }
    }

    /// When the earliest pending job falls due: what the event loop's timer waits for.
    pub fn first_due(&self) -> (r: Option<u64>)
        ensures
            self.jobs().len() == 0 ==> r is None,
            self.jobs().len() > 0 ==> r == Some(self.jobs()[0].due),
    {
        self.schedule_queue.first_due()
    }

    /// The tile at `p`.
    pub fn tile(&self, p: Position) -> (r: Option<&Tile>)
        ensures
            r is None <==> !tile_at(self.tiles(), p),
            r matches Some(tile) ==> exists|t: int|
                0 <= t < self.tiles().len() && #[trigger] self.tiles()[t].0 == p && self.tiles()[t].1 == *tile,
    {
        match find_position(&self.map, p) {
            Some(t) => {
                assert(self.tiles()[t as int].0 == p);
                Some(&self.map[t].1)
            },
            None => None,
        }
    }

    /// Number of pending jobs.
    pub fn pending(&self) -> (r: usize)
        ensures
            r == self.jobs().len(),
    {
        self.schedule_queue.len()
    }

    /// Where the registry places actor `key`.
    pub fn position(&self, key: &String) -> (r: Option<Position>)
        ensures
            r is None <==> !online(self.streams(), key@),
            r matches Some(p) ==> registered(self.streams(), key@, p),
    {
        match find_stream(&self.streams, key) {
            Some(i) => {
                assert(self.streams@[i as int].id@ == key@);
                Some(self.streams[i].position)
            },
            None => None,
        }
    }

    /// The actor `key` as its tile holds it.
    pub fn actor(&self, key: &String) -> (r: Option<&Actor>)
        requires
            self.wf(),
        ensures
            r is None <==> !online(self.streams(), key@),
            r matches Some(act) ==> exists|p: Position| #[trigger] actor_at(self.tiles(), key@, p, *act),
    {
        match self.locate(key) {
            Some((_, t, a)) => Some(&self.map[t].1.actors[a]),
            None => None,
        }
    }

    /// Number of registered connections.
    pub fn len(&self) -> (r: usize)
        ensures
            r == self.streams().len(),
    {
        self.streams.len()
    }

    /// The actor id and connection of the registry entry at `i`.
    pub fn stream(&self, i: usize) -> (r: (&String, &C))
        requires
            i < self.streams().len(),
        ensures
            *r.0 == self.streams()[i as int].id,
            *r.1 == self.streams()[i as int].conn,
    {
        (&self.streams[i].id, &self.streams[i].conn)
    }

    /// The connection of actor `key`.
    pub fn connection(&self, key: &String) -> (r: Option<&C>)
        ensures
            r is None <==> !online(self.streams(), key@),
            r matches Some(c) ==> exists|i: int|
                0 <= i < self.streams().len() && #[trigger] self.streams()[i].id@ == key@ && *c == self.streams()[i].conn,
    {
        match find_stream(&self.streams, key) {
            Some(i) => {
                assert(self.streams()[i as int].id@ == key@);
                Some(&self.streams[i].conn)
            },
            None => None,
        }
    }
}

/// Tile membership and the registry never diverge: in a well-formed worker, which is what
/// every job leaves behind, an actor stands on the tile at `p` exactly when the registry
/// places it at `p`, and on one tile at most.
pub proof fn lemma_registry_matches_tiles<C>(w: Worker<C>, id: Seq<char>, p: Position, q: Position)
    requires
        w.wf(),
    ensures
        occupied(w.tiles(), id, p) <==> registered(w.streams(), id, p),
        occupied(w.tiles(), id, p) && occupied(w.tiles(), id, q) ==> p == q,
{
    if occupied(w.tiles(), id, p) && occupied(w.tiles(), id, q) {
        assert(registered(w.streams(), id, p));
        assert(registered(w.streams(), id, q));
        let i = choose|i: int| 0 <= i < w.streams().len() && #[trigger] w.streams()[i].id@ == id && w.streams()[i].position == p;
        lemma_registered_unique(w.streams(), i, id, q);
    }
}

/// The failure in a result, if any.
pub open spec fn failure_of<T>(r: Result<T, Failure>) -> Option<Failure> {
    match r {
        Ok(_) => None,
        Err(e) => Some(e),
    }
}

/// Outcome of handing connection `conn` of actor `id` to the map at `position`: refused
/// where no tile is there or the actor is already on the map; otherwise the actor stands
/// there, standing still and last moved at `now`, and a greeting with the roster is queued.
pub open spec fn accepted<C>(old: Worker<C>, new: Worker<C>, conn: C, id: String, position: Position, now: u64, f: Option<Failure>) -> bool {
    &&& new.map_id() == old.map_id()
    &&& !tile_at(old.tiles(), position) ==> f == Some(Failure::WrongPosition) && new == old
    &&& tile_at(old.tiles(), position) && online(old.streams(), id@) ==> f == Some(Failure::AlreadyRegistered)
        && new == old
    &&& tile_at(old.tiles(), position) && !online(old.streams(), id@) ==> {
        &&& f is None
        &&& new.streams() == old.streams().push((Stream { id: id, conn: conn, position: position }))
        &&& layout_kept(old.tiles(), new.tiles())
        &&& others_kept(old.tiles(), new.tiles(), id@)
        &&& actor_at(new.tiles(), id@, position, Actor::new_spec(id, now))
        &&& forall|p: Position, act: Actor| #[trigger] actor_at(new.tiles(), id@, p, act) ==> p == position
            && act == Actor::new_spec(id, now)
        &&& forall|p: Position| #[trigger] tile_at(new.tiles(), p) <==> tile_at(old.tiles(), p)
        &&& exists|s: Schedule<Job<C>>|
            inserted(old.jobs(), new.jobs(), s) && s.due == now && greets(s.job, id@, old.map_id(), roster(new.streams()))
    }
}

/// Actor `key` left: out of the registry, off every tile, nothing else changed.
pub open spec fn dropped<C>(old: Worker<C>, new: Worker<C>, key: Seq<char>) -> bool {
    &&& new.map_id() == old.map_id()
    &&& exists|i: int|
        0 <= i < old.streams().len() && #[trigger] old.streams()[i].id@ == key && new.streams() == old.streams().remove(i)
    &&& forall|p: Position, act: Actor| !#[trigger] actor_at(new.tiles(), key, p, act)
    &&& layout_kept(old.tiles(), new.tiles())
    &&& others_kept(old.tiles(), new.tiles(), key)
    &&& forall|x: Seq<char>, p: Position|
        #[trigger] occupied(new.tiles(), x, p) <==> occupied(old.tiles(), x, p) && x != key
    &&& forall|p: Position| #[trigger] tile_at(new.tiles(), p) <==> tile_at(old.tiles(), p)
    &&& new.jobs() == old.jobs()
}

/// `c` is the connection that `w` registered for actor `key`.
pub open spec fn conn_of<C>(w: Worker<C>, key: Seq<char>, c: C) -> bool {
    exists|i: int| 0 <= i < w.streams().len() && #[trigger] w.streams()[i].id@ == key && w.streams()[i].conn == c
}

/// Outcome of a packet from actor `key`: a hello changes nothing; a move from an actor
/// not on the map fails; otherwise the actor turns.
pub open spec fn handled<C>(old: Worker<C>, new: Worker<C>, key: String, packet: Incoming, now: u64, f: Option<Failure>) -> bool {
    &&& new.map_id() == old.map_id()
    &&& new.streams() == old.streams()
    &&& packet is Hello ==> f is None && new == old
    &&& packet is Move && !online(old.streams(), key@) ==> f == Some(Failure::NoStream) && new == old
    &&& online(old.streams(), key@) ==> f is None
    &&& forall|p: Position, act: Actor| #[trigger] actor_at(old.tiles(), key@, p, act)
        ==> (packet matches Incoming::Move { direction } ==> turned(old, new, key, p, act, direction, now))
}

/// Outcome of a movement step of actor `key`: it fails harmlessly where the actor is gone.
pub open spec fn moved<C>(old: Worker<C>, new: Worker<C>, key: String, duration: u64, now: u64, f: Option<Failure>) -> bool {
    &&& new.map_id() == old.map_id()
    &&& !online(old.streams(), key@) ==> f == Some(Failure::NoStream) && new == old
    &&& online(old.streams(), key@) ==> f is None
    &&& forall|p: Position, act: Actor| #[trigger] actor_at(old.tiles(), key@, p, act)
        ==> stepped(old, new, key, p, act, duration, now)
}

/// `r` carries the frame of `packet` to broadcast, or why it cannot be encoded.
pub open spec fn framed<C>(packet: Outgoing, r: Result<Action<C>, Failure>) -> bool {
    &&& !encodable(packet) ==> r == Err::<Action<C>, Failure>(Failure::Encode(EncodeError::DurationOverflow))
    &&& encodable(packet) && outgoing_bytes(packet).len() > MAX_FRAME ==> r == Err::<Action<C>, Failure>(
        Failure::Encode(EncodeError::TooLarge),
    )
    &&& encodable(packet) && outgoing_bytes(packet).len() <= MAX_FRAME ==> (r matches Ok(Action::Broadcast(b))
        && b@ == frame(outgoing_bytes(packet)))
}

/// `r` carries the frame of `packet` for actor `key`'s socket; nothing where `key` is not
/// registered.
pub open spec fn written<C>(w: Worker<C>, key: Seq<char>, packet: Outgoing, r: Result<Action<C>, Failure>) -> bool {
    &&& !online(w.streams(), key) ==> (r matches Ok(Action::Nothing))
    &&& online(w.streams(), key) && !encodable(packet) ==> r == Err::<Action<C>, Failure>(
        Failure::Encode(EncodeError::DurationOverflow),
    )
    &&& online(w.streams(), key) && encodable(packet) && outgoing_bytes(packet).len() > MAX_FRAME ==> r == Err::<
        Action<C>,
        Failure,
    >(Failure::Encode(EncodeError::TooLarge))
    &&& online(w.streams(), key) && encodable(packet) && outgoing_bytes(packet).len() <= MAX_FRAME ==> (r matches Ok(
        Action::Write(k, b),
    ) && k@ == key && b@ == frame(outgoing_bytes(packet)))
}

/// After a read from actor `key`'s socket: nothing changed (it would block), or one job was
/// queued at `now`, the packet read or the connection's drop for a failed read.
pub open spec fn read_handled<C>(old: Worker<C>, new: Worker<C>, key: String, now: u64) -> bool {
    new == old || exists|s: Schedule<Job<C>>|
        #[trigger] queued(old, new, s) && s.due == now && ((s.job matches Job::Incoming(k, _) && k == key)
            || (s.job matches Job::Drop(k, DropReason::Read(e)) && k == key && !(e is WouldBlock)))
}

/// A turn received while the actor is still cooling down from its last tile change starts
/// no movement and moves nobody: the job queue and the registry stay as they were, so no
/// tile change happens before the cooldown has elapsed.
pub proof fn lemma_cooldown_coalesces<C>(
    old: Worker<C>,
    new: Worker<C>,
    key: String,
    d: Direction,
    now: u64,
    f: Option<Failure>,
    p: Position,
    act: Actor,
)
    requires
        handled(old, new, key, Incoming::Move { direction: d }, now, f),
        actor_at(old.tiles(), key@, p, act),
        cooling(act.movable.moved_at, now),
    ensures
        new.jobs() == old.jobs(),
        new.streams() == old.streams(),
{
}

/// Asking an actor to head where it already heads changes nothing and queues nothing.
pub proof fn lemma_same_direction_is_no_op<C>(
    old: Worker<C>,
    new: Worker<C>,
    key: String,
    now: u64,
    f: Option<Failure>,
    p: Position,
    act: Actor,
)
    requires
        handled(old, new, key, Incoming::Move { direction: act.movable.direction }, now, f),
        actor_at(old.tiles(), key@, p, act),
    ensures
        new == old,
{
}

/// A step towards a position without a tile queues exactly one job, the broadcast of a
/// stop where the actor stands, and no further step; nobody moves.
pub proof fn lemma_edge_stops<C>(
    old: Worker<C>,
    new: Worker<C>,
    key: String,
    duration: u64,
    now: u64,
    f: Option<Failure>,
    p: Position,
    act: Actor,
)
    requires
        moved(old, new, key, duration, now, f),
        actor_at(old.tiles(), key@, p, act),
        !can_step(old.tiles(), p, act.movable.direction),
    ensures
        new.jobs().len() == old.jobs().len() + 1,
        inserted(
            old.jobs(),
            new.jobs(),
            Schedule { job: Job::Broadcast(Outgoing::Stop { id: key, position: p }), due: now },
        ),
        new.streams() == old.streams(),
        new.tiles() == old.tiles(),
{
}

/// `new` differs from `old` only by the queued entry `s`.
pub open spec fn queued<C>(old: Worker<C>, new: Worker<C>, s: Schedule<Job<C>>) -> bool {
    &&& new.map_id() == old.map_id()
    &&& new.tiles() == old.tiles()
    &&& new.streams() == old.streams()
    &&& inserted(old.jobs(), new.jobs(), s)
}

/// When a step that starts at `now` and lasts `duration` ends.
pub open spec fn deadline(now: u64, duration: u64) -> u64 {
    if now + duration > u64::MAX {
        u64::MAX
    } else {
        (now + duration) as u64
    }
}

/// The actor `act` of `key`, standing at `p`, asked to head in direction `d` at `now`: a
/// new heading is stored; movement starts now only from standing still, towards a
/// direction other than `Idle`, after the cooldown; otherwise an ongoing step picks the
/// heading up.
pub open spec fn turned<C>(old: Worker<C>, new: Worker<C>, key: String, p: Position, act: Actor, d: Direction, now: u64) -> bool {
    if act.movable.direction == d {
        new == old
    } else {
        let turned_actor = Actor { id: act.id, movable: Movable { direction: d, moved_at: act.movable.moved_at } };
        &&& new.map_id() == old.map_id()
        &&& new.streams() == old.streams()
        &&& actor_at(new.tiles(), key@, p, turned_actor)
        &&& layout_kept(old.tiles(), new.tiles())
        &&& forall|x: Seq<char>, q: Position, other: Actor|
            x != key@ ==> (#[trigger] actor_at(new.tiles(), x, q, other) <==> actor_at(old.tiles(), x, q, other))
        &&& forall|q: Position| #[trigger] tile_at(new.tiles(), q) <==> tile_at(old.tiles(), q)
        &&& if !cooling(act.movable.moved_at, now) && d != Direction::Idle && act.movable.direction == Direction::Idle {
            inserted(old.jobs(), new.jobs(), Schedule { job: Job::Move(key, COOLDOWN), due: now })
        } else {
            new.jobs() == old.jobs()
        }
    }
}

/// Whether the map has a tile one step from `p` in direction `d`.
pub open spec fn can_step(tiles: Seq<(Position, Tile)>, p: Position, d: Direction) -> bool {
    d != Direction::Idle && exists|q: Position| coords(q) == step(p, d) && #[trigger] tile_at(tiles, q)
}

/// One movement step of actor `act` of `key`, standing at `p`: where it faces a tile it
/// moves there, tells everyone and schedules its next step; otherwise it stops and
/// everyone is told so.
pub open spec fn stepped<C>(old: Worker<C>, new: Worker<C>, key: String, p: Position, act: Actor, duration: u64, now: u64) -> bool {
    let d = act.movable.direction;
    if !can_step(old.tiles(), p, d) {
        queued(old, new, Schedule { job: Job::Broadcast(Outgoing::Stop { id: key, position: p }), due: now })
    } else {
        forall|q: Position| #![trigger coords(q)] coords(q) == step(p, d) ==> {
            let moved = Actor { id: act.id, movable: Movable { direction: d, moved_at: now } };
            &&& new.map_id() == old.map_id()
            &&& forall|x: Seq<char>, r: Position| #[trigger] registered(new.streams(), x, r) <==> if x == key@ {
                r == q
            } else {
                registered(old.streams(), x, r)
            }
            &&& forall|x: Seq<char>| #[trigger] online(new.streams(), x) <==> online(old.streams(), x)
            &&& actor_at(new.tiles(), key@, q, moved)
            &&& layout_kept(old.tiles(), new.tiles())
            &&& others_kept(old.tiles(), new.tiles(), key@)
            &&& forall|r: Position| #[trigger] tile_at(new.tiles(), r) <==> tile_at(old.tiles(), r)
            &&& exists|mid: Seq<Schedule<Job<C>>>|
                inserted(old.jobs(), mid, Schedule { job: Job::Broadcast(Outgoing::Move { id: key, position: q, duration }), due: now })
                    && inserted(mid, new.jobs(), Schedule { job: Job::Move(key, duration), due: deadline(now, duration) })
        }
    }
}

/// Whether `job` writes to actor `id` the greeting with map id `map_id` and roster `who`.
pub open spec fn greets<C>(job: Job<C>, id: Seq<char>, map_id: Seq<char>, who: Seq<(Seq<char>, Position)>) -> bool {
    match job {
        Job::Write(k, Outgoing::Hello { id: i, map_id: m, actors }) => k@ == id && i@ == id && m@
            == map_id && roster_of(actors@) == who,
        _ => false,
    }
}

/// Index of the registry entry of actor `key`.
fn find_stream<C>(streams: &Vec<Stream<C>>, key: &String) -> (r: Option<usize>)
    ensures
        r matches Some(i) ==> i < streams@.len() && streams@[i as int].id@ == key@,
        r is None ==> !online(streams@, key@),
{
    let mut i: usize = 0;
    while i < streams.len()
        invariant
            i <= streams@.len(),
            forall|j: int| 0 <= j < i ==> streams@[j].id@ != key@,
        decreases streams@.len() - i,
    {
        if streams[i].id == *key {
            return Some(i);
        }
        i = i + 1;
    }
    None
}

/// Index within `tile` of actor `key`.
fn find_actor(tile: &Tile, key: &String) -> (r: Option<usize>)
    ensures
        r matches Some(a) ==> a < tile.actors@.len() && tile.actors@[a as int].id@ == key@,
        r is None ==> !has_actor(*tile, key@),
{
    let mut a: usize = 0;
    while a < tile.actors.len()
        invariant
            a <= tile.actors@.len(),
            forall|j: int| 0 <= j < a ==> tile.actors@[j].id@ != key@,
        decreases tile.actors@.len() - a,
    {
        if tile.actors[a].id == *key {
            return Some(a);
        }
        a = a + 1;
    }
    None
}

/// Index of the tile at `p`.
fn find_position(tiles: &Vec<(Position, Tile)>, p: Position) -> (r: Option<usize>)
    ensures
        r matches Some(t) ==> t < tiles@.len() && tiles@[t as int].0 == p,
        r is None ==> !tile_at(tiles@, p),
{
    let mut t: usize = 0;
    while t < tiles.len()
        invariant
            t <= tiles@.len(),
            forall|j: int| 0 <= j < t ==> tiles@[j].0 != p,
        decreases tiles@.len() - t,
    {
        if tiles[t].0 == p {
            return Some(t);
        }
        t = t + 1;
    }
    None
}

} // verus!
