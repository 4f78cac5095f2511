use east_online_server::map::job::Action;
use east_online_server::map::{Job, Worker};
use east_online_server::model::{Direction, MapData, Placable, Position};
use east_online_server::net::incoming::Incoming;
use east_online_server::net::outgoing::Outgoing;
use east_online_server::net::reader::{IoFailure, ReadError, Reader};
use east_online_server::net::writer::get_packet_buf;
use east_online_server::reason::{DropReason, Failure};
use std::cell::RefCell;

struct Conn {
    reads: RefCell<Vec<Result<Vec<u8>, IoFailure>>>,
}

impl Reader for Conn {
    fn try_read_buf(&self, _max: usize) -> Result<Vec<u8>, IoFailure> {
        let mut reads = self.reads.borrow_mut();
        if reads.is_empty() {
            return Err(IoFailure::WouldBlock);
        }
        reads.remove(0)
    }
}

fn conn() -> Conn {
    Conn { reads: RefCell::new(vec![]) }
}

fn pos(x: i32, y: i32, z: i32) -> Position {
    Position { x, y, z }
}

fn world(tiles: &[Position]) -> Worker<Conn> {
    let data = MapData {
        id: "map_0001".to_string(),
        name: "Meadow".to_string(),
        tiles: tiles.iter().map(|p| (*p, Placable { rotation: 0 })).collect(),
    };
    Worker::from_map(data)
}

fn a() -> String {
    "a".to_string()
}

/// A world with actor "a" at the origin, accepted at time 0, its greeting handled.
fn with_actor(tiles: &[Position]) -> Worker<Conn> {
    let mut w = world(tiles);
    assert!(w.accept(conn(), a(), pos(0, 0, 0), 0).is_ok());
    let greeting = w.take_due(0).unwrap();
    assert!(matches!(w.handle_job(greeting, 0), Ok(Action::Write(_, _))));
    w
}

#[test]
fn from_map_keeps_ids() {
    let w = world(&[pos(0, 0, 0)]);
    assert_eq!(w.get_id(), "map_0001");
    assert_eq!(w.get_name(), "Meadow");
    assert_eq!(w.len(), 0);
    assert_eq!(w.pending(), 0);
}

#[test]
fn accept_greets_with_roster() {
    let mut w = world(&[pos(0, 0, 0), pos(1, 0, 0)]);
    assert!(w.accept(conn(), "b".to_string(), pos(1, 0, 0), 0).is_ok());
    let _ = w.take_due(0);
    assert!(w.accept(conn(), a(), pos(0, 0, 0), 5).is_ok());
    assert_eq!(w.position(&a()), Some(pos(0, 0, 0)));
    let job = w.take_due(5).unwrap();
    match job {
        Job::Write(key, Outgoing::Hello { id, map_id, actors }) => {
            assert_eq!(key, "a");
            assert_eq!(id, "a");
            assert_eq!(map_id, "map_0001");
            assert_eq!(actors, vec![("b".to_string(), pos(1, 0, 0)), ("a".to_string(), pos(0, 0, 0))]);
        },
        _ => panic!("expected a greeting"),
    }
}

#[test]
fn greeting_is_written_as_frame() {
    let mut w = world(&[pos(0, 0, 0)]);
    assert!(w.accept(conn(), a(), pos(0, 0, 0), 0).is_ok());
    let job = w.take_due(0).unwrap();
    let expected = get_packet_buf(Outgoing::Hello {
        id: a(),
        map_id: "map_0001".to_string(),
        actors: vec![(a(), pos(0, 0, 0))],
    })
    .unwrap();
    match w.handle_job(job, 0) {
        Ok(Action::Write(key, bytes)) => {
            assert_eq!(key, "a");
            assert_eq!(bytes, expected);
        },
        _ => panic!("expected a write"),
    }
}

#[test]
fn accept_at_missing_tile_fails() {
    let mut w = world(&[pos(0, 0, 0)]);
    assert_eq!(w.accept(conn(), a(), pos(5, 0, 0), 0), Err(Failure::WrongPosition));
    assert_eq!(w.len(), 0);
    assert_eq!(w.pending(), 0);
}

#[test]
fn accept_twice_fails() {
    let mut w = with_actor(&[pos(0, 0, 0), pos(1, 0, 0)]);
    assert_eq!(w.accept(conn(), a(), pos(1, 0, 0), 0), Err(Failure::AlreadyRegistered));
    assert_eq!(w.position(&a()), Some(pos(0, 0, 0)));
}

#[test]
fn second_move_request_is_coalesced() {
    let mut w = with_actor(&[pos(0, 0, 0), pos(1, 0, 0)]);
    let right = Incoming::Move { direction: Direction::Right };
    assert_eq!(w.handle_packet(&a(), right.clone(), 1000), Ok(()));
    assert_eq!(w.pending(), 1);
    assert_eq!(w.handle_packet(&a(), right, 1050), Ok(()));
    assert_eq!(w.pending(), 1);
    let step = w.take_due(1050).unwrap();
    assert!(matches!(step, Job::Move(ref k, 300) if k == "a"));
    assert!(matches!(w.handle_job(step, 1050), Ok(Action::Nothing)));
    assert_eq!(w.position(&a()), Some(pos(1, 0, 0)));
    assert_eq!(w.actor(&a()).unwrap().movable.moved_at, 1050);
    assert_eq!(w.pending(), 2);
    match w.take_due(1050) {
        Some(Job::Broadcast(Outgoing::Move { id, position, duration })) => {
            assert_eq!(id, "a");
            assert_eq!(position, pos(1, 0, 0));
            assert_eq!(duration, 300);
        },
        _ => panic!("expected the move broadcast"),
    }
    assert!(w.take_due(1349).is_none());
    assert!(matches!(w.take_due(1350), Some(Job::Move(ref k, 300)) if k == "a"));
}

#[test]
fn same_direction_is_a_no_op() {
    let mut w = with_actor(&[pos(0, 0, 0), pos(1, 0, 0)]);
    assert_eq!(w.handle_packet(&a(), Incoming::Move { direction: Direction::Idle }, 1000), Ok(()));
    assert_eq!(w.pending(), 0);
    assert_eq!(w.actor(&a()).unwrap().movable.direction, Direction::Idle);
}

#[test]
fn turn_within_cooldown_starts_nothing() {
    let mut w = with_actor(&[pos(0, 0, 0), pos(1, 0, 0)]);
    assert_eq!(w.handle_packet(&a(), Incoming::Move { direction: Direction::Right }, 299), Ok(()));
    assert_eq!(w.pending(), 0);
    assert_eq!(w.actor(&a()).unwrap().movable.direction, Direction::Right);
    assert_eq!(w.position(&a()), Some(pos(0, 0, 0)));
}

#[test]
fn redirect_while_moving_starts_nothing() {
    let mut w = with_actor(&[pos(0, 0, 0), pos(1, 0, 0), pos(0, 0, 1)]);
    assert_eq!(w.handle_packet(&a(), Incoming::Move { direction: Direction::Right }, 1000), Ok(()));
    assert_eq!(w.handle_packet(&a(), Incoming::Move { direction: Direction::Up }, 2000), Ok(()));
    assert_eq!(w.pending(), 1);
    assert_eq!(w.actor(&a()).unwrap().movable.direction, Direction::Up);
    let step = w.take_due(2000).unwrap();
    assert!(w.handle_job(step, 2000).is_ok());
    assert_eq!(w.position(&a()), Some(pos(0, 0, 1)));
}

#[test]
fn step_off_the_map_stops() {
    let mut w = with_actor(&[pos(0, 0, 0)]);
    assert_eq!(w.handle_packet(&a(), Incoming::Move { direction: Direction::Left }, 1000), Ok(()));
    let step = w.take_due(1000).unwrap();
    assert!(w.handle_job(step, 1000).is_ok());
    assert_eq!(w.pending(), 1);
    match w.take_due(1000) {
        Some(Job::Broadcast(Outgoing::Stop { id, position })) => {
            assert_eq!(id, "a");
            assert_eq!(position, pos(0, 0, 0));
        },
        _ => panic!("expected a stop"),
    }
    assert_eq!(w.pending(), 0);
    assert_eq!(w.position(&a()), Some(pos(0, 0, 0)));
    assert_eq!(w.actor(&a()).unwrap().movable.direction, Direction::Left);
}

#[test]
fn idle_step_stops() {
    let mut w = with_actor(&[pos(0, 0, 0), pos(1, 0, 0)]);
    assert_eq!(w.move_actor(&a(), 300, 1000), Ok(()));
    assert_eq!(w.pending(), 1);
    assert!(matches!(w.take_due(1000), Some(Job::Broadcast(Outgoing::Stop { .. }))));
}

#[test]
fn would_block_read_changes_nothing() {
    let mut w = with_actor(&[pos(0, 0, 0)]);
    assert!(matches!(w.handle_job(Job::Readable(a()), 10), Ok(Action::Nothing)));
    assert_eq!(w.pending(), 0);
    assert_eq!(w.len(), 1);
}

#[test]
fn readable_packet_is_queued() {
    let mut w = world(&[pos(0, 0, 0)]);
    let c = Conn { reads: RefCell::new(vec![Ok(vec![3, 0]), Ok(vec![2, 0, 2])]) };
    assert!(w.accept(c, a(), pos(0, 0, 0), 0).is_ok());
    let _ = w.take_due(0);
    assert!(w.handle_job(Job::Readable(a()), 10).is_ok());
    assert!(matches!(
        w.take_due(10),
        Some(Job::Incoming(ref k, Incoming::Move { direction: Direction::Right })) if k == "a"
    ));
}

#[test]
fn failed_read_drops_the_connection() {
    let mut w = world(&[pos(0, 0, 0)]);
    let c = Conn { reads: RefCell::new(vec![Ok(vec![0, 0])]) };
    assert!(w.accept(c, a(), pos(0, 0, 0), 0).is_ok());
    let _ = w.take_due(0);
    assert!(w.handle_job(Job::Readable(a()), 10).is_ok());
    let drop = w.take_due(10).unwrap();
    assert!(matches!(drop, Job::Drop(ref k, DropReason::Read(ReadError::EmptyFrame)) if k == "a"));
    assert!(matches!(w.handle_job(drop, 10), Ok(Action::Close(_, DropReason::Read(ReadError::EmptyFrame)))));
    assert_eq!(w.len(), 0);
    assert_eq!(w.position(&a()), None);
    assert!(w.actor(&a()).is_none());
}

#[test]
fn readable_unknown_key_fails() {
    let mut w = world(&[pos(0, 0, 0)]);
    assert!(matches!(w.handle_job(Job::Readable(a()), 0), Err(Failure::StreamNotFound)));
}

#[test]
fn drop_of_unknown_key_fails() {
    let mut w = world(&[pos(0, 0, 0)]);
    assert!(matches!(w.handle_job(Job::Drop(a(), DropReason::Write("x".to_string())), 0), Err(Failure::DropFailed)));
}

#[test]
fn move_after_drop_fails_harmlessly() {
    let mut w = with_actor(&[pos(0, 0, 0), pos(1, 0, 0)]);
    assert!(w.drop_stream(&a()).is_ok());
    assert!(matches!(w.handle_job(Job::Move(a(), 300), 0), Err(Failure::NoStream)));
    assert_eq!(w.pending(), 0);
}

#[test]
fn packet_from_unknown_actor_drops_it() {
    let mut w = world(&[pos(0, 0, 0)]);
    let job = Job::Incoming(a(), Incoming::Move { direction: Direction::Up });
    assert!(matches!(w.handle_job(job, 7), Ok(Action::Nothing)));
    assert!(matches!(w.take_due(7), Some(Job::Drop(ref k, DropReason::Failed(Failure::NoStream))) if k == "a"));
}

#[test]
fn write_error_queues_drop() {
    let mut w = with_actor(&[pos(0, 0, 0)]);
    w.on_write_error(&a(), "broken pipe".to_string(), 3);
    assert!(matches!(w.take_due(3), Some(Job::Drop(ref k, DropReason::Write(ref t))) if k == "a" && t == "broken pipe"));
}

#[test]
fn broadcast_and_write_encode() {
    let w = with_actor(&[pos(0, 0, 0)]);
    let stop = Outgoing::Stop { id: a(), position: pos(0, 0, 0) };
    let expected = get_packet_buf(stop.clone()).unwrap();
    assert!(matches!(w.broadcast(stop.clone()), Ok(Action::Broadcast(ref b)) if *b == expected));
    assert!(matches!(w.write(&"nobody".to_string(), stop), Ok(Action::Nothing)));
    let too_long = Outgoing::Move { id: a(), position: pos(0, 0, 0), duration: u64::MAX };
    assert!(matches!(w.write(&a(), too_long), Err(Failure::Encode(_))));
}

#[test]
fn movement_keeps_registry_and_tiles_together() {
    let tiles: Vec<Position> = (0..4).map(|x| pos(x, 0, 0)).collect();
    let mut w = with_actor(&tiles);
    assert!(w.handle_packet(&a(), Incoming::Move { direction: Direction::Right }, 1000).is_ok());
    let mut now = 1000;
    for _ in 0..8 {
        while let Some(job) = w.take_due(now) {
            let _ = w.handle_job(job, now);
        }
        now += 300;
    }
    assert_eq!(w.position(&a()), Some(pos(3, 0, 0)));
    assert_eq!(w.pending(), 0);
}

#[test]
fn new_actor_stands_still() {
    let actor = east_online_server::map::Actor::new(a(), 42);
    assert_eq!(actor.id, "a");
    assert_eq!(actor.movable.direction, Direction::Idle);
    assert_eq!(actor.movable.moved_at, 42);
}

#[test]
fn tile_from_placable_is_empty() {
    let tile = east_online_server::map::Tile::from_placable(Placable { rotation: 3 });
    assert_eq!(tile.rotation, 3);
    assert!(tile.object.is_none());
    assert!(tile.actors.is_empty());
}

#[test]
fn repeated_tile_position_is_one_tile() {
    let mut w = world(&[pos(0, 0, 0), pos(0, 0, 0), pos(1, 0, 0)]);
    assert!(w.accept(conn(), a(), pos(0, 0, 0), 0).is_ok());
    assert!(w.accept(conn(), "b".to_string(), pos(1, 0, 0), 0).is_ok());
    assert_eq!(w.len(), 2);
}

#[test]
fn step_past_the_coordinate_range_stops() {
    let edge = pos(i32::MAX, 0, 0);
    let mut w = world(&[edge]);
    assert!(w.accept(conn(), a(), edge, 0).is_ok());
    let _ = w.take_due(0);
    assert!(w.handle_packet(&a(), Incoming::Move { direction: Direction::Right }, 1000).is_ok());
    let step = w.take_due(1000).unwrap();
    assert!(w.handle_job(step, 1000).is_ok());
    assert!(matches!(w.take_due(1000), Some(Job::Broadcast(Outgoing::Stop { position, .. })) if position == edge));
    assert_eq!(w.pending(), 0);
}

#[test]
fn hello_packet_in_world_changes_nothing() {
    let mut w = with_actor(&[pos(0, 0, 0)]);
    assert_eq!(w.handle_packet(&a(), Incoming::Hello { token: "t".to_string() }, 5), Ok(()));
    assert_eq!(w.pending(), 0);
}

#[test]
fn deadline_saturates() {
    let mut w = with_actor(&[pos(0, 0, 0), pos(1, 0, 0)]);
    assert!(w.handle_packet(&a(), Incoming::Move { direction: Direction::Right }, 1000).is_ok());
    let _ = w.take_due(1000);
    assert_eq!(w.move_actor(&a(), u64::MAX, 1000), Ok(()));
    let _ = w.take_due(1000);
    assert_eq!(w.first_due(), Some(u64::MAX));
}

#[test]
fn tiles_keep_their_definition() {
    let data = MapData {
        id: "m".to_string(),
        name: "n".to_string(),
        tiles: vec![
            (pos(0, 0, 0), Placable { rotation: 1 }),
            (pos(1, 0, 0), Placable { rotation: 2 }),
            (pos(0, 0, 0), Placable { rotation: 3 }),
        ],
    };
    let w: Worker<Conn> = Worker::from_map(data);
    let first = w.tile(pos(0, 0, 0)).unwrap();
    assert_eq!(first.rotation, 3);
    assert!(first.object.is_none());
    assert!(first.actors.is_empty());
    assert_eq!(w.tile(pos(1, 0, 0)).unwrap().rotation, 2);
    assert!(w.tile(pos(2, 0, 0)).is_none());
}

#[test]
fn drop_leaves_others_in_place() {
    let mut w = with_actor(&[pos(0, 0, 0), pos(1, 0, 0)]);
    assert!(w.accept(conn(), "b".to_string(), pos(0, 0, 0), 0).is_ok());
    let _ = w.take_due(0);
    assert!(w.handle_packet(&"b".to_string(), Incoming::Move { direction: Direction::Up }, 10).is_ok());
    assert!(w.drop_stream(&a()).is_ok());
    let b = w.actor(&"b".to_string()).unwrap();
    assert_eq!(b.movable.direction, Direction::Up);
    assert_eq!(w.tile(pos(0, 0, 0)).unwrap().actors.len(), 1);
    assert_eq!(w.position(&"b".to_string()), Some(pos(0, 0, 0)));
}
