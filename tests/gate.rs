use east_online_server::gate::job::{Action, Auth};
use east_online_server::gate::worker::default_map;
use east_online_server::gate::{Job, Worker};
use east_online_server::model::Position;
use east_online_server::net::incoming::Incoming;
use east_online_server::net::reader::{IoFailure, ReadError, Reader};
use east_online_server::reason::{DropReason, Failure};

#[derive(Debug, PartialEq)]
struct Conn(u32);

impl Reader for Conn {
    fn try_read_buf(&self, _max: usize) -> Result<Vec<u8>, IoFailure> {
        if self.0 == 0 {
            Err(IoFailure::WouldBlock)
        } else {
            Err(IoFailure::Failed("reset".to_string()))
        }
    }
}

fn gate_with(conns: u32) -> Worker<Conn, &'static str> {
    let mut g = Worker::new();
    for i in 0..conns {
        assert!(matches!(g.handle_job(Job::Accept(Conn(i)), 0), Ok(Action::Nothing)));
    }
    g
}

#[test]
fn rejected_token_drops_once() {
    let mut g = gate_with(1);
    g.add_channel("map_0000", "tx0");
    g.on_auth(0, Auth::Denied("invalid token".to_string()), 10);
    assert_eq!(g.pending(), 1);
    let job = g.take_due(10).unwrap();
    assert!(matches!(job, Job::Drop(0, DropReason::Rejected(ref t)) if t == "invalid token"));
    assert_eq!(g.pending(), 0);
    match g.handle_job(job, 10) {
        Ok(Action::Close(c, DropReason::Rejected(t))) => {
            assert_eq!(c, Conn(0));
            assert_eq!(t, "invalid token");
        },
        _ => panic!("expected a close"),
    }
    assert_eq!(g.len(), 0);
}

#[test]
fn hello_asks_for_authentication() {
    let mut g = gate_with(1);
    let job = Job::Incoming(0, Incoming::Hello { token: "tok".to_string() });
    assert!(matches!(g.handle_job(job, 0), Ok(Action::Authenticate { index: 0, ref token }) if token == "tok"));
    assert_eq!(g.pending(), 0);
}

#[test]
fn granted_player_without_location_goes_to_default_map() {
    let mut g = gate_with(1);
    g.on_auth(0, Auth::Granted { user_id: "u1".to_string(), map_id: None }, 5);
    assert!(matches!(
        g.take_due(5),
        Some(Job::Send { index: 0, ref user_id, ref map_id }) if user_id == "u1" && map_id == "map_0000"
    ));
    assert_eq!(default_map(), "map_0000");
}

#[test]
fn granted_player_is_handed_off() {
    let mut g = gate_with(2);
    g.add_channel("map_0000", "tx0");
    g.add_channel("map_0001", "tx1");
    g.on_auth(1, Auth::Granted { user_id: "u1".to_string(), map_id: Some("map_0001".to_string()) }, 5);
    let send = g.take_due(5).unwrap();
    match g.handle_job(send, 5) {
        Ok(Action::Handoff { conn, channel, user_id, position }) => {
            assert_eq!(conn, Conn(1));
            assert_eq!(*g.channel(channel), "tx1");
            assert_eq!(user_id, "u1");
            assert_eq!(position, Position { x: 0, y: 0, z: 0 });
        },
        _ => panic!("expected a handoff"),
    }
    assert_eq!(g.len(), 1);
}

#[test]
fn unknown_map_closes_the_connection() {
    let mut g = gate_with(1);
    g.add_channel("map_0000", "tx0");
    let send = Job::Send { index: 0, user_id: "u".to_string(), map_id: "nowhere".to_string() };
    assert!(matches!(g.handle_job(send, 0), Ok(Action::Close(Conn(0), DropReason::Failed(Failure::UnknownMap)))));
    assert_eq!(g.len(), 0);
}

#[test]
fn add_channel_replaces() {
    let mut g: Worker<Conn, &'static str> = Worker::new();
    g.add_channel("m", "old");
    g.add_channel("m", "new");
    let send_conn = g.handle_job(Job::Accept(Conn(0)), 0);
    assert!(send_conn.is_ok());
    let send = Job::Send { index: 0, user_id: "u".to_string(), map_id: "m".to_string() };
    match g.handle_job(send, 0) {
        Ok(Action::Handoff { channel, .. }) => assert_eq!(*g.channel(channel), "new"),
        _ => panic!("expected a handoff"),
    }
}

#[test]
fn gate_read_outcomes() {
    let mut g = gate_with(2);
    assert!(matches!(g.handle_job(Job::Readable(0), 1), Ok(Action::Nothing)));
    assert_eq!(g.pending(), 0);
    assert!(matches!(g.handle_job(Job::Readable(1), 1), Ok(Action::Nothing)));
    assert!(matches!(g.take_due(1), Some(Job::Drop(1, DropReason::Read(ReadError::Io(_))))));
    assert!(matches!(g.handle_job(Job::Readable(2), 1), Err(Failure::StreamNotFound)));
}

#[test]
fn drop_out_of_range_fails() {
    let mut g = gate_with(1);
    let job = Job::Drop(3, DropReason::Rejected("x".to_string()));
    assert!(matches!(g.handle_job(job, 0), Err(Failure::StreamNotFound)));
    assert_eq!(g.len(), 1);
}

#[test]
fn move_at_gate_is_ignored() {
    let mut g = gate_with(1);
    let job = Job::Incoming(0, Incoming::Move { direction: east_online_server::model::Direction::Up });
    assert!(matches!(g.handle_job(job, 0), Ok(Action::Nothing)));
}

#[test]
fn gate_due_job_before_new_work() {
    let mut g = gate_with(1);
    g.on_auth(0, Auth::Denied("a".to_string()), 1);
    g.on_auth(0, Auth::Denied("b".to_string()), 2);
    assert!(g.take_due(0).is_none());
    assert!(matches!(g.take_due(5), Some(Job::Drop(0, DropReason::Rejected(ref t))) if t == "a"));
}
