use east_online_server::model::{Direction, Position};
use east_online_server::net::incoming::{DecodeError, Incoming};
use east_online_server::net::outgoing::{EncodeError, Outgoing};
use east_online_server::net::reader::{frame_size, IoFailure, ReadError, Reader};
use east_online_server::net::writer::get_packet_buf;
use std::cell::RefCell;

struct Script {
    reads: RefCell<Vec<Result<Vec<u8>, IoFailure>>>,
}

impl Reader for Script {
    fn try_read_buf(&self, max: usize) -> Result<Vec<u8>, IoFailure> {
        let mut reads = self.reads.borrow_mut();
        if reads.is_empty() {
            return Err(IoFailure::WouldBlock);
        }
        let mut next = reads.remove(0);
        if let Ok(bytes) = &mut next {
            bytes.truncate(max);
        }
        next
    }
}

fn script(reads: Vec<Result<Vec<u8>, IoFailure>>) -> Script {
    Script { reads: RefCell::new(reads) }
}

#[test]
fn decodes_hello() {
    let r = Incoming::deserialize(&[1, 0, b'a', b'b', b'c']);
    assert_eq!(r, Ok(Incoming::Hello { token: "abc".to_string() }));
}

#[test]
fn decodes_hello_with_empty_token() {
    let r = Incoming::deserialize(&[1, 0]);
    assert_eq!(r, Ok(Incoming::Hello { token: String::new() }));
}

#[test]
fn decodes_hello_with_invalid_utf8_lossily() {
    let r = Incoming::deserialize(&[1, 0, b'a', 0xff, b'b']);
    assert_eq!(r, Ok(Incoming::Hello { token: "a\u{fffd}b".to_string() }));
}

#[test]
fn decodes_each_direction() {
    let all = [
        (0u8, Direction::Idle),
        (1, Direction::Up),
        (2, Direction::Right),
        (3, Direction::Down),
        (4, Direction::Left),
    ];
    for (byte, direction) in all {
        assert_eq!(Incoming::deserialize(&[2, 0, byte]), Ok(Incoming::Move { direction }));
    }
}

#[test]
fn short_buffers_fail_with_their_bytes() {
    assert_eq!(Incoming::deserialize(&[]), Err(DecodeError::TooShort(vec![])));
    assert_eq!(Incoming::deserialize(&[1]), Err(DecodeError::TooShort(vec![1])));
}

#[test]
fn unknown_kind_fails() {
    assert_eq!(Incoming::deserialize(&[9, 0, 1]), Err(DecodeError::UnknownKind(9)));
    assert_eq!(Incoming::deserialize(&[1, 1]), Err(DecodeError::UnknownKind(257)));
    assert_eq!(Incoming::deserialize(&[0, 0]), Err(DecodeError::UnknownKind(0)));
}

#[test]
fn move_without_direction_fails() {
    assert_eq!(Incoming::deserialize(&[2, 0]), Err(DecodeError::MissingDirection));
}

#[test]
fn unknown_direction_fails() {
    assert_eq!(Incoming::deserialize(&[2, 0, 5]), Err(DecodeError::UnknownDirection(5)));
}

#[test]
fn incoming_round_trip() {
    let token = "t\u{f6}ken";
    let mut bytes = vec![1u8, 0];
    bytes.extend_from_slice(token.as_bytes());
    assert_eq!(Incoming::deserialize(&bytes), Ok(Incoming::Hello { token: token.to_string() }));
    assert_eq!(Incoming::deserialize(&[2, 0, 4]), Ok(Incoming::Move { direction: Direction::Left }));
}

#[test]
fn encodes_stop() {
    let m = Outgoing::Stop { id: "a".to_string(), position: Position { x: 1, y: -1, z: 2 } };
    assert_eq!(
        m.serialize(),
        Ok(vec![3, 0, b'a', 1, 0, 0, 0, 0xff, 0xff, 0xff, 0xff, 2, 0, 0, 0])
    );
}

#[test]
fn encodes_move() {
    let m = Outgoing::Move {
        id: "ab".to_string(),
        position: Position { x: 0, y: 0, z: 256 },
        duration: 300,
    };
    assert_eq!(
        m.serialize(),
        Ok(vec![2, 0, b'a', b'b', 0, 0, 0, 0, 0, 0, 0, 0, 0, 1, 0, 0, 44, 1, 0, 0, 0, 0, 0, 0])
    );
}

#[test]
fn encodes_hello_with_roster() {
    let m = Outgoing::Hello {
        id: "a".to_string(),
        map_id: "m".to_string(),
        actors: vec![("a".to_string(), Position { x: 0, y: 0, z: 0 }), ("b".to_string(), Position { x: 1, y: 0, z: 0 })],
    };
    assert_eq!(
        m.serialize(),
        Ok(vec![
            1, 0, b'a', b'm', b'a', 0, 0, 0, 0, 0, 0, 0, 0, 0, 0, 0, 0, b'b', 1, 0, 0, 0, 0, 0, 0, 0, 0, 0,
            0, 0
        ])
    );
}

#[test]
fn move_duration_too_long_fails() {
    let m = Outgoing::Move { id: "a".to_string(), position: Position { x: 0, y: 0, z: 0 }, duration: u64::MAX };
    assert_eq!(m.serialize(), Err(EncodeError::DurationOverflow));
    let m = Outgoing::Move {
        id: "a".to_string(),
        position: Position { x: 0, y: 0, z: 0 },
        duration: i64::MAX as u64,
    };
    assert!(m.serialize().is_ok());
}

#[test]
fn outgoing_round_trip_of_move() {
    let m = Outgoing::Move {
        id: "actor".to_string(),
        position: Position { x: -3, y: 7, z: i32::MIN },
        duration: 1234567,
    };
    let b = m.serialize().unwrap();
    let n = b.len();
    assert_eq!(u16::from_le_bytes([b[0], b[1]]), 2);
    assert_eq!(std::str::from_utf8(&b[2..n - 20]).unwrap(), "actor");
    assert_eq!(i32::from_le_bytes([b[n - 20], b[n - 19], b[n - 18], b[n - 17]]), -3);
    assert_eq!(i32::from_le_bytes([b[n - 16], b[n - 15], b[n - 14], b[n - 13]]), 7);
    assert_eq!(i32::from_le_bytes([b[n - 12], b[n - 11], b[n - 10], b[n - 9]]), i32::MIN);
    let mut d = [0u8; 8];
    d.copy_from_slice(&b[n - 8..]);
    assert_eq!(i64::from_le_bytes(d), 1234567);
}

#[test]
fn frames_a_packet() {
    let m = Outgoing::Stop { id: "a".to_string(), position: Position { x: 0, y: 0, z: 0 } };
    let buf = get_packet_buf(m).unwrap();
    assert_eq!(buf.len(), 17);
    assert_eq!(&buf[..4], &[15, 0, 3, 0]);
}

#[test]
fn frame_too_large_fails() {
    let m = Outgoing::Stop { id: "x".repeat(70000), position: Position { x: 0, y: 0, z: 0 } };
    assert_eq!(get_packet_buf(m), Err(EncodeError::TooLarge));
    let fits = Outgoing::Stop { id: "x".repeat(0xffff - 14), position: Position { x: 0, y: 0, z: 0 } };
    assert_eq!(get_packet_buf(fits).unwrap().len(), 0xffff + 2);
}

#[test]
fn frame_size_limits() {
    assert_eq!(frame_size(&[5]), Err(ReadError::Eof));
    assert_eq!(frame_size(&[]), Err(ReadError::Eof));
    assert_eq!(frame_size(&[0, 0]), Err(ReadError::EmptyFrame));
    assert_eq!(frame_size(&[0xa0, 0x1f]), Ok(8096));
    assert_eq!(frame_size(&[0xa1, 0x1f]), Err(ReadError::Oversize(8097)));
    assert_eq!(frame_size(&[3, 0]), Ok(3));
}

#[test]
fn reads_a_framed_packet() {
    let s = script(vec![Ok(vec![3, 0]), Ok(vec![2, 0, 1])]);
    assert_eq!(s.try_read_packet(), Ok(Incoming::Move { direction: Direction::Up }));
}

#[test]
fn read_that_would_block() {
    let s = script(vec![Err(IoFailure::WouldBlock)]);
    assert_eq!(s.try_read_packet(), Err(ReadError::WouldBlock));
}

#[test]
fn read_failures() {
    let s = script(vec![Err(IoFailure::Failed("reset".to_string()))]);
    assert_eq!(s.try_read_packet(), Err(ReadError::Io("reset".to_string())));
    let s = script(vec![Ok(vec![0, 0])]);
    assert_eq!(s.try_read_packet(), Err(ReadError::EmptyFrame));
    let s = script(vec![Ok(vec![0xff, 0xff])]);
    assert_eq!(s.try_read_packet(), Err(ReadError::Oversize(0xffff)));
    let s = script(vec![Ok(vec![2, 0]), Ok(vec![7, 0])]);
    assert_eq!(s.try_read_packet(), Err(ReadError::Malformed(DecodeError::UnknownKind(7))));
}
