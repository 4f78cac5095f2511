use vstd::prelude::*;
use vstd::utf8::{decode_utf8, encode_utf8, valid_utf8};

use crate::model::Direction;
use crate::net::bytes::{from_le16, le16};

verus! {

broadcast use vstd::utf8::encode_utf8_valid_utf8, vstd::utf8::encode_utf8_decode_utf8;

/// A message that a client sends to the server.
#[derive(Clone, Debug, PartialEq, Eq)]
pub enum Incoming {
    Hello { token: String },
    Move { direction: Direction },
}

/// Why a buffer is not a message.
#[derive(Clone, Debug, PartialEq, Eq)]
pub enum DecodeError {
    /// Fewer than two bytes, too few to hold the kind; the bytes are kept.
    TooShort(Vec<u8>),
    /// A kind that no message has.
    UnknownKind(u16),
    /// A move without its direction byte.
    MissingDirection,
    /// A direction byte outside 0 to 4.
    UnknownDirection(u8),
}

/// Kind tag of a hello message.
pub const HELLO: u16 = 1;

/// Kind tag of a move message.
pub const MOVE: u16 = 2;

/// The text that `b` decodes to where `from_utf8_lossy` replaces ill-formed sequences.
pub uninterp spec fn utf8_lossy(b: Seq<u8>) -> Seq<char>;

/// Text of a message body: the UTF-8 it holds, or its lossy decoding.
pub open spec fn body_text(b: Seq<u8>) -> Seq<char> {
    if valid_utf8(b) {
        decode_utf8(b)
    } else {
        utf8_lossy(b)
    }
}

/// Relies on `String::from_utf8_lossy`: valid UTF-8 comes back as the text it encodes;
/// other input as the lossy decoding, a function of the bytes alone.
#[verifier::external_body]
fn lossy_text(b: &[u8]) -> (r: String)
    ensures
        r@ == (if valid_utf8(b@) {
            decode_utf8(b@)
        } else {
            utf8_lossy(b@)
        }),
{
    String::from_utf8_lossy(b).into_owned()
}

/// The direction that a wire byte names.
pub open spec fn direction_of(b: u8) -> Option<Direction> {
    if b == 0 {
        Some(Direction::Idle)
    } else if b == 1 {
        Some(Direction::Up)
    } else if b == 2 {
        Some(Direction::Right)
    } else if b == 3 {
        Some(Direction::Down)
    } else if b == 4 {
        Some(Direction::Left)
    } else {
        None
    }
}

/// The wire byte of a direction.
pub open spec fn direction_byte(d: Direction) -> u8 {
    match d {
        Direction::Idle => 0,
        Direction::Up => 1,
        Direction::Right => 2,
        Direction::Down => 3,
        Direction::Left => 4,
    }
}

/// The kind tag at the head of a buffer of at least two bytes.
pub open spec fn kind_of(b: Seq<u8>) -> int {
    from_le16(b[0], b[1])
}

/// The token of the hello message that `b` holds, if it holds one.
pub open spec fn hello_token(b: Seq<u8>) -> Option<Seq<char>> {
    if b.len() >= 2 && kind_of(b) == HELLO {
        Some(body_text(b.subrange(2, b.len() as int)))
    } else {
        None
    }
}

/// The direction of the move message that `b` holds, if it holds one.
pub open spec fn move_direction(b: Seq<u8>) -> Option<Direction> {
    if b.len() >= 3 && kind_of(b) == MOVE {
        direction_of(b[2])
    } else {
        None
    }
}

/// The bytes of a hello message as a client sends them.
pub open spec fn hello_bytes(token: Seq<char>) -> Seq<u8> {
    le16(HELLO as int) + encode_utf8(token)
}

/// The bytes of a move message as a client sends them.
pub open spec fn move_bytes(d: Direction) -> Seq<u8> {
    le16(MOVE as int) + seq![direction_byte(d)]
}

fn direction_from_byte(b: u8) -> (r: Option<Direction>)
    ensures
        r == direction_of(b),
{
    match b {
        0 => Some(Direction::Idle),
        1 => Some(Direction::Up),
        2 => Some(Direction::Right),
        3 => Some(Direction::Down),
        4 => Some(Direction::Left),
        _ => None,
    }
}

impl Incoming {
    /// Decodes a message from its kind tag and body (the frame's length prefix removed).
    pub fn deserialize(buf: &[u8]) -> (r: Result<Incoming, DecodeError>)
        ensures
            match r {
                Ok(Incoming::Hello { token }) => hello_token(buf@) == Some(token@),
                Ok(Incoming::Move { direction }) => move_direction(buf@) == Some(direction),
                Err(DecodeError::TooShort(v)) => buf@.len() < 2 && v@ == buf@,
                Err(DecodeError::UnknownKind(k)) => buf@.len() >= 2 && kind_of(buf@) == k
                    && k != HELLO && k != MOVE,
                Err(DecodeError::MissingDirection) => buf@.len() == 2 && kind_of(buf@) == MOVE,
                Err(DecodeError::UnknownDirection(x)) => buf@.len() >= 3 && kind_of(buf@)
                    == MOVE && x == buf@[2] && direction_of(x) is None,
            },
    {
        if buf.len() < 2 {
            let mut v: Vec<u8> = Vec::new();
            crate::net::bytes::push_bytes(&mut v, buf);
            return Err(DecodeError::TooShort(v));
        }
        let kind: u16 = buf[0] as u16 + (buf[1] as u16) * 256;
        if kind == HELLO {
            let body = vstd::slice::slice_subrange(buf, 2, buf.len());
            let token = lossy_text(body);
            Ok(Incoming::Hello { token })
        } else if kind == MOVE {
            if buf.len() < 3 {
                return Err(DecodeError::MissingDirection);
            }
            match direction_from_byte(buf[2]) {
                Some(direction) => Ok(Incoming::Move { direction }),
                None => Err(DecodeError::UnknownDirection(buf[2])),
            }
        } else {
            Err(DecodeError::UnknownKind(kind))
        }
    }
}

/// Decoding the bytes that a client sends for a message gives that message back.
pub proof fn lemma_incoming_round_trip(token: Seq<char>, d: Direction)
    ensures
        hello_token(hello_bytes(token)) == Some(token),
        move_direction(move_bytes(d)) == Some(d),
        hello_bytes(token).len() >= 2,
        move_direction(hello_bytes(token)) is None,
        hello_token(move_bytes(d)) is None,
{
    let h = hello_bytes(token);
    assert(h.subrange(2, h.len() as int) =~= encode_utf8(token));
}

} // verus!
