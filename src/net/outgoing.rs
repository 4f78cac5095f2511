use vstd::prelude::*;
use vstd::utf8::{decode_utf8, encode_utf8, valid_utf8};

use crate::model::{coords, Position};
use crate::net::bytes::{
    from_le64, le16, le64, lemma_le64, lemma_position, position_bytes, position_of, push_bytes,
    push_position, push_u16, push_u64,
};
use crate::net::incoming::kind_of;

verus! {

broadcast use vstd::utf8::encode_utf8_valid_utf8, vstd::utf8::encode_utf8_decode_utf8;

/// A message that the server sends to clients.
#[derive(Clone, Debug, PartialEq, Eq)]
pub enum Outgoing {
    /// Greeting to a newly placed actor: its id, the map's id and who is where.
    Hello { id: String, map_id: String, actors: Vec<(String, Position)> },
    /// An actor stepped onto `position`; the step lasts `duration` milliseconds.
    Move { id: String, position: Position, duration: u64 },
    /// An actor stands still at `position`.
    Stop { id: String, position: Position },
}

/// Why a message cannot be put on the wire.
#[derive(Clone, Copy, Debug, PartialEq, Eq, Structural)]
pub enum EncodeError {
    /// A move's duration does not fit the signed 64-bit milliseconds field.
    DurationOverflow,
    /// The encoded message is longer than the 16-bit length prefix can state.
    TooLarge,
}

/// Kind tags of the outgoing messages.
pub const HELLO: u16 = 1;

pub const MOVE: u16 = 2;

pub const STOP: u16 = 3;

/// Largest duration that the wire's signed milliseconds field holds.
pub const MAX_DURATION: u64 = 0x7fff_ffff_ffff_ffff;

/// UTF-8 bytes of each roster entry's id followed by its position, in order.
pub open spec fn roster_bytes(a: Seq<(String, Position)>) -> Seq<u8>
    decreases a.len(),
{
    if a.len() == 0 {
        Seq::empty()
    } else {
        roster_bytes(a.drop_last()) + encode_utf8(a.last().0@) + position_bytes(a.last().1)
    }
}

/// Kind tag followed by the message's fields, each fixed-width integer little-endian and
/// each text as its UTF-8 bytes.
pub open spec fn outgoing_bytes(m: Outgoing) -> Seq<u8> {
    match m {
        Outgoing::Hello { id, map_id, actors } => le16(HELLO as int) + encode_utf8(id@)
            + encode_utf8(map_id@) + roster_bytes(actors@),
        Outgoing::Move { id, position, duration } => le16(MOVE as int) + encode_utf8(id@)
            + position_bytes(position) + le64(duration as int),
        Outgoing::Stop { id, position } => le16(STOP as int) + encode_utf8(id@) + position_bytes(
            position,
        ),
    }
}

/// Whether a message can be encoded at all.
pub open spec fn encodable(m: Outgoing) -> bool {
    m matches Outgoing::Move { duration, .. } ==> duration <= MAX_DURATION
}

/// The id, position and duration of a move message, read from its bytes.
pub open spec fn decoded_move(b: Seq<u8>) -> Option<(Seq<char>, (int, int, int), int)> {
    let n = b.len() as int;
    if n >= 22 && kind_of(b) == MOVE && valid_utf8(b.subrange(2, n - 20)) {
        Some(
            (
                decode_utf8(b.subrange(2, n - 20)),
                position_of(b.subrange(n - 20, n - 8)),
                from_le64(b.subrange(n - 8, n)),
            ),
        )
    } else {
        None
    }
}

/// The id and position of a stop message, read from its bytes.
pub open spec fn decoded_stop(b: Seq<u8>) -> Option<(Seq<char>, (int, int, int))> {
    let n = b.len() as int;
    if n >= 14 && kind_of(b) == STOP && valid_utf8(b.subrange(2, n - 12)) {
        Some((decode_utf8(b.subrange(2, n - 12)), position_of(b.subrange(n - 12, n))))
    } else {
        None
    }
}

fn push_text(out: &mut Vec<u8>, s: &String)
    ensures
        final(out)@ == old(out)@ + encode_utf8(s@),
{
    push_bytes(out, s.as_str().as_bytes());
}

impl Outgoing {
    /// Encodes the message: kind tag and fields, without the length prefix.
    pub fn serialize(self) -> (r: Result<Vec<u8>, EncodeError>)
        ensures
            encodable(self) <==> r is Ok,
            r matches Ok(v) ==> v@ == outgoing_bytes(self),
            r matches Err(e) ==> e == EncodeError::DurationOverflow,
    {
        let mut out: Vec<u8> = Vec::new();
        match self {
            Outgoing::Hello { id, map_id, actors } => {
                push_u16(&mut out, HELLO);
                push_text(&mut out, &id);
                push_text(&mut out, &map_id);
                let ghost head = out@;
                let mut i: usize = 0;
                while i < actors.len()
                    invariant
                        i <= actors@.len(),
                        out@ == head + roster_bytes(actors@.subrange(0, i as int)),
                    decreases actors@.len() - i,
                {
                    let ghost before = actors@.subrange(0, i as int);
                    push_text(&mut out, &actors[i].0);
                    push_position(&mut out, actors[i].1);
                    i = i + 1;
                    assert(actors@.subrange(0, i as int).drop_last() =~= before);
                    assert(out@ =~= head + roster_bytes(actors@.subrange(0, i as int)));
                }
                assert(actors@.subrange(0, i as int) =~= actors@);
                assert(out@ =~= le16(HELLO as int) + encode_utf8(id@) + encode_utf8(map_id@)
                    + roster_bytes(actors@));
                Ok(out)
            },
            Outgoing::Move { id, position, duration } => {
                if duration > MAX_DURATION {
                    return Err(EncodeError::DurationOverflow);
                }
                push_u16(&mut out, MOVE);
                push_text(&mut out, &id);
                push_position(&mut out, position);
                push_u64(&mut out, duration);
                assert(out@ =~= le16(MOVE as int) + encode_utf8(id@) + position_bytes(position)
                    + le64(duration as int));
                Ok(out)
            },
            Outgoing::Stop { id, position } => {
                push_u16(&mut out, STOP);
                push_text(&mut out, &id);
                push_position(&mut out, position);
                assert(out@ =~= le16(STOP as int) + encode_utf8(id@) + position_bytes(position));
                Ok(out)
            },
        }
    }
}

/// Reading a move or stop message back from its bytes gives its fields.
pub proof fn lemma_outgoing_round_trip(m: Outgoing)
    requires
        encodable(m),
    ensures
        m matches Outgoing::Move { id, position, duration } ==> decoded_move(outgoing_bytes(m))
            == Some((id@, coords(position), duration as int)),
        m matches Outgoing::Stop { id, position } ==> decoded_stop(outgoing_bytes(m)) == Some(
            (id@, coords(position)),
        ),
{
    let b = outgoing_bytes(m);
    let n = b.len() as int;
    match m {
        Outgoing::Move { id, position, duration } => {
            let t = encode_utf8(id@);
            lemma_position(position);
            lemma_le64(duration as int);
            assert(b.subrange(2, n - 20) =~= t);
            assert(b.subrange(n - 20, n - 8) =~= position_bytes(position));
            assert(b.subrange(n - 8, n) =~= le64(duration as int));
        },
        Outgoing::Stop { id, position } => {
            let t = encode_utf8(id@);
            lemma_position(position);
            assert(b.subrange(2, n - 12) =~= t);
            assert(b.subrange(n - 12, n) =~= position_bytes(position));
        },
        Outgoing::Hello { .. } => {},
    }
}

} // verus!
