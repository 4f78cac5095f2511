use vstd::prelude::*;

use crate::net::bytes::from_le16;
use crate::net::incoming::{DecodeError, Incoming};

verus! {

/// Largest frame body that a client may send.
pub const MAX_PACKET: u16 = 8096;

/// Why no message could be read from a socket.
#[derive(Clone, Debug, PartialEq, Eq)]
pub enum ReadError {
    /// Nothing is ready yet; try again on the next readiness signal.
    WouldBlock,
    /// The socket failed; the text says how.
    Io(String),
    /// The socket gave fewer than the two bytes of a length prefix.
    Eof,
    /// The length prefix is zero.
    EmptyFrame,
    /// The length prefix exceeds the largest allowed frame.
    Oversize(u16),
    /// The frame's body is not a message.
    Malformed(DecodeError),
}

/// The body length that a frame's two-byte prefix announces, checked against the limits.
pub fn frame_size(header: &[u8]) -> (r: Result<usize, ReadError>)
    ensures
        header@.len() < 2 <==> r matches Err(ReadError::Eof),
        header@.len() >= 2 && from_le16(header@[0], header@[1]) == 0 <==> r matches Err(
            ReadError::EmptyFrame,
        ),
        header@.len() >= 2 && from_le16(header@[0], header@[1]) > MAX_PACKET <==> r matches Err(
            ReadError::Oversize(_),
        ),
        r matches Err(ReadError::Oversize(n)) ==> n == from_le16(header@[0], header@[1]),
        r matches Ok(n) ==> header@.len() >= 2 && n == from_le16(header@[0], header@[1]) && 0 < n
            <= MAX_PACKET,
        r is Ok || r matches Err(ReadError::Eof) || r matches Err(ReadError::EmptyFrame)
            || r matches Err(ReadError::Oversize(_)),
{
    if header.len() < 2 {
        return Err(ReadError::Eof);
    }
    let size: u16 = header[0] as u16 + (header[1] as u16) * 256;
    if size == 0 {
        return Err(ReadError::EmptyFrame);
    }
    if size > MAX_PACKET {
        return Err(ReadError::Oversize(size));
    }
    Ok(size as usize)
}

/// How a non-blocking read of a socket failed.
#[derive(Clone, Debug, PartialEq, Eq)]
pub enum IoFailure {
    /// Nothing is ready yet.
    WouldBlock,
    /// The socket failed; the text says how.
    Failed(String),
}

fn read_error(e: IoFailure) -> (r: ReadError)
    ensures
        e is WouldBlock ==> r is WouldBlock,
        e matches IoFailure::Failed(t) ==> r == ReadError::Io(t),
{
    match e {
        IoFailure::WouldBlock => ReadError::WouldBlock,
        IoFailure::Failed(t) => ReadError::Io(t),
    }
}

/// A socket from which framed messages are read without blocking.
pub trait Reader {
    /// Reads, without blocking, at most `max` bytes that are ready.
    fn try_read_buf(&self, max: usize) -> Result<Vec<u8>, IoFailure>;

    /// Reads one frame: the two-byte length prefix, then a body of that length, decoded.
    fn try_read_packet(&self) -> (r: Result<Incoming, ReadError>)
        ensures
            r matches Err(ReadError::Oversize(n)) ==> n > MAX_PACKET,
    {
        let header = match self.try_read_buf(2) {
            Ok(b) => b,
            Err(e) => return Err(read_error(e)),
        };
        let size = frame_size(header.as_slice())?;
        let body = match self.try_read_buf(size) {
            Ok(b) => b,
            Err(e) => return Err(read_error(e)),
        };
        match Incoming::deserialize(body.as_slice()) {
            Ok(packet) => Ok(packet),
            Err(e) => Err(ReadError::Malformed(e)),
        }
    }
}

} // verus!
