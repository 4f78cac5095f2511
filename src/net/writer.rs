use vstd::prelude::*;

use crate::net::bytes::{le16, push_bytes, push_u16};
use crate::net::outgoing::{encodable, outgoing_bytes, EncodeError, Outgoing};

verus! {

/// Largest body that the 16-bit length prefix can state.
pub const MAX_FRAME: usize = 0xffff;

/// The frame of a message's bytes: their length as two little-endian bytes, then the bytes.
pub open spec fn frame(body: Seq<u8>) -> Seq<u8> {
    le16(body.len() as int) + body
}

/// Encodes a message and puts the length prefix in front of it.
pub fn get_packet_buf(packet: Outgoing) -> (r: Result<Vec<u8>, EncodeError>)
    ensures
        !encodable(packet) ==> r == Err::<Vec<u8>, EncodeError>(EncodeError::DurationOverflow),
        encodable(packet) && outgoing_bytes(packet).len() > MAX_FRAME ==> r == Err::<
            Vec<u8>,
            EncodeError,
        >(EncodeError::TooLarge),
        encodable(packet) && outgoing_bytes(packet).len() <= MAX_FRAME ==> (r matches Ok(v) && v@
            == frame(outgoing_bytes(packet))),
{
    let buf = packet.serialize()?;
    if buf.len() > MAX_FRAME {
        return Err(EncodeError::TooLarge);
    }
    let mut out: Vec<u8> = Vec::new();
    push_u16(&mut out, buf.len() as u16);
    push_bytes(&mut out, buf.as_slice());
    Ok(out)
}

} // verus!
