//! Frames: how messages follow each other on a connection.
//!
//! A frame is the length of its payload, as four bytes with the highest first,
//! and the payload.

use vstd::prelude::*;

use crate::codec;
use crate::protocol::Message;
use crate::wire::WireError;

verus! {

/// The longest payload that is read while two nodes meet: 10 MiB.
pub const MEETING_LIMIT: u32 = 10_485_760;

/// The longest payload that is read from a peer: 100 MiB.
pub const PEER_LIMIT: u32 = 104_857_600;

/// The number `n` in four bytes, the highest first.
pub open spec fn be_bytes(n: int) -> Seq<u8> {
    seq![
        (n / 16_777_216 % 256) as u8,
        (n / 65_536 % 256) as u8,
        (n / 256 % 256) as u8,
        (n % 256) as u8,
    ]
}

/// The number in four bytes, the highest first.
pub open spec fn be_value(b: Seq<u8>) -> int {
    16_777_216 * b[0] + 65_536 * b[1] + 256 * b[2] + b[3]
}

/// The frame of a payload. The header holds the length modulo 2 to the 32.
pub open spec fn frame_bytes(payload: Seq<u8>) -> Seq<u8> {
    be_bytes(payload.len() as int % 4_294_967_296) + payload
}

/// The frame of a payload.
pub fn framed(payload: &[u8]) -> (res: Vec<u8>)
    ensures
        res@ == frame_bytes(payload@),
{
    let len: u64 = payload.len() as u64 % 4_294_967_296;
    let mut res: Vec<u8> = Vec::new();
    res.push((len / 16_777_216 % 256) as u8);
    res.push((len / 65_536 % 256) as u8);
    res.push((len / 256 % 256) as u8);
    res.push((len % 256) as u8);
    res.extend_from_slice(payload);
    assert(res@ =~= frame_bytes(payload@));
    res
}

/// The frame of a message.
pub fn frame_message(message: &Message) -> (res: Result<Vec<u8>, WireError>)
    ensures
        res is Ok,
        res->Ok_0@ == frame_bytes(codec::message_bytes(message@)),
{
    let payload = message.to_bytes()?;
    Ok(framed(payload.as_slice()))
}

/// The length of the payload after `header`, unless it is over `limit`.
pub fn payload_len(header: &[u8; 4], limit: u32) -> (res: Result<u32, u32>)
    ensures
        be_value(header@) <= limit ==> res == Ok::<u32, u32>(be_value(header@) as u32),
        be_value(header@) > limit ==> res == Err::<u32, u32>(be_value(header@) as u32),
        0 <= be_value(header@) <= u32::MAX,
{
    let len: u32 = 16_777_216 * (header[0] as u32) + 65_536 * (header[1] as u32) + 256 * (
    header[2] as u32) + header[3] as u32;
    if len > limit {
        Err(len)
    } else {
        Ok(len)
    }
}

/// The header of a frame says how long its payload is, if the payload is
/// shorter than 2 to the 32.
pub proof fn header_tells_length(payload: Seq<u8>)
    requires
        payload.len() <= u32::MAX,
    ensures
        be_value(frame_bytes(payload).take(4)) == payload.len(),
        frame_bytes(payload).skip(4) == payload,
{
    assert(frame_bytes(payload).take(4) =~= be_bytes(payload.len() as int));
    assert(frame_bytes(payload).skip(4) =~= payload);
}

/// What follows a frame on a connection is the next frame: the header tells
/// where the payload ends.
pub proof fn frames_do_not_run_together(payload: Seq<u8>, rest: Seq<u8>)
    requires
        payload.len() <= u32::MAX,
    ensures
        ({
            let stream = frame_bytes(payload) + rest;
            let len = be_value(stream.take(4));
            &&& stream.subrange(4, 4 + len) == payload
            &&& stream.skip(4 + len) == rest
        }),
{
    header_tells_length(payload);
    let stream = frame_bytes(payload) + rest;
    assert(stream.take(4) =~= frame_bytes(payload).take(4));
    assert(stream.subrange(4, 4 + payload.len() as int) =~= payload);
    assert(stream.skip(4 + payload.len() as int) =~= rest);
}

/// The frame of a payload below 2 to the 32 bytes is its length in four bytes,
/// the highest first, and then the payload.
pub proof fn frames_start_with_the_length(payload: &[u8], res: Vec<u8>)
    requires
        call_ensures(framed, (payload,), res),
        payload@.len() < 4294967296,
    ensures
        res@.len() == 4 + payload@.len(),
        res@[0] * 16777216 + res@[1] * 65536 + res@[2] * 256 + res@[3] == payload@.len(),
        res@.skip(4) == payload@,
{
    header_tells_length(payload@);
    let head = res@.take(4);
    assert(head[0] == res@[0] && head[1] == res@[1] && head[2] == res@[2] && head[3] == res@[3]);
}

/// The length that a header tells is read if it is within the limit, and else
/// refused.
pub proof fn lengths_are_limited(header: &[u8; 4], limit: u32, res: Result<u32, u32>)
    requires
        call_ensures(payload_len, (header, limit), res),
    ensures
        ({
            let n = header@[0] * 16777216 + header@[1] * 65536 + header@[2] * 256 + header@[3];
            res == if n <= limit {
                Ok::<u32, u32>(n as u32)
            } else {
                Err::<u32, u32>(n as u32)
            }
        }),
{
}

/// The frame of a message is the frame of its bytes.
pub proof fn messages_are_framed(
    message: Message,
    bytes: Vec<u8>,
    res: Result<Vec<u8>, WireError>,
)
    requires
        call_ensures(Message::to_bytes, (&message,), Ok(bytes)),
        call_ensures(frame_message, (&message,), res),
        bytes@.len() < 4294967296,
    ensures
        res matches Ok(b) && b@.len() == 4 + bytes@.len() && b@[0] * 16777216 + b@[1] * 65536
            + b@[2] * 256 + b@[3] == bytes@.len() && b@.skip(4) == bytes@,
{
    let b = res->Ok_0;
    header_tells_length(bytes@);
    let head = b@.take(4);
    assert(head[0] == b@[0] && head[1] == b@[1] && head[2] == b@[2] && head[3] == b@[3]);
}

} // verus!
