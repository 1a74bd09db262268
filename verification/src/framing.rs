//! Frames: a byte string on a stream, after its length as a big-endian
//! 32-bit number.

use vstd::prelude::*;

use crate::bytes::append_bytes;
use crate::bytes::be_u32;
use crate::bytes::copy_range;
use crate::bytes::from_be_u32;
use crate::bytes::get_u32;
use crate::bytes::lemma_be_u32_roundtrip;
use crate::bytes::put_u32;

verus! {

/// Why a byte string cannot be framed.
#[derive(Debug, Clone, Copy, PartialEq, Eq, Structural)]
pub enum FrameError {
    /// The payload is longer than a 32-bit length can say.
    TooLarge,
}

/// What stands at the front of a buffer of received bytes.
#[derive(Debug)]
pub enum Framed {
    /// A whole frame with this payload, which takes up `consumed` bytes.
    Frame { payload: Vec<u8>, consumed: usize },
    /// Less than a whole frame: more bytes are to be read.
    Incomplete,
}

/// The frame that carries a payload.
pub open spec fn frame_of(payload: Seq<u8>) -> Seq<u8> {
    be_u32(payload.len() as u32) + payload
}

/// The payload of the frame at the front of `buf`, if a whole frame stands there.
pub open spec fn first_payload(buf: Seq<u8>) -> Option<Seq<u8>> {
    if buf.len() >= 4 && buf.len() - 4 >= from_be_u32(buf) {
        Some(buf.subrange(4, 4 + from_be_u32(buf)))
    } else {
        None
    }
}

/// The frame of a payload, with whatever follows it, holds that payload
/// at its front.
pub proof fn lemma_frame_roundtrip(payload: Seq<u8>, rest: Seq<u8>)
    requires
        payload.len() <= u32::MAX,
    ensures
        frame_of(payload).len() == 4 + payload.len(),
        first_payload(frame_of(payload) + rest) == Some(payload),
{
    let s = frame_of(payload) + rest;
    assert(s =~= be_u32(payload.len() as u32) + (payload + rest));
    lemma_be_u32_roundtrip(payload.len() as u32, payload + rest);
    assert(s.subrange(4, 4 + payload.len() as int) =~= payload);
}

/// The frame that carries `payload`. A payload of more than 2^32 - 1
/// bytes is refused.
pub fn encode_frame(payload: &[u8]) -> (r: Result<Vec<u8>, FrameError>)
    ensures
        payload@.len() <= u32::MAX ==> r is Ok && r.unwrap()@ == frame_of(payload@),
        payload@.len() > u32::MAX ==> r == Err::<Vec<u8>, FrameError>(FrameError::TooLarge),
{
    let n = payload.len();
    if n > u32::MAX as usize {
        return Err(FrameError::TooLarge);
    }
    let mut out: Vec<u8> = Vec::new();
    put_u32(&mut out, n as u32);
    append_bytes(&mut out, payload);
    assert(out@ =~= frame_of(payload@));
    Ok(out)
}

/// The length of the payload that follows a frame's four-byte header.
pub fn frame_length(header: &[u8; 4]) -> (n: u32)
    ensures
        n == from_be_u32(header@),
{
    let n = get_u32(header.as_slice(), 0);
    proof {
        assert(header@.subrange(0, 4) =~= header@);
    }
    n
}

/// The frame at the front of a buffer of received bytes, if a whole frame
/// stands there.
pub fn decode_frame(buf: &[u8]) -> (r: Framed)
    ensures
        match r {
            Framed::Frame { payload, consumed } => {
                &&& first_payload(buf@) == Some(payload@)
                &&& consumed == 4 + payload@.len()
            },
            Framed::Incomplete => first_payload(buf@).is_none(),
        },
{
    let total = buf.len();
    if total < 4 {
        return Framed::Incomplete;
    }
    let n = get_u32(buf, 0);
    proof {
        assert(buf@.subrange(0, total as int) =~= buf@);
    }
    if (total - 4) as u64 >= n as u64 {
        let len = n as usize;
        let payload = copy_range(buf, 4, 4 + len);
        Framed::Frame { payload, consumed: 4 + len }
    } else {
        Framed::Incomplete
    }
}

} // verus!
