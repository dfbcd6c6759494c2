//! Length-prefixed framing shared by both transports.
//!
//! A frame is a 4-byte little-endian unsigned 32-bit length `n` followed by
//! exactly `n` body bytes. The declared length always equals the byte length
//! of the body; there is no checksum or version field.

use vstd::prelude::*;

verus! {

use vstd::array::array_as_slice;
use vstd::bytes::lemma_auto_spec_u32_to_from_le_bytes;
use vstd::bytes::spec_u32_from_le_bytes;
use vstd::bytes::spec_u32_to_le_bytes;
use vstd::bytes::u32_from_le_bytes;
use vstd::bytes::u32_to_le_bytes;

use crate::models::TransportError;

/// Byte sequence of a whole frame: the little-endian 32-bit length prefix
/// followed by the body itself.
pub open spec fn frame_of(body: Seq<u8>) -> Seq<u8>
    recommends
        body.len() <= u32::MAX,
{
    spec_u32_to_le_bytes(body.len() as u32) + body
}

/// The body length declared by a frame's 4-byte prefix.
pub open spec fn declared_len(buf: Seq<u8>) -> int
    recommends
        buf.len() >= 4,
{
    spec_u32_from_le_bytes(buf.subrange(0, 4)) as int
}

/// True when `buf` begins with one complete frame: a full length prefix and
/// at least as many body bytes as the prefix declares.
pub open spec fn holds_frame(buf: Seq<u8>) -> bool {
    buf.len() >= 4 && buf.len() - 4 >= declared_len(buf)
}

/// The length prefix for a frame body of `len` bytes.
pub fn serialize_length(len: usize) -> (r: [u8; 4])
    requires
        len <= u32::MAX,
    ensures
        r@ == spec_u32_to_le_bytes(len as u32),
{
    let v = u32_to_le_bytes(len as u32);
    let r = [v[0], v[1], v[2], v[3]];
    proof {
        assert(r@ =~= spec_u32_to_le_bytes(len as u32));
    }
    r
}

/// The body length declared by a frame's 4-byte prefix.
pub fn deserialize_length(len_buf: &[u8; 4]) -> (r: usize)
    ensures
        r == spec_u32_from_le_bytes(len_buf@),
{
    u32_from_le_bytes(array_as_slice(len_buf)) as usize
}

/// Encodes `body` as one frame: its 4-byte little-endian length, then the
/// body bytes themselves.
pub fn encode_frame(body: &Vec<u8>) -> (r: Vec<u8>)
    requires
        body@.len() <= u32::MAX,
    ensures
        r@ == frame_of(body@),
        r@.len() == body@.len() + 4,
{
    proof {
        lemma_auto_spec_u32_to_from_le_bytes();
    }
    let mut r = u32_to_le_bytes(body.len() as u32);
    let mut i: usize = 0;
    while i < body.len()
        invariant
            i <= body@.len(),
            body@.len() <= u32::MAX,
            r@ == spec_u32_to_le_bytes(body@.len() as u32) + body@.subrange(0, i as int),
        decreases body@.len() - i,
    {
        r.push(body[i]);
        proof {
            assert(r@ =~= spec_u32_to_le_bytes(body@.len() as u32)
                + body@.subrange(0, i + 1 as int));
        }
        i = i + 1;
    }
    proof {
        assert(body@.subrange(0, body@.len() as int) =~= body@);
    }
    r
}

/// Reads one frame from the front of `buf`.
///
/// Succeeds exactly when `buf` holds a complete length prefix and at least
/// as many body bytes as the prefix declares; then it returns exactly those
/// body bytes together with the total number of bytes consumed. A buffer
/// that ends mid-prefix or mid-body is a `TransportError`.
pub fn decode_frame(buf: &Vec<u8>) -> (r: Result<(Vec<u8>, usize), TransportError>)
    ensures
        match r {
            Ok((body, used)) => {
                &&& holds_frame(buf@)
                &&& body@ == buf@.subrange(4, 4 + declared_len(buf@))
                &&& used == 4 + declared_len(buf@)
            },
            Err(e) => !holds_frame(buf@) && e == TransportError,
        },
{
    if buf.len() < 4 {
        return Err(TransportError);
    }
    let len_buf = [buf[0], buf[1], buf[2], buf[3]];
    proof {
        assert(len_buf@ =~= buf@.subrange(0, 4));
    }
    let n = deserialize_length(&len_buf);
    if buf.len() - 4 < n {
        return Err(TransportError);
    }
    let mut body: Vec<u8> = Vec::new();
    let mut i: usize = 0;
    while i < n
        invariant
            i <= n,
            n == declared_len(buf@),
            buf@.len() - 4 >= n,
            buf@.len() <= usize::MAX,
            body@ == buf@.subrange(4, 4 + i as int),
        decreases n - i,
    {
        body.push(buf[4 + i]);
        proof {
            assert(body@ =~= buf@.subrange(4, 4 + (i + 1) as int));
        }
        i = i + 1;
    }
    Ok((body, 4 + n))
}

/// Round trip of the framing codec: a frame encoded from any body decodes
/// back to exactly that body, whatever bytes follow it in the buffer.
pub proof fn lemma_frame_round_trip(body: Seq<u8>, rest: Seq<u8>)
    requires
        body.len() <= u32::MAX,
    ensures
        holds_frame(frame_of(body) + rest),
        declared_len(frame_of(body) + rest) == body.len(),
        (frame_of(body) + rest).subrange(4, 4 + body.len() as int) == body,
{
    lemma_auto_spec_u32_to_from_le_bytes();
    let buf = frame_of(body) + rest;
    assert(buf.subrange(0, 4) =~= spec_u32_to_le_bytes(body.len() as u32));
    assert(buf.subrange(4, 4 + body.len() as int) =~= body);
}

} // verus!
