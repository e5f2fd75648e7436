//! Framing: each message on the wire is a 32-bit little-endian length
//! header followed by exactly that many payload bytes.
//!
//! `FrameBuf` is the receiving half: bytes arrive in chunks of whatever size
//! the stream yields, and a frame is handed out only once every byte of it
//! is present — a partial frame stays buffered and is never misread as a
//! complete one.

use vstd::prelude::*;
use vstd::bytes::u32_from_le_bytes;
use vstd::bytes::u32_to_le_bytes;
use vstd::bytes::spec_u32_to_le_bytes;
use vstd::bytes::spec_u32_from_le_bytes;
use vstd::bytes::lemma_auto_spec_u32_to_from_le_bytes;
use vstd::slice::slice_subrange;
use vstd::slice::slice_to_vec;

use crate::TransportError;

verus! {

/// The number of bytes in a length header.
pub const HEADER_LEN: usize = 4;

/// The frame that carries a payload: its length as a 32-bit little-endian
/// header, then the payload itself.
pub open spec fn frame_of(payload: Seq<u8>) -> Seq<u8>
    recommends
        payload.len() <= u32::MAX,
{
    spec_u32_to_le_bytes(payload.len() as u32) + payload
}

/// The payload length the header at the front of `b` declares.
pub open spec fn frame_len(b: Seq<u8>) -> int
    recommends
        b.len() >= HEADER_LEN,
{
    spec_u32_from_le_bytes(b.take(HEADER_LEN as int)) as int
}

/// Whether `b` begins with a complete frame: a full header, and every byte
/// of the payload it declares.
pub open spec fn has_complete_frame(b: Seq<u8>) -> bool {
    b.len() >= HEADER_LEN && b.len() >= HEADER_LEN + frame_len(b)
}

/// The payload of the complete frame at the front of `b`.
pub open spec fn frame_payload(b: Seq<u8>) -> Seq<u8>
    recommends
        has_complete_frame(b),
{
    b.subrange(HEADER_LEN as int, HEADER_LEN + frame_len(b))
}

/// What follows the complete frame at the front of `b`.
pub open spec fn frame_rest(b: Seq<u8>) -> Seq<u8>
    recommends
        has_complete_frame(b),
{
    b.skip(HEADER_LEN + frame_len(b))
}

/// How many more bytes must arrive before the frame at the front of `b` is
/// complete; zero when one already is.
pub open spec fn spec_needed(b: Seq<u8>) -> int {
    if b.len() < HEADER_LEN {
        HEADER_LEN - b.len()
    } else if b.len() < HEADER_LEN + frame_len(b) {
        HEADER_LEN + frame_len(b) - b.len()
    } else {
        0
    }
}

/// The frame for a payload, or an error where the payload cannot be
/// declared in a 32-bit header.
pub fn encode_frame(payload: Vec<u8>) -> (r: Result<Vec<u8>, TransportError>)
    ensures
        payload@.len() <= u32::MAX ==> (r matches Ok(f) && f@ == frame_of(payload@)),
        payload@.len() > u32::MAX ==> (r matches Err(e) && e == TransportError::RequestTooLarge),
{
    if payload.len() as u64 > u32::MAX as u64 {
        return Result::Err(TransportError::RequestTooLarge);
    }
    let mut out = u32_to_le_bytes(payload.len() as u32);
    out.extend_from_slice(payload.as_slice());
    proof {
        assert(out@ =~= frame_of(payload@));
    }
    Result::Ok(out)
}

/// The receive buffer: bytes read off the stream but not yet consumed as
/// frames.
pub struct FrameBuf {
    buf: Vec<u8>,
}

impl View for FrameBuf {
    type V = Seq<u8>;

    closed spec fn view(&self) -> Seq<u8> {
        self.buf@
    }
}

impl FrameBuf {
    /// An empty buffer.
    pub fn new() -> (r: FrameBuf)
        ensures
            r@ == Seq::<u8>::empty(),
    {
        FrameBuf { buf: Vec::new() }
    }

    /// Append a chunk of bytes read from the stream.
    pub fn feed(&mut self, chunk: &[u8])
        ensures
            final(self)@ == old(self)@ + chunk@,
    {
        self.buf.extend_from_slice(chunk);
    }

    /// How many bytes the buffer holds.
    pub fn len(&self) -> (r: usize)
        ensures
            r == self@.len(),
    {
        self.buf.len()
    }

    /// How many more bytes must arrive before the frame at the front is
    /// complete; zero when a complete frame is already buffered.
    pub fn needed(&self) -> (r: usize)
        ensures
            r == spec_needed(self@),
            r == 0 <==> has_complete_frame(self@),
    {
        if self.buf.len() < HEADER_LEN {
            HEADER_LEN - self.buf.len()
        } else {
            let n = u32_from_le_bytes(slice_subrange(self.buf.as_slice(), 0, HEADER_LEN)) as usize;
            let have = self.buf.len() - HEADER_LEN;
            if have < n {
                n - have
            } else {
                0
            }
        }
    }

    /// Remove and return the payload of the frame at the front, where one
    /// is complete; with only a partial frame buffered, return nothing and
    /// leave every byte in place.
    pub fn take_frame(&mut self) -> (r: Option<Vec<u8>>)
        ensures
            has_complete_frame(old(self)@) ==> (r matches Some(p) && p@ == frame_payload(
                old(self)@,
            ) && final(self)@ == frame_rest(old(self)@)),
            !has_complete_frame(old(self)@) ==> r is None && final(self)@ == old(self)@,
    {
        if self.buf.len() < HEADER_LEN {
            return Option::None;
        }
        let n = u32_from_le_bytes(slice_subrange(self.buf.as_slice(), 0, HEADER_LEN)) as usize;
        if self.buf.len() - HEADER_LEN < n {
            return Option::None;
        }
        let payload = slice_to_vec(
            slice_subrange(self.buf.as_slice(), HEADER_LEN, HEADER_LEN + n),
        );
        let rest = slice_to_vec(
            slice_subrange(self.buf.as_slice(), HEADER_LEN + n, self.buf.len()),
        );
        self.buf = rest;
        proof {
            assert(final(self)@ =~= frame_rest(old(self)@));
        }
        Option::Some(payload)
    }
}

/// Reading a written frame yields the payload that was framed, and leaves
/// exactly the bytes that followed it.
pub proof fn lemma_frame_round_trip(payload: Seq<u8>, rest: Seq<u8>)
    requires
        payload.len() <= u32::MAX,
    ensures
        has_complete_frame(frame_of(payload) + rest),
        frame_payload(frame_of(payload) + rest) == payload,
        frame_rest(frame_of(payload) + rest) == rest,
{
    lemma_auto_spec_u32_to_from_le_bytes();
    let b = frame_of(payload) + rest;
    assert(b.take(HEADER_LEN as int) =~= spec_u32_to_le_bytes(payload.len() as u32));
    assert(frame_len(b) == payload.len());
    assert(frame_payload(b) =~= payload);
    assert(frame_rest(b) =~= rest);
}

} // verus!
