//! The guarantees the transport keeps, stated once and proved.
//!
//! Each law is written over the same specifications the operations'
//! contracts use: `frame_of` and the frame readers, `json_of`, `decoded`
//! and `demux`.  A hypothesis of the form `decoded(b) == Some(d)` describes
//! the synthetic remote side: a stream whose frames carry those documents.

use vstd::prelude::*;

use crate::doc::Doc;
use crate::doc::DocV;
use crate::doc::depth;
use crate::doc::doc_wf;
use crate::doc::int_only;
use crate::doc::is_error_doc;
use crate::doc::is_event_doc;
use crate::frame::FrameBuf;
use crate::frame::encode_frame;
use crate::frame::frame_of;
use crate::frame::frame_rest;
use crate::frame::has_complete_frame;
use crate::frame::lemma_frame_round_trip;
use crate::json::encode_doc;
use crate::json::json_of;
use crate::parse::DEPTH_LIMIT;
use crate::parse::decoded;
use crate::parse::parse_doc;
use crate::transport::Demuxed;
use crate::transport::demux;

verus! {

broadcast use vstd::seq::group_seq_axioms;

/// Framing round trip, whole: encoding a well-formed document of ordinary
/// nesting whose numbers are all 64-bit integers, framing the text and
/// reading the frame back yields an equal document.  (A number carried as
/// text is re-rendered by the parser, so only the integers it hands back
/// verbatim are covered.)  The read fails only where the text cannot be
/// declared in a 32-bit header.
pub fn frame_round_trip(d: &Doc) -> (r: Option<Doc>)
    requires
        doc_wf(d@),
        int_only(d@),
        depth(d@) <= DEPTH_LIMIT,
    ensures
        r matches Some(x) ==> x@ == d@,
        r is None <==> json_of(d@).len() > u32::MAX,
{
    let bytes = encode_doc(d);
    match encode_frame(bytes) {
        Result::Err(_) => Option::None,
        Result::Ok(framed) => {
            let mut buf = FrameBuf::new();
            buf.feed(framed.as_slice());
            proof {
                lemma_frame_round_trip(json_of(d@), Seq::<u8>::empty());
                assert(buf@ =~= frame_of(json_of(d@)) + Seq::<u8>::empty());
            }
            match buf.take_frame() {
                Option::None => {
                    proof {
                        assert(false);
                    }
                    Option::None
                },
                Option::Some(p) => parse_doc(p.as_slice()),
            }
        },
    }
}

/// No event ahead of the answer: the first frame carries a non-event
/// document, so it comes back as the answer at once, nothing is queued,
/// and whatever follows the frame stays buffered untouched.
pub proof fn lemma_immediate_answer(b: Seq<u8>, a: DocV, rest: Seq<u8>)
    requires
        b.len() <= u32::MAX,
        decoded(b) == Some(a),
        !is_event_doc(a),
    ensures
        demux(frame_of(b) + rest) == (Seq::<DocV>::empty(), rest, Demuxed::Answer(a)),
{
    lemma_frame_round_trip(b, rest);
}

/// Event ordering preserved: a stream carrying events `e1`, `e2` and then
/// answer `a` yields `a`, with `e1` and `e2` accumulated in arrival order
/// and the stream fully consumed.
pub proof fn lemma_event_ordering(
    b1: Seq<u8>,
    b2: Seq<u8>,
    b3: Seq<u8>,
    e1: DocV,
    e2: DocV,
    a: DocV,
)
    requires
        b1.len() <= u32::MAX,
        b2.len() <= u32::MAX,
        b3.len() <= u32::MAX,
        decoded(b1) == Some(e1),
        is_event_doc(e1),
        decoded(b2) == Some(e2),
        is_event_doc(e2),
        decoded(b3) == Some(a),
        !is_event_doc(a),
    ensures
        demux(frame_of(b1) + frame_of(b2) + frame_of(b3)) == (
            seq![e1, e2],
            Seq::<u8>::empty(),
            Demuxed::Answer(a),
        ),
{
    let whole = frame_of(b1) + frame_of(b2) + frame_of(b3);
    let after1 = frame_of(b2) + frame_of(b3);
    assert(whole =~= frame_of(b1) + after1);
    lemma_frame_round_trip(b1, after1);
    assert(frame_rest(whole) == after1);
    lemma_frame_round_trip(b2, frame_of(b3));
    assert(frame_of(b3) =~= frame_of(b3) + Seq::<u8>::empty());
    lemma_immediate_answer(b3, a, Seq::<u8>::empty());
    assert(demux(after1).0 =~= seq![e2]);
    assert(demux(whole).0 =~= seq![e1, e2]);
}

/// Error documents pass through: an answer that reports a remote error
/// (an `"error"` field, no `"event"` field) is still handed back as the
/// answer, never swallowed as a transport failure.
pub proof fn lemma_error_passthrough(b: Seq<u8>, a: DocV, rest: Seq<u8>)
    requires
        b.len() <= u32::MAX,
        decoded(b) == Some(a),
        is_error_doc(a),
        !is_event_doc(a),
    ensures
        demux(frame_of(b) + rest).2 == Demuxed::Answer(a),
        demux(frame_of(b) + rest).0 == Seq::<DocV>::empty(),
{
    lemma_immediate_answer(b, a, rest);
}

/// A partial frame blocks: any strict prefix of a frame is not complete,
/// so demultiplexing waits for more bytes and consumes nothing.
pub proof fn lemma_partial_frame_blocks(payload: Seq<u8>, k: int)
    requires
        payload.len() <= u32::MAX,
        0 <= k < frame_of(payload).len(),
    ensures
        !has_complete_frame(frame_of(payload).take(k)),
        demux(frame_of(payload).take(k)) == (
            Seq::<DocV>::empty(),
            frame_of(payload).take(k),
            Demuxed::Pending,
        ),
{
    vstd::bytes::lemma_auto_spec_u32_to_from_le_bytes();
    let part = frame_of(payload).take(k);
    if k >= 4 {
        assert(part.take(4) =~= frame_of(payload).take(4));
        assert(frame_of(payload).take(4) =~= vstd::bytes::spec_u32_to_le_bytes(
            payload.len() as u32,
        ));
        assert(crate::frame::frame_len(part) == payload.len());
    }
}

} // verus!
