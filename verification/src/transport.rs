//! Request/response correlation with event interleaving — the core of the
//! transport.
//!
//! The protocol has no request identifiers: exactly one non-event document
//! answers each request, and it is the first non-event frame to arrive after
//! the request was written.  Any number of event frames (documents with an
//! `"event"` field) may precede it; they are appended, in arrival order, to
//! a FIFO queue for later retrieval.
//!
//! `Transport` holds the receive buffer and that queue.  The surrounding
//! program owns the stream: it writes the frame a request encodes to, feeds
//! whatever bytes arrive back into the transport, and asks it to make the
//! decisions — `demux` says, as a function of the buffered bytes, exactly
//! which events are queued, which bytes remain, and what comes back.

use vstd::prelude::*;
use std::collections::VecDeque;

use crate::doc::Doc;
use crate::doc::DocV;
use crate::doc::is_event_doc;
use crate::frame::FrameBuf;
use crate::frame::frame_payload;
use crate::frame::frame_rest;
use crate::frame::has_complete_frame;
use crate::frame::spec_needed;
use crate::parse::decoded;
use crate::parse::parse_doc;

verus! {

broadcast use vstd::seq::group_seq_axioms;

/// What one round of demultiplexing yields.
pub enum Demuxed {
    /// More bytes must arrive before anything can be decided.
    Pending,
    /// The answer to the outstanding request: the first non-event document.
    Answer(DocV),
    /// A complete frame arrived whose payload is not a well-formed
    /// document; the frame is consumed, the call fails.
    Malformed,
}

/// Demultiplexing the buffered bytes: consume complete frames from the
/// front; event documents accumulate in order, and the first non-event
/// document is the answer.  Yields the accumulated events, the bytes left
/// in the buffer, and the outcome.
pub open spec fn demux(b: Seq<u8>) -> (Seq<DocV>, Seq<u8>, Demuxed)
    decreases b.len(),
{
    if !has_complete_frame(b) {
        (Seq::<DocV>::empty(), b, Demuxed::Pending)
    } else {
        match decoded(frame_payload(b)) {
            Option::None => (Seq::<DocV>::empty(), frame_rest(b), Demuxed::Malformed),
            Option::Some(d) => if is_event_doc(d) {
                let tail = demux(frame_rest(b));
                (seq![d] + tail.0, tail.1, tail.2)
            } else {
                (Seq::<DocV>::empty(), frame_rest(b), Demuxed::Answer(d))
            },
        }
    }
}

/// What the transport hands back when asked for an answer or an event.
#[derive(Debug, PartialEq, Eq)]
pub enum PollResult {
    /// The buffered bytes do not complete a frame; read more and feed it.
    Pending,
    /// The document this call was waiting for.
    Answer(Doc),
    /// A complete frame's payload was not a well-formed document.  The
    /// frame is consumed — the length header keeps the stream aligned, so
    /// only this call fails.
    Malformed,
}

/// One session: the receive buffer and the pending-event queue.  The
/// surrounding program owns the byte stream; everything the transport
/// decides is a function of the bytes fed in.
pub struct Transport {
    queue: VecDeque<Doc>,
    inbuf: FrameBuf,
}

impl Transport {
    /// The pending-event queue: event documents seen while waiting for an
    /// answer, oldest first, not yet retrieved.
    pub closed spec fn pending(&self) -> Seq<DocV> {
        Seq::new(
            self.queue@.len(),
            |i: int|
                if 0 <= i < self.queue@.len() {
                    self.queue@[i]@
                } else {
                    DocV::Null
                },
        )
    }

    /// The bytes read off the stream but not yet consumed as frames.
    pub closed spec fn inbuf_bytes(&self) -> Seq<u8> {
        self.inbuf@
    }

    /// A fresh session: empty queue, empty buffer.
    pub fn new() -> (r: Transport)
        ensures
            r.pending() == Seq::<DocV>::empty(),
            r.inbuf_bytes() == Seq::<u8>::empty(),
    {
        let r = Transport { queue: VecDeque::new(), inbuf: FrameBuf::new() };
        proof {
            assert(r.pending() =~= Seq::<DocV>::empty());
        }
        r
    }

    /// How many events are queued.
    pub fn pending_len(&self) -> (r: usize)
        ensures
            r == self.pending().len(),
    {
        self.queue.len()
    }

    /// Append a chunk of bytes read from the stream.  The queue is not
    /// touched.
    pub fn feed(&mut self, chunk: &[u8])
        ensures
            final(self).pending() == old(self).pending(),
            final(self).inbuf_bytes() == old(self).inbuf_bytes() + chunk@,
    {
        self.inbuf.feed(chunk);
        proof {
            assert(final(self).pending() =~= old(self).pending());
        }
    }

    /// How many more bytes must arrive before the frame at the front of
    /// the buffer is complete; zero when one already is.
    pub fn bytes_needed(&self) -> (r: usize)
        ensures
            r == spec_needed(self.inbuf_bytes()),
    {
        self.inbuf.needed()
    }

    /// Look for the answer to the request just written: consume complete
    /// frames from the buffer, queueing every event document met on the
    /// way, until the first non-event document — the answer — or until the
    /// buffered bytes run out.  Exactly `demux` of the buffered bytes:
    /// events queued in arrival order, the answer never queued, and on a
    /// malformed payload the events already queued stay queued.
    pub fn poll_answer(&mut self) -> (r: PollResult)
        ensures
            final(self).pending() == old(self).pending() + demux(old(self).inbuf_bytes()).0,
            final(self).inbuf_bytes() == demux(old(self).inbuf_bytes()).1,
            match r {
                PollResult::Pending => demux(old(self).inbuf_bytes()).2 is Pending,
                PollResult::Answer(d) => demux(old(self).inbuf_bytes()).2 == Demuxed::Answer(d@),
                PollResult::Malformed => demux(old(self).inbuf_bytes()).2 is Malformed,
            },
    {
        let ghost start = old(self).inbuf_bytes();
        let ghost mut taken: Seq<DocV> = Seq::empty();
        proof {
            assert(old(self).pending() + taken =~= old(self).pending());
            assert(taken + demux(start).0 =~= demux(start).0);
        }
        loop
            invariant
                start == old(self).inbuf_bytes(),
                self.pending() == old(self).pending() + taken,
                demux(start).0 == taken + demux(self.inbuf_bytes()).0,
                demux(start).1 == demux(self.inbuf_bytes()).1,
                demux(start).2 == demux(self.inbuf_bytes()).2,
            decreases self.inbuf_bytes().len(),
        {
            let ghost cur = self.inbuf_bytes();
            match self.inbuf.take_frame() {
                Option::None => {
                    proof {
                        assert(demux(start).0 =~= taken);
                    }
                    return PollResult::Pending;
                },
                Option::Some(p) => {
                    match parse_doc(p.as_slice()) {
                        Option::None => {
                            proof {
                                assert(demux(start).0 =~= taken);
                            }
                            return PollResult::Malformed;
                        },
                        Option::Some(d) => {
                            if d.is_event() {
                                proof {
                                    assert(demux(cur).0 == seq![d@] + demux(frame_rest(cur)).0);
                                    taken = taken + seq![d@];
                                    assert(demux(start).0 =~= taken + demux(
                                        self.inbuf_bytes(),
                                    ).0);
                                }
                                let ghost before = self.pending();
                                self.queue.push_back(d);
                                proof {
                                    assert(self.pending() =~= before + seq![d@]);
                                    assert(self.pending() =~= old(self).pending() + taken);
                                }
                            } else {
                                proof {
                                    assert(demux(start).0 =~= taken);
                                }
                                return PollResult::Answer(d);
                            }
                        },
                    }
                },
            }
        }
    }

    /// The next queued event, where any is pending; otherwise the very
    /// next frame off the stream, whatever its shape — the transport does
    /// not filter here, the caller inspects what comes back.
    pub fn next_event(&mut self) -> (r: PollResult)
        ensures
            old(self).pending().len() > 0 ==> {
                &&& r matches PollResult::Answer(d) && d@ == old(self).pending()[0]
                &&& final(self).pending() == old(self).pending().drop_first()
                &&& final(self).inbuf_bytes() == old(self).inbuf_bytes()
            },
            old(self).pending().len() == 0 ==> final(self).pending() == old(self).pending(),
            old(self).pending().len() == 0 && !has_complete_frame(old(self).inbuf_bytes()) ==> {
                &&& r is Pending
                &&& final(self).inbuf_bytes() == old(self).inbuf_bytes()
            },
            old(self).pending().len() == 0 && has_complete_frame(old(self).inbuf_bytes()) ==> {
                &&& final(self).inbuf_bytes() == frame_rest(old(self).inbuf_bytes())
                &&& match decoded(frame_payload(old(self).inbuf_bytes())) {
                    Option::Some(d) => r matches PollResult::Answer(a) && a@ == d,
                    Option::None => r is Malformed,
                }
            },
    {
        let ghost q0 = old(self).pending();
        match self.queue.pop_front() {
            Option::Some(d) => {
                proof {
                    assert(d@ == q0[0]);
                    assert(self.pending() =~= q0.drop_first());
                }
                PollResult::Answer(d)
            },
            Option::None => {
                proof {
                    assert(q0.len() == 0);
                }
                match self.inbuf.take_frame() {
                    Option::None => PollResult::Pending,
                    Option::Some(p) => {
                        proof {
                            assert(final(self).pending() =~= q0);
                        }
                        match parse_doc(p.as_slice()) {
                            Option::None => PollResult::Malformed,
                            Option::Some(d) => PollResult::Answer(d),
                        }
                    },
                }
            },
        }
    }

    /// The very next frame off the stream, queue or no queue: the raw
    /// receive step.  Consumes exactly one complete frame where one is
    /// buffered; the queue is never touched.
    pub fn take_raw_frame(&mut self) -> (r: PollResult)
        ensures
            final(self).pending() == old(self).pending(),
            !has_complete_frame(old(self).inbuf_bytes()) ==> {
                &&& r is Pending
                &&& final(self).inbuf_bytes() == old(self).inbuf_bytes()
            },
            has_complete_frame(old(self).inbuf_bytes()) ==> {
                &&& final(self).inbuf_bytes() == frame_rest(old(self).inbuf_bytes())
                &&& match decoded(frame_payload(old(self).inbuf_bytes())) {
                    Option::Some(d) => r matches PollResult::Answer(a) && a@ == d,
                    Option::None => r is Malformed,
                }
            },
    {
        match self.inbuf.take_frame() {
            Option::None => PollResult::Pending,
            Option::Some(p) => {
                proof {
                    assert(final(self).pending() =~= old(self).pending());
                }
                match parse_doc(p.as_slice()) {
                    Option::None => PollResult::Malformed,
                    Option::Some(d) => PollResult::Answer(d),
                }
            },
        }
    }
}

} // verus!
