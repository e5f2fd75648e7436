//! Client-side transport for the Wayfire compositor's IPC protocol.
//!
//! The wire format is a stream of frames, each a 32-bit little-endian
//! length header followed by that many bytes of a JSON document.  Requests
//! are answered positionally: the first non-event frame that arrives after
//! a request was written is that request's answer; event frames that arrive
//! in between are buffered in a FIFO queue for later retrieval.

use vstd::prelude::*;

pub mod doc;
pub mod frame;
pub mod json;
pub mod laws;
pub mod parse;
pub mod request;
pub mod transport;

pub use doc::Doc;
pub use doc::DocV;
pub use transport::PollResult;
pub use transport::Transport;

verus! {

/// Errors the transport can report to a caller.
#[derive(Debug, PartialEq, Eq)]
pub enum TransportError {
    /// A request document's serialized form does not fit in a frame.
    RequestTooLarge,
    /// A required sub-field is absent from a response document.
    MissingField,
}

} // verus!
