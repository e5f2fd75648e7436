//! Decoding a frame's payload back into a document.
//!
//! Writing is verified end to end (see `json`); reading leans on serde_json,
//! the JSON parser the wire format is defined against, behind a small trusted
//! boundary.  `decoded` names the result of that parse: a fixed function of
//! the payload bytes alone.  The one fact stated beyond that name is that
//! parsing undoes the verified encoder, which ties `decoded` to `json_of` on
//! exactly the bytes the library itself produces.

use vstd::prelude::*;

use crate::doc::Doc;
use crate::doc::DocV;
use crate::doc::depth;
use crate::doc::doc_wf;
use crate::doc::int_only;
use crate::json::json_of;

verus! {

/// The deepest nesting the round-trip guarantee covers: safely below the
/// parser's own nesting limit of 128 levels, past which it rejects even
/// well-formed text.
pub const DEPTH_LIMIT: usize = 100;

/// serde_json's document value, carried opaquely through the trusted
/// boundary below.
#[verifier::external_type_specification]
#[verifier::external_body]
pub struct ExValue(serde_json::Value);

/// The document that parsing a byte sequence yields, or `None` where the
/// bytes are not well-formed JSON.  Parsing is a function of the bytes
/// alone; this name stands for its result.
pub uninterp spec fn decoded(bytes: Seq<u8>) -> Option<DocV>;

/// Relies on serde_json's value model: each JSON variant is moved, one arm
/// each, into the library's own document tree.  A number with a 64-bit
/// integer representation becomes an `Int`; any other number keeps its
/// decimal text (serde_json's own rendering of the value it parsed), so
/// nothing a frame carries is lost.
#[verifier::external_body]
fn value_to_doc(v: serde_json::Value) -> Doc {
    match v {
        serde_json::Value::Null => Doc::Null,
        serde_json::Value::Bool(b) => Doc::Bool(b),
        serde_json::Value::Number(n) => match n.as_i64() {
            Some(i) => Doc::Int(i),
            None => Doc::Num(n.to_string()),
        },
        serde_json::Value::String(s) => Doc::Text(s),
        serde_json::Value::Array(a) => Doc::Arr(a.into_iter().map(value_to_doc).collect()),
        serde_json::Value::Object(m) => Doc::Obj(
            m.into_iter().map(|(k, w)| (k, value_to_doc(w))).collect(),
        ),
    }
}

/// The parse result `r` undoes the canonical encoder: whenever the input
/// bytes are the canonical text of a document with unique object keys,
/// only 64-bit integer numbers, and nesting within the parser's limit, `r`
/// is exactly that document.  A document carrying other number text is
/// excluded because the parser re-renders such a number and need not
/// reproduce the exact text it read.
pub open spec fn undoes_encoding(bytes: Seq<u8>, r: Option<Doc>) -> bool {
    forall|v: DocV|
        doc_wf(v) && int_only(v) && depth(v) <= DEPTH_LIMIT && bytes == #[trigger] json_of(v)
            ==> (r matches Some(d) && d@ == v)
}

/// Relies on serde_json::from_slice: well-formed JSON within the parser's
/// nesting limit parses to its value, other bytes are rejected, and parsing
/// the canonical text that `json_of` gives a document with unique object
/// keys yields that document back (with its `preserve_order` feature the
/// parser keeps object members in their written order, and it keeps every
/// escape and integer exact).
#[verifier::external_body]
pub(crate) fn parse_doc(bytes: &[u8]) -> (r: Option<Doc>)
    ensures
        r is Some <==> decoded(bytes@) is Some,
        r matches Some(d) ==> decoded(bytes@) == Some(d@),
        undoes_encoding(bytes@, r),
{
    match serde_json::from_slice::<serde_json::Value>(bytes) {
        Ok(v) => Some(value_to_doc(v)),
        Err(_) => None,
    }
}

} // verus!
