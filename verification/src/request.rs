//! The request envelope and the boundary the domain methods build on.
//!
//! Every operation above the transport is the same shape: a fixed method
//! name and an optional payload go into one envelope document, that
//! document's frame is written, and a named sub-field is extracted from the
//! answer.  The envelope is `{"method": <name>, "data": <payload or null>}`,
//! serialized to exactly one frame.

use vstd::prelude::*;

use crate::TransportError;
use crate::doc::Doc;
use crate::doc::DocV;
use crate::doc::doc_wf;
use crate::doc::lookup;
use crate::frame::encode_frame;
use crate::frame::frame_of;
use crate::json::encode_doc;
use crate::json::json_of;

verus! {

broadcast use vstd::std_specs::vec::group_vec_axioms, vstd::seq::group_seq_axioms;

/// The envelope a request travels in, with null standing for an absent
/// payload.
pub open spec fn envelope(method: Seq<char>, data: DocV) -> DocV {
    DocV::Obj(seq![("method"@, DocV::Text(method)), ("data"@, data)])
}

/// The payload a request carries: the given document, or null for none.
pub open spec fn payload_of(data: Option<Doc>) -> DocV {
    match data {
        Option::Some(d) => d@,
        Option::None => DocV::Null,
    }
}

/// An envelope is well-formed whenever its payload is: its own two keys
/// are distinct, so the envelope of a well-formed payload has one canonical
/// byte form that reads back to it.
pub proof fn lemma_envelope_wf(method: Seq<char>, data: DocV)
    requires
        doc_wf(data),
    ensures
        doc_wf(envelope(method, data)),
{
    reveal_strlit("method");
    reveal_strlit("data");
    let fields = envelope(method, data)->Obj_0;
    assert("method"@.len() == 6);
    assert("data"@.len() == 4);
    assert(fields[0].0 != fields[1].0);
    assert(forall|i: int| 0 <= i < fields.len() ==> doc_wf(#[trigger] fields[i].1));
}

/// The envelope document for one request.  A method name is a non-empty,
/// slash-delimited hierarchical name.
pub fn request_doc(method: &str, data: Option<Doc>) -> (r: Doc)
    requires
        method@.len() > 0,
    ensures
        r@ == envelope(method@, payload_of(data)),
{
    let ghost dv = payload_of(data);
    let payload = match data {
        Option::Some(d) => d,
        Option::None => Doc::Null,
    };
    let mut fields: Vec<(String, Doc)> = Vec::new();
    fields.push(("method".to_owned(), Doc::Text(method.to_owned())));
    fields.push(("data".to_owned(), payload));
    proof {
        assert(fields@.len() == 2);
        assert(fields@[0].0@ == "method"@);
        assert(fields@[0].1@ == DocV::Text(method@));
        assert(fields@[1].0@ == "data"@);
        assert(fields@[1].1@ == dv);
    }
    let r = Doc::Obj(fields);
    proof {
        assert(r@ is Obj);
        assert(r@->Obj_0[0] == ("method"@, DocV::Text(method@)));
        assert(r@->Obj_0[1] == ("data"@, dv));
        assert(r@->Obj_0 =~= envelope(method@, dv)->Obj_0);
        assert(r@ == envelope(method@, dv));
    }
    r
}

/// The frame that carries one request: the envelope's canonical JSON text
/// behind a length header.  Fails exactly where that text cannot be
/// declared in a 32-bit header.
pub fn encode_request(method: &str, data: Option<Doc>) -> (r: Result<Vec<u8>, TransportError>)
    requires
        method@.len() > 0,
    ensures
        json_of(envelope(method@, payload_of(data))).len() <= u32::MAX ==> (r matches Ok(f)
            && f@ == frame_of(json_of(envelope(method@, payload_of(data))))),
        json_of(envelope(method@, payload_of(data))).len() > u32::MAX ==> (r matches Err(e)
            && e == TransportError::RequestTooLarge),
{
    let doc = request_doc(method, data);
    let bytes = encode_doc(&doc);
    encode_frame(bytes)
}

/// The payload selecting which headless output to destroy: an explicit
/// name addresses it by `"output"` and takes precedence; failing that, an
/// id addresses it by `"output-id"`; with neither there is nothing to
/// address and no payload exists.
pub fn destroy_headless_payload(output_name: Option<String>, output_id: Option<i64>) -> (r: Option<
    Doc,
>)
    ensures
        match output_name {
            Option::Some(n) => r matches Some(d) && d@ == DocV::Obj(
                seq![("output"@, DocV::Text(n@))],
            ),
            Option::None => match output_id {
                Option::Some(i) => r matches Some(d) && d@ == DocV::Obj(
                    seq![("output-id"@, DocV::Int(i))],
                ),
                Option::None => r is None,
            },
        },
{
    match output_name {
        Option::Some(name) => {
            let ghost nv = name@;
            let mut fields: Vec<(String, Doc)> = Vec::new();
            fields.push(("output".to_owned(), Doc::Text(name)));
            proof {
                assert(fields@.len() == 1);
                assert(fields@[0].0@ == "output"@);
                assert(fields@[0].1@ == DocV::Text(nv));
            }
            let r = Doc::Obj(fields);
            proof {
                assert(r@ is Obj);
                assert(r@->Obj_0[0] == ("output"@, DocV::Text(nv)));
                assert(r@->Obj_0 =~= seq![("output"@, DocV::Text(nv))]);
                assert(r@ == DocV::Obj(seq![("output"@, DocV::Text(nv))]));
            }
            Option::Some(r)
        },
        Option::None => match output_id {
            Option::Some(id) => {
                let mut fields: Vec<(String, Doc)> = Vec::new();
                fields.push(("output-id".to_owned(), Doc::Int(id)));
                proof {
                    assert(fields@.len() == 1);
                    assert(fields@[0].0@ == "output-id"@);
                    assert(fields@[0].1@ == DocV::Int(id));
                }
                let r = Doc::Obj(fields);
                proof {
                    assert(r@ is Obj);
                    assert(r@->Obj_0[0] == ("output-id"@, DocV::Int(id)));
                    assert(r@->Obj_0 =~= seq![("output-id"@, DocV::Int(id))]);
                    assert(r@ == DocV::Obj(seq![("output-id"@, DocV::Int(id))]));
                }
                Option::Some(r)
            },
            Option::None => Option::None,
        },
    }
}

/// A required sub-field of a response document, or the distinguishable
/// error where the document does not carry it.
pub fn extract_field<'a>(d: &'a Doc, name: &str) -> (r: Result<&'a Doc, TransportError>)
    ensures
        match r {
            Result::Ok(v) => lookup(d@, name@) == Option::Some(v@),
            Result::Err(e) => e == TransportError::MissingField && lookup(d@, name@) is None,
        },
{
    match d.get(name) {
        Option::Some(v) => Result::Ok(v),
        Option::None => Result::Err(TransportError::MissingField),
    }
}

} // verus!
