//! Document operations: field lookup, classification and deep copies.

use wayfire_ipc::Doc;
use wayfire_ipc::PollResult;
use wayfire_ipc::Transport;
use wayfire_ipc::frame::encode_frame;
use wayfire_ipc::json::encode_doc;

fn text(s: &str) -> Doc {
    Doc::Text(s.to_string())
}

fn obj(pairs: Vec<(&str, Doc)>) -> Doc {
    Doc::Obj(pairs.into_iter().map(|(k, v)| (k.to_string(), v)).collect())
}

#[test]
fn field_lookup() {
    let d = obj(vec![("a", Doc::Int(1)), ("b", text("x")), ("a", Doc::Int(2))]);
    // The first field with the name wins.
    assert_eq!(d.get("a"), Some(&Doc::Int(1)));
    assert_eq!(d.get("b"), Some(&text("x")));
    assert_eq!(d.get("c"), None);
    assert!(d.has_field("a"));
    assert!(!d.has_field("c"));
    // Non-objects have no fields.
    assert_eq!(Doc::Int(3).get("a"), None);
    assert_eq!(Doc::Arr(vec![text("a")]).get("a"), None);
}

#[test]
fn event_and_error_classification() {
    assert!(obj(vec![("event", text("view-mapped"))]).is_event());
    assert!(!obj(vec![("info", Doc::Null)]).is_event());
    assert!(obj(vec![("error", text("nope"))]).is_error());
    assert!(!obj(vec![("result", text("ok"))]).is_error());
    // An event field of any value marks an event.
    assert!(obj(vec![("event", Doc::Null)]).is_event());
    assert!(!Doc::Null.is_event());
}

#[test]
fn deep_copy_is_equal_and_detached() {
    let d = obj(vec![
        ("xs", Doc::Arr(vec![Doc::Int(1), obj(vec![("y", Doc::Bool(false))])])),
        ("s", text("value")),
        ("a", Doc::Num("0.25".to_string())),
    ]);
    let copy = d.duplicate();
    assert_eq!(copy, d);
    assert_eq!(encode_doc(&copy), encode_doc(&d));
}

#[test]
fn needed_counts_from_empty() {
    let t = Transport::new();
    // With nothing buffered, a whole header is needed first.
    assert_eq!(t.bytes_needed(), 4);
}

#[test]
fn next_event_reports_malformed_frame() {
    let mut t = Transport::new();
    let mut framed = (3u32).to_le_bytes().to_vec();
    framed.extend_from_slice(b"}{}");
    t.feed(&framed);
    assert_eq!(t.next_event(), PollResult::Malformed);
    // The bad frame is consumed whole; the stream stays aligned.
    assert_eq!(t.bytes_needed(), 4);
}

#[test]
fn int_boundaries_survive_the_wire() {
    let d = obj(vec![("lo", Doc::Int(i64::MIN)), ("hi", Doc::Int(i64::MAX))]);
    let framed = encode_frame(encode_doc(&d)).unwrap();
    let mut t = Transport::new();
    t.feed(&framed);
    match t.poll_answer() {
        PollResult::Answer(got) => {
            assert_eq!(got.get("lo"), Some(&Doc::Int(i64::MIN)));
            assert_eq!(got.get("hi"), Some(&Doc::Int(i64::MAX)));
        },
        other => panic!("expected an answer, got {:?}", other),
    }
}

#[test]
fn nesting_beyond_parser_limit_is_malformed() {
    // The wire parser gives up past its nesting limit; the frame is still
    // consumed whole and only this one read fails.
    let mut body = "[".repeat(200);
    body.push('0');
    body.push_str(&"]".repeat(200));
    let mut framed = (body.len() as u32).to_le_bytes().to_vec();
    framed.extend_from_slice(body.as_bytes());
    let mut t = Transport::new();
    t.feed(&framed);
    assert_eq!(t.poll_answer(), PollResult::Malformed);
    assert_eq!(t.bytes_needed(), 4);
}

#[test]
fn empty_payload_is_malformed() {
    let mut t = Transport::new();
    t.feed(&0u32.to_le_bytes());
    assert_eq!(t.poll_answer(), PollResult::Malformed);
}
