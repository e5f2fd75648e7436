//! The demultiplexing engine against a synthetic remote side: frames are
//! built with the library's own encoder, delivered as raw bytes, and the
//! transport's decisions are checked against the documented behavior.

use wayfire_ipc::Doc;
use wayfire_ipc::PollResult;
use wayfire_ipc::Transport;
use wayfire_ipc::TransportError;
use wayfire_ipc::frame::encode_frame;
use wayfire_ipc::json::encode_doc;
use wayfire_ipc::laws::frame_round_trip;
use wayfire_ipc::request::encode_request;
use wayfire_ipc::request::extract_field;

fn text(s: &str) -> Doc {
    Doc::Text(s.to_string())
}

fn obj(pairs: Vec<(&str, Doc)>) -> Doc {
    Doc::Obj(pairs.into_iter().map(|(k, v)| (k.to_string(), v)).collect())
}

fn frame_for(d: &Doc) -> Vec<u8> {
    encode_frame(encode_doc(d)).unwrap()
}

fn answer_of(r: PollResult) -> Doc {
    match r {
        PollResult::Answer(d) => d,
        other => panic!("expected an answer, got {:?}", other),
    }
}

#[test]
fn framing_round_trip() {
    let d = obj(vec![
        ("info", obj(vec![("id", Doc::Int(42)), ("role", text("toplevel"))])),
        ("tags", Doc::Arr(vec![text("a\"b\\c"), text("\u{00e9}\u{1F600}"), Doc::Null])),
        ("ok", Doc::Bool(true)),
    ]);
    assert_eq!(frame_round_trip(&d), Some(d));
}

#[test]
fn answer_via_transport_round_trip() {
    let d = obj(vec![("pos", obj(vec![("x", Doc::Int(3)), ("y", Doc::Int(-4))]))]);
    let mut t = Transport::new();
    t.feed(&frame_for(&d));
    assert_eq!(answer_of(t.poll_answer()), d);
    assert_eq!(t.pending_len(), 0);
}

#[test]
fn event_ordering_preserved() {
    let e1 = obj(vec![("event", text("view-mapped")), ("n", Doc::Int(1))]);
    let e2 = obj(vec![("event", text("view-unmapped")), ("n", Doc::Int(2))]);
    let a = obj(vec![("result", text("ok"))]);
    let mut t = Transport::new();
    t.feed(&frame_for(&e1));
    t.feed(&frame_for(&e2));
    t.feed(&frame_for(&a));
    assert_eq!(answer_of(t.poll_answer()), a);
    assert_eq!(t.pending_len(), 2);
    assert_eq!(answer_of(t.next_event()), e1);
    assert_eq!(answer_of(t.next_event()), e2);
    assert_eq!(t.pending_len(), 0);
}

#[test]
fn empty_queue_reads_fresh() {
    let a = obj(vec![("result", text("ok"))]);
    let mut t = Transport::new();
    t.feed(&frame_for(&a));
    assert_eq!(answer_of(t.poll_answer()), a);
    assert_eq!(t.pending_len(), 0);
    // Nothing queued and nothing buffered: the next read must wait on the
    // stream.
    assert_eq!(t.next_event(), PollResult::Pending);
    // A fresh frame arrives; the next-event read takes it straight off the
    // stream, whatever its shape.
    let e = obj(vec![("event", text("view-focused"))]);
    t.feed(&frame_for(&e));
    assert_eq!(answer_of(t.next_event()), e);
}

#[test]
fn error_document_passes_through() {
    let a = obj(vec![("error", text("no such method"))]);
    let mut t = Transport::new();
    t.feed(&frame_for(&a));
    let got = answer_of(t.poll_answer());
    assert!(got.is_error());
    assert_eq!(got, a);
}

#[test]
fn partial_frame_blocks() {
    let a = obj(vec![("result", text("late"))]);
    let whole = frame_for(&a);
    let (head, tail) = whole.split_at(7);
    let mut t = Transport::new();
    t.feed(head);
    assert_eq!(t.poll_answer(), PollResult::Pending);
    assert_eq!(t.poll_answer(), PollResult::Pending);
    assert_eq!(t.bytes_needed(), tail.len());
    t.feed(tail);
    assert_eq!(t.bytes_needed(), 0);
    assert_eq!(answer_of(t.poll_answer()), a);
}

#[test]
fn header_alone_blocks() {
    let a = obj(vec![("result", Doc::Int(9))]);
    let whole = frame_for(&a);
    let mut t = Transport::new();
    t.feed(&whole[..4]);
    assert_eq!(t.poll_answer(), PollResult::Pending);
    assert_eq!(t.bytes_needed(), whole.len() - 4);
    t.feed(&whole[4..]);
    assert_eq!(answer_of(t.poll_answer()), a);
}

#[test]
fn missing_field_is_distinguishable() {
    let a = obj(vec![("result", text("ok"))]);
    assert_eq!(extract_field(&a, "info"), Err(TransportError::MissingField));
    let b = obj(vec![("info", obj(vec![("id", Doc::Int(7))]))]);
    let info = extract_field(&b, "info").unwrap();
    assert_eq!(info, &obj(vec![("id", Doc::Int(7))]));
}

#[test]
fn malformed_payload_fails_one_call_only() {
    let mut t = Transport::new();
    let bad: &[u8] = b"{not json";
    let mut framed = (bad.len() as u32).to_le_bytes().to_vec();
    framed.extend_from_slice(bad);
    t.feed(&framed);
    assert_eq!(t.poll_answer(), PollResult::Malformed);
    // The length header kept the stream aligned: the next frame is read
    // normally.
    let a = obj(vec![("result", text("still here"))]);
    t.feed(&frame_for(&a));
    assert_eq!(answer_of(t.poll_answer()), a);
}

#[test]
fn events_kept_on_malformed_answer() {
    let e = obj(vec![("event", text("view-mapped"))]);
    let mut t = Transport::new();
    t.feed(&frame_for(&e));
    let mut framed = (2u32).to_le_bytes().to_vec();
    framed.extend_from_slice(b"[[");
    t.feed(&framed);
    assert_eq!(t.poll_answer(), PollResult::Malformed);
    // The event seen before the failure stays queued.
    assert_eq!(t.pending_len(), 1);
    assert_eq!(answer_of(t.next_event()), e);
}

#[test]
fn fractional_numbers_survive_the_wire() {
    // The core never reads a fractional number, but it hands one through
    // losslessly as its decimal text for the callers above.
    let body: &[u8] = b"{\"pos\": {\"x\": 1.5, \"y\": 2}, \"big\": 18446744073709551615}";
    let mut framed = (body.len() as u32).to_le_bytes().to_vec();
    framed.extend_from_slice(body);
    let mut t = Transport::new();
    t.feed(&framed);
    let got = answer_of(t.poll_answer());
    let pos = extract_field(&got, "pos").unwrap();
    assert_eq!(extract_field(pos, "y").unwrap(), &Doc::Int(2));
    assert_eq!(extract_field(pos, "x").unwrap(), &Doc::Num("1.5".to_string()));
    assert_eq!(
        extract_field(&got, "big").unwrap(),
        &Doc::Num("18446744073709551615".to_string())
    );
}

#[test]
fn concrete_scenario_focused_view() {
    // The caller writes this request...
    let framed = encode_request("window-rules/get-focused-view", None).unwrap();
    let body: &[u8] = b"{\"method\":\"window-rules/get-focused-view\",\"data\":null}";
    let mut expected = (body.len() as u32).to_le_bytes().to_vec();
    expected.extend_from_slice(body);
    assert_eq!(framed, expected);
    // ...and the remote answers with an event first, then the answer.
    let ev = obj(vec![("event", text("view-mapped")), ("view", Doc::Null)]);
    let ans = obj(vec![(
        "info",
        obj(vec![("id", Doc::Int(42)), ("role", text("toplevel"))]),
    )]);
    let mut t = Transport::new();
    t.feed(&frame_for(&ev));
    t.feed(&frame_for(&ans));
    let got = answer_of(t.poll_answer());
    let info = extract_field(&got, "info").unwrap();
    assert_eq!(extract_field(info, "id").unwrap(), &Doc::Int(42));
    assert_eq!(t.pending_len(), 1);
    let queued = answer_of(t.next_event());
    assert_eq!(extract_field(&queued, "event").unwrap(), &text("view-mapped"));
}

#[test]
fn canonical_number_text_round_trips() {
    // The proved round-trip law covers integer-only documents; a number
    // text as the parser itself renders it comes back verbatim too.
    let d = obj(vec![("alpha", Doc::Num("1.5".to_string())), ("n", Doc::Int(3))]);
    let mut t = Transport::new();
    t.feed(&frame_for(&d));
    assert_eq!(answer_of(t.poll_answer()), d);
}

#[test]
fn chunks_split_across_frames() {
    let e = obj(vec![("event", text("one"))]);
    let a = obj(vec![("two", Doc::Int(2))]);
    let mut bytes = frame_for(&e);
    bytes.extend_from_slice(&frame_for(&a));
    // Deliver in awkward chunks: one byte, then the rest.
    let mut t = Transport::new();
    t.feed(&bytes[..1]);
    assert_eq!(t.poll_answer(), PollResult::Pending);
    t.feed(&bytes[1..]);
    assert_eq!(answer_of(t.poll_answer()), a);
    assert_eq!(answer_of(t.next_event()), e);
}
