//! The canonical JSON encoder, checked byte for byte.

use wayfire_ipc::Doc;
use wayfire_ipc::json::encode_doc;
use wayfire_ipc::laws::frame_round_trip;
use wayfire_ipc::request::encode_request;
use wayfire_ipc::request::request_doc;

fn text(s: &str) -> Doc {
    Doc::Text(s.to_string())
}

fn obj(pairs: Vec<(&str, Doc)>) -> Doc {
    Doc::Obj(pairs.into_iter().map(|(k, v)| (k.to_string(), v)).collect())
}

#[test]
fn encode_scalars() {
    assert_eq!(encode_doc(&Doc::Null), b"null");
    assert_eq!(encode_doc(&Doc::Bool(true)), b"true");
    assert_eq!(encode_doc(&Doc::Bool(false)), b"false");
    assert_eq!(encode_doc(&Doc::Int(0)), b"0");
    assert_eq!(encode_doc(&Doc::Int(42)), b"42");
    assert_eq!(encode_doc(&Doc::Int(-7)), b"-7");
    assert_eq!(
        encode_doc(&Doc::Int(i64::MIN)),
        b"-9223372036854775808"
    );
    assert_eq!(encode_doc(&Doc::Int(i64::MAX)), b"9223372036854775807");
}

#[test]
fn encode_string_escapes() {
    assert_eq!(encode_doc(&text("plain")), b"\"plain\"");
    assert_eq!(encode_doc(&text("a\"b")), b"\"a\\\"b\"");
    assert_eq!(encode_doc(&text("a\\b")), b"\"a\\\\b\"");
    assert_eq!(encode_doc(&text("a\nb")), b"\"a\\u000ab\"");
    assert_eq!(encode_doc(&text("\u{00e9}")), b"\"\\u00e9\"");
    assert_eq!(encode_doc(&text("\u{1F600}")), b"\"\\ud83d\\ude00\"");
}

#[test]
fn encode_number_text_verbatim() {
    assert_eq!(encode_doc(&Doc::Num("0.5".to_string())), b"0.5");
    assert_eq!(encode_doc(&Doc::Num("-2.75e-3".to_string())), b"-2.75e-3");
    let d = obj(vec![("view-id", Doc::Int(7)), ("alpha", Doc::Num("0.5".to_string()))]);
    assert_eq!(encode_doc(&d), b"{\"view-id\":7,\"alpha\":0.5}");
}

#[test]
fn encode_containers() {
    let arr = Doc::Arr(vec![Doc::Int(1), Doc::Null, text("x")]);
    assert_eq!(encode_doc(&arr), b"[1,null,\"x\"]");
    let o = obj(vec![("a", Doc::Int(1)), ("b", Doc::Arr(vec![Doc::Bool(true)]))]);
    assert_eq!(encode_doc(&o), b"{\"a\":1,\"b\":[true]}");
    assert_eq!(encode_doc(&Doc::Arr(vec![])), b"[]");
    assert_eq!(encode_doc(&obj(vec![])), b"{}");
}

#[test]
fn envelope_shape() {
    let d = request_doc("expo/toggle", None);
    assert_eq!(encode_doc(&d), b"{\"method\":\"expo/toggle\",\"data\":null}");
    let d = request_doc("window-rules/output-info", Some(obj(vec![("id", Doc::Int(1))])));
    assert_eq!(
        encode_doc(&d),
        b"{\"method\":\"window-rules/output-info\",\"data\":{\"id\":1}}"
    );
}

#[test]
fn envelope_survives_its_own_wire() {
    let d = request_doc(
        "wayfire/get-config-option",
        Some(obj(vec![("option", text("core/plugins"))])),
    );
    assert_eq!(frame_round_trip(&d), Some(d));
}

#[test]
fn request_frame_bytes() {
    let framed = encode_request("window-rules/get-focused-view", None).unwrap();
    let body: &[u8] = b"{\"method\":\"window-rules/get-focused-view\",\"data\":null}";
    let mut expected = (body.len() as u32).to_le_bytes().to_vec();
    expected.extend_from_slice(body);
    assert_eq!(framed, expected);
}
