use venus::json::{JsonNumber, JsonValue};
use venus::lsp_wire::{frame, header_line, notification_text, reply_step, request_text, take_id, HeaderStep, ReplyStep};

fn num(n: u64) -> JsonValue {
    JsonValue::Number(JsonNumber { as_u64: Some(n), text: n.to_string() })
}

fn obj(members: Vec<(&str, JsonValue)>) -> JsonValue {
    JsonValue::Object(members.into_iter().map(|(k, v)| (k.to_string(), v)).collect())
}

#[test]
fn request_matches_serde_json_key_order() {
    let text = request_text(7, "textDocument/hover", "{\"position\":{\"character\":2,\"line\":1}}");
    assert_eq!(
        text,
        "{\"id\":7,\"jsonrpc\":\"2.0\",\"method\":\"textDocument/hover\",\"params\":{\"position\":{\"character\":2,\"line\":1}}}"
    );
    let v: serde_json::Value = serde_json::from_str(&text).unwrap();
    assert_eq!(serde_json::to_string(&v).unwrap(), text);
}

#[test]
fn notification_has_no_id() {
    let text = notification_text("initialized", "{}");
    assert_eq!(text, "{\"jsonrpc\":\"2.0\",\"method\":\"initialized\",\"params\":{}}");
    let v: serde_json::Value = serde_json::from_str(&text).unwrap();
    assert_eq!(serde_json::to_string(&v).unwrap(), text);
}

#[test]
fn frame_counts_bytes() {
    assert_eq!(frame("{}"), "Content-Length: 2\r\n\r\n{}");
    assert_eq!(frame("\"é\""), "Content-Length: 4\r\n\r\n\"é\"");
    assert_eq!(frame(""), "Content-Length: 0\r\n\r\n");
}

#[test]
fn ids_count_up() {
    let mut next = 1u64;
    assert_eq!(take_id(&mut next), 1);
    assert_eq!(take_id(&mut next), 2);
    assert_eq!(next, 3);
}

#[test]
fn headers_set_the_length_and_end_at_a_blank_line() {
    let mut len = None;
    assert_eq!(header_line("Content-Length: 42\r\n", &mut len), HeaderStep::Next);
    assert_eq!(len, Some(42));
    assert_eq!(header_line("Content-Type: application/vscode-jsonrpc\r\n", &mut len), HeaderStep::Next);
    assert_eq!(len, Some(42));
    assert_eq!(header_line("\r\n", &mut len), HeaderStep::End);
    let mut len = None;
    assert_eq!(header_line("  Content-Length:7  \n", &mut len), HeaderStep::Next);
    assert_eq!(len, Some(7));
    assert_eq!(header_line("Content-Length: +5\r\n", &mut len), HeaderStep::Next);
    assert_eq!(len, Some(5));
    assert_eq!(header_line("Content-Length: abc\r\n", &mut len), HeaderStep::BadLength);
    assert_eq!(len, Some(5));
    assert_eq!(header_line("Content-Length:\r\n", &mut len), HeaderStep::BadLength);
}

#[test]
fn reply_matches_the_awaited_id() {
    let msg = obj(vec![("jsonrpc", JsonValue::String("2.0".to_string())), ("id", num(3)), ("result", JsonValue::Bool(true))]);
    assert!(matches!(reply_step(msg, 3), ReplyStep::Reply(JsonValue::Bool(true))));
    let msg = obj(vec![("id", num(3)), ("result", JsonValue::Bool(true))]);
    assert!(matches!(reply_step(msg, 4), ReplyStep::Skip));
    let note = obj(vec![("method", JsonValue::String("window/logMessage".to_string()))]);
    assert!(matches!(reply_step(note, 3), ReplyStep::Skip));
    let msg = obj(vec![("id", num(5))]);
    assert!(matches!(reply_step(msg, 5), ReplyStep::Reply(JsonValue::Null)));
}

#[test]
fn error_replies_fail_with_the_message() {
    let msg = obj(vec![("id", num(2)), ("error", obj(vec![("code", num(1)), ("message", JsonValue::String("boom".to_string()))]))]);
    match reply_step(msg, 2) {
        ReplyStep::Failed(t) => assert_eq!(t, "LSP error: boom"),
        _ => panic!("expected a failure"),
    }
    let msg = obj(vec![("id", num(2)), ("error", JsonValue::Null), ("result", num(1))]);
    match reply_step(msg, 2) {
        ReplyStep::Failed(t) => assert_eq!(t, "LSP error: unknown error"),
        _ => panic!("expected a failure"),
    }
}
