use venus::json::{JsonNumber, JsonValue};
use venus::messages::ContentBlock;
use venus::stream_assembly::{BlockKind, StreamAssembly, StreamEvent};

fn s(t: &str) -> JsonValue {
    JsonValue::String(t.to_string())
}

fn n(v: u64) -> JsonValue {
    JsonValue::Number(JsonNumber { as_u64: Some(v), text: v.to_string() })
}

fn obj(ms: Vec<(&str, JsonValue)>) -> JsonValue {
    JsonValue::Object(ms.into_iter().map(|(k, v)| (k.to_string(), v)).collect())
}

fn delta(index: u64, ty: &str, key: &str, text: &str) -> JsonValue {
    obj(vec![("index", n(index)), ("delta", obj(vec![("type", s(ty)), (key, s(text))]))])
}

#[test]
fn assembles_text_and_tool_use() {
    let mut a = StreamAssembly::new();
    let start = obj(vec![(
        "message",
        obj(vec![
            ("model", s("opus-test")),
            ("usage", obj(vec![("input_tokens", n(12)), ("cache_read_input_tokens", n(3))])),
        ]),
    )]);
    assert!(a.apply("message_start", &start).is_none());
    assert_eq!(a.model, "opus-test");
    assert_eq!(a.usage.input_tokens, 12);
    assert_eq!(a.usage.cache_read_tokens, 3);
    assert_eq!(a.usage.cache_creation_tokens, 0);

    let b0 = obj(vec![("index", n(0)), ("content_block", obj(vec![("type", s("text"))]))]);
    assert!(a.apply("content_block_start", &b0).is_none());
    match a.apply("content_block_delta", &delta(0, "text_delta", "text", "Hel")) {
        Some(StreamEvent::TextDelta(t)) => assert_eq!(t, "Hel"),
        _ => panic!("expected a text delta"),
    }
    a.apply("content_block_delta", &delta(0, "text_delta", "text", "lo"));

    let b1 = obj(vec![
        ("index", n(1)),
        ("content_block", obj(vec![("type", s("tool_use")), ("id", s("tu_1")), ("name", s("Bash"))])),
    ]);
    match a.apply("content_block_start", &b1) {
        Some(StreamEvent::ToolUseStart { id, name }) => {
            assert_eq!(id, "tu_1");
            assert_eq!(name, "Bash");
        }
        _ => panic!("expected a tool use start"),
    }
    a.apply("content_block_delta", &delta(1, "input_json_delta", "partial_json", "{\"command\":"));
    match a.apply("content_block_delta", &delta(1, "input_json_delta", "partial_json", "\"ls\"}")) {
        Some(StreamEvent::ToolUseInput(t)) => assert_eq!(t, "\"ls\"}"),
        _ => panic!("expected tool input"),
    }
    let md = obj(vec![
        ("delta", obj(vec![("stop_reason", s("tool_use"))])),
        ("usage", obj(vec![("output_tokens", n(7))])),
    ]);
    assert!(a.apply("message_delta", &md).is_none());
    assert_eq!(a.stop_reason.as_deref(), Some("tool_use"));
    assert_eq!(a.usage.output_tokens, 7);
    assert_eq!(a.usage.input_tokens, 12);
    assert!(a.has_text());

    let blocks = a.content_blocks();
    assert_eq!(blocks.len(), 2);
    match &blocks[0] {
        ContentBlock::Text { text } => assert_eq!(text, "Hello"),
        _ => panic!("expected text"),
    }
    match &blocks[1] {
        ContentBlock::ToolUse { id, name, input } => {
            assert_eq!(id, "tu_1");
            assert_eq!(name, "Bash");
            assert_eq!(input, "{\n  \"command\": \"ls\"\n}");
        }
        _ => panic!("expected tool use"),
    }
    let msg = a.finish();
    assert_eq!(msg.model.as_deref(), Some("opus-test"));
    assert_eq!(msg.stop_reason.as_deref(), Some("tool_use"));
    assert_eq!(msg.content.len(), 2);
    assert_eq!(msg.uuid.len(), 36);
}

#[test]
fn start_at_a_later_index_adds_empty_blocks() {
    let mut a = StreamAssembly::new();
    let b2 = obj(vec![("index", n(2)), ("content_block", obj(vec![("type", s("thinking")), ("signature", s("sig"))]))]);
    a.apply("content_block_start", &b2);
    assert_eq!(a.blocks.len(), 3);
    assert_eq!(a.blocks[2].kind, BlockKind::Thinking);
    assert_eq!(a.blocks[0].kind, BlockKind::Text);
    match a.apply("content_block_delta", &delta(2, "thinking_delta", "thinking", "hmm")) {
        Some(StreamEvent::ThinkingDelta(t)) => assert_eq!(t, "hmm"),
        _ => panic!("expected thinking"),
    }
    assert!(!a.has_text());
    let blocks = a.content_blocks();
    assert_eq!(blocks.len(), 1);
    match &blocks[0] {
        ContentBlock::Thinking { thinking, signature } => {
            assert_eq!(thinking, "hmm");
            assert_eq!(signature, "sig");
        }
        _ => panic!("expected thinking"),
    }
}

#[test]
fn deltas_out_of_range_and_unknown_events_change_nothing() {
    let mut a = StreamAssembly::new();
    assert!(a.apply("content_block_delta", &delta(0, "text_delta", "text", "x")).is_none());
    assert!(a.blocks.is_empty());
    assert!(a.apply("ping", &obj(vec![])).is_none());
    let e = obj(vec![("error", obj(vec![("type", s("overloaded_error"))]))]);
    match a.apply("error", &e) {
        Some(StreamEvent::Error(m)) => assert_eq!(m, "unknown error"),
        _ => panic!("expected an error"),
    }
    let bad_tool = obj(vec![("index", n(0)), ("content_block", obj(vec![("type", s("tool_use"))]))]);
    a.apply("content_block_start", &bad_tool);
    let blocks = a.content_blocks();
    match &blocks[0] {
        ContentBlock::ToolUse { id, name, input } => {
            assert_eq!(id, "");
            assert_eq!(name, "");
            assert_eq!(input, "null");
        }
        _ => panic!("expected tool use"),
    }
}
