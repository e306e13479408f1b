use venus::messages::ContentBlock;
use venus::permissions::ToolInput;
use venus::transcript::{
    append_text_delta, auto_compact_notice, record_error, record_tool_input, record_tool_result, start_tool_call,
};
use venus::ui_state::{DisplayMessage, RenderSegment};

fn texts(m: &DisplayMessage) -> Vec<String> {
    match m {
        DisplayMessage::Assistant { segments } => segments
            .iter()
            .map(|s| match s {
                RenderSegment::Text(t) => t.clone(),
            })
            .collect(),
        _ => panic!("expected an assistant message"),
    }
}

fn call(m: &DisplayMessage) -> (String, String, bool, String) {
    match m {
        DisplayMessage::ToolCall { name, activity, is_error, summary } => {
            (name.clone(), activity.clone(), *is_error, summary.clone())
        }
        _ => panic!("expected a tool call"),
    }
}

#[test]
fn text_deltas_grow_the_last_segment() {
    let mut ms = vec![DisplayMessage::User { text: "hi".to_string() }];
    append_text_delta(&mut ms, "Hel");
    append_text_delta(&mut ms, "lo");
    assert_eq!(ms.len(), 2);
    assert_eq!(texts(&ms[1]), vec!["Hello".to_string()]);
    start_tool_call(&mut ms, "Bash".to_string());
    append_text_delta(&mut ms, "after");
    assert_eq!(ms.len(), 4);
    assert_eq!(texts(&ms[3]), vec!["after".to_string()]);
    let mut empty = vec![DisplayMessage::Assistant { segments: vec![] }];
    append_text_delta(&mut empty, "x");
    assert_eq!(texts(&empty[0]), vec!["x".to_string()]);
}

#[test]
fn tool_calls_get_activity_and_summary() {
    let mut ms = Vec::new();
    start_tool_call(&mut ms, "Read".to_string());
    start_tool_call(&mut ms, "Bash".to_string());
    let input = ToolInput {
        string_fields: vec![("command".to_string(), "cargo test".to_string())],
        json: "{}".to_string(),
    };
    record_tool_input(&mut ms, Some(&input));
    assert_eq!(call(&ms[1]).1, "cargo test");
    assert_eq!(call(&ms[0]).1, "");
    record_tool_input(&mut ms, None);
    assert_eq!(call(&ms[0]).1, "");
    let out = vec![
        ContentBlock::Text { text: "line one\nline two".to_string() },
        ContentBlock::Text { text: "three".to_string() },
    ];
    record_tool_result(&mut ms, "Bash", &out, true);
    assert_eq!(call(&ms[1]), ("Bash".to_string(), "cargo test".to_string(), true, "Bash (3 lines, 23 chars)".to_string()));
    record_tool_result(&mut ms, "Read", &vec![], false);
    assert_eq!(call(&ms[0]).3, "Read (1 lines, 0 chars)");
    record_tool_result(&mut ms, "Grep", &vec![], false);
    assert_eq!(ms.len(), 2);
}

#[test]
fn errors_and_notices() {
    let mut ms = Vec::new();
    record_error(&mut ms, "overloaded".to_string());
    match &ms[0] {
        DisplayMessage::Error { text } => assert_eq!(text, "overloaded"),
        _ => panic!("expected an error"),
    }
    assert_eq!(auto_compact_notice(12, 3400), "[auto-compacted: removed 12 messages, ~3400 tokens saved]");
}
