use venus::messages::{
    extract_final_response, format_compact_context, parse_summary, summarization_system_prompt,
    truncate_text, AssistantMessage, CompactConfig, ContentBlock, Message, SystemMessage,
    UserMessage,
};

fn user(content: Vec<ContentBlock>) -> UserMessage {
    UserMessage { uuid: "u-1".to_string(), content, timestamp: 1 }
}

fn assistant(content: Vec<ContentBlock>) -> AssistantMessage {
    AssistantMessage { uuid: "a-1".to_string(), content, timestamp: 1, model: None, stop_reason: None }
}

fn make_assistant_msg(texts: &[&str]) -> Message {
    let content: Vec<ContentBlock> = texts.iter().map(|t| ContentBlock::text(t.to_string())).collect();
    Message::Assistant(assistant(content))
}

fn make_user_msg(text: &str) -> Message {
    Message::User(user(vec![ContentBlock::text(text.to_string())]))
}

#[test]
fn test_content_block_text() {
    let block = ContentBlock::text("hello".to_string());
    match block {
        ContentBlock::Text { text } => assert_eq!(text, "hello"),
        _ => panic!("expected Text"),
    }
}

#[test]
fn test_content_block_tool_result() {
    let block = ContentBlock::tool_result(
        "tool_1".to_string(),
        vec![ContentBlock::text("result".to_string())],
        false,
    );
    match block {
        ContentBlock::ToolResult { tool_use_id, content, is_error } => {
            assert_eq!(tool_use_id, "tool_1");
            assert_eq!(content.len(), 1);
            assert!(!is_error);
        }
        _ => panic!("expected ToolResult"),
    }
}

#[test]
fn test_message_timestamp() {
    let user = Message::User(user(vec![ContentBlock::text("hi".to_string())]));
    assert!(user.timestamp().is_some());

    let system = Message::System(SystemMessage { content: "sys".to_string() });
    assert!(system.timestamp().is_none());
}

#[test]
fn test_message_is_tool_result() {
    let tool_result = Message::User(UserMessage {
        uuid: "test".to_string(),
        content: vec![ContentBlock::tool_result(
            "id1".to_string(),
            vec![ContentBlock::text("out".to_string())],
            false,
        )],
        timestamp: 0,
    });
    assert!(tool_result.is_tool_result());

    let text_msg = Message::User(UserMessage {
        uuid: "test".to_string(),
        content: vec![ContentBlock::text("hello".to_string())],
        timestamp: 0,
    });
    assert!(!text_msg.is_tool_result());

    let assistant = Message::Assistant(assistant(vec![ContentBlock::text("hi".to_string())]));
    assert!(!assistant.is_tool_result());
}

#[test]
fn test_extract_from_last_assistant() {
    let messages = vec![make_user_msg("question"), make_assistant_msg(&["answer"])];
    assert_eq!(extract_final_response(&messages), "answer");
}

#[test]
fn test_extract_multiple_text_blocks() {
    let messages = vec![make_assistant_msg(&["part1", "part2"])];
    assert_eq!(extract_final_response(&messages), "part1\npart2");
}

#[test]
fn test_extract_skips_user_messages() {
    let messages = vec![
        make_user_msg("first"),
        make_assistant_msg(&["ignored"]),
        make_user_msg("second"),
    ];
    assert_eq!(extract_final_response(&messages), "ignored");
}

#[test]
fn test_extract_empty_messages() {
    let messages = vec![];
    assert_eq!(extract_final_response(&messages), "(sub-agent produced no text output)");
}

#[test]
fn test_extract_no_assistant_messages() {
    let messages = vec![make_user_msg("hello"), make_user_msg("world")];
    assert_eq!(extract_final_response(&messages), "(sub-agent produced no text output)");
}

#[test]
fn test_extract_last_assistant_ignores_earlier() {
    let messages = vec![
        make_assistant_msg(&["first answer"]),
        make_user_msg("follow up"),
        make_assistant_msg(&["second answer"]),
    ];
    assert_eq!(extract_final_response(&messages), "second answer");
}

#[test]
fn extract_skips_assistant_without_text() {
    let messages = vec![
        make_assistant_msg(&["earlier"]),
        Message::Assistant(assistant(vec![ContentBlock::ToolUse {
            id: "t".to_string(),
            name: "Bash".to_string(),
            input: "{}".to_string(),
        }])),
    ];
    assert_eq!(extract_final_response(&messages), "earlier");
}

#[test]
fn parse_summary_takes_summary_section() {
    let r = "<analysis>thinking</analysis>\n<summary>\n  The work.\n</summary>";
    assert_eq!(parse_summary(r), "The work.");
    assert_eq!(parse_summary("  no tags  "), "no tags");
    assert_eq!(parse_summary("a<analysis>x</analysis>b"), "ab");
}

#[test]
fn compact_context_and_prompt() {
    assert_eq!(
        format_compact_context("S"),
        "This conversation was compacted to reduce context length. Summary of previous work:\n\nS"
    );
    let p = summarization_system_prompt();
    assert!(p.starts_with("You are a conversation summarizer."));
    assert!(p.ends_with("REMINDER: Do NOT call any tools. Respond with plain text only."));
}

#[test]
fn truncate_text_marks_cut() {
    assert_eq!(truncate_text("hello", 10), "hello");
    assert_eq!(truncate_text("hello world", 5), "hello...[truncated]");
}

#[test]
fn compact_config_defaults() {
    let c = CompactConfig::from_engine("m", "x-api-key", "k", "https://api");
    assert_eq!(c.keep_recent_groups, 2);
    assert_eq!(c.max_summary_tokens, 8192);
    assert_eq!(c.model, "m");
    assert_eq!(c.base_url, "https://api");
}

#[test]
fn test_user_message_new() {
    let msg = UserMessage::new(vec![ContentBlock::text("test".to_string())]);
    assert!(!msg.uuid.is_empty());
    assert_eq!(msg.content.len(), 1);
    assert!(msg.timestamp > 0);
}

#[test]
fn test_assistant_message_new() {
    let msg = AssistantMessage::new(vec![ContentBlock::text("response".to_string())]);
    assert!(!msg.uuid.is_empty());
    assert_eq!(msg.content.len(), 1);
    assert!(msg.model.is_none());
    assert!(msg.stop_reason.is_none());
}

#[test]
fn new_messages_get_distinct_hyphenated_ids() {
    let a = UserMessage::new(vec![]);
    let b = UserMessage::new(vec![]);
    assert_eq!(a.uuid.len(), 36);
    assert_eq!(a.uuid.matches('-').count(), 4);
    assert_ne!(a.uuid, b.uuid);
}
