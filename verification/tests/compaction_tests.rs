use venus::compaction::{build_summary_user_message, microcompact, should_microcompact_at, CLEARED_MARKER};
use venus::messages::{AssistantMessage, ContentBlock, Message, SystemMessage, UserMessage};

fn text(s: &str) -> ContentBlock {
    ContentBlock::Text { text: s.to_string() }
}

fn user(content: Vec<ContentBlock>) -> Message {
    Message::User(UserMessage { uuid: "u".to_string(), content, timestamp: 10 })
}

fn assistant(content: Vec<ContentBlock>, timestamp: u64) -> Message {
    Message::Assistant(AssistantMessage { uuid: "a".to_string(), content, timestamp, model: None, stop_reason: None })
}

fn tool_use(id: &str, name: &str, input: &str) -> ContentBlock {
    ContentBlock::ToolUse { id: id.to_string(), name: name.to_string(), input: input.to_string() }
}

fn result(id: &str, body: &str, is_error: bool) -> ContentBlock {
    ContentBlock::ToolResult { tool_use_id: id.to_string(), content: vec![text(body)], is_error }
}

#[test]
fn summary_message_lays_out_each_kind() {
    let ms = vec![
        Message::System(SystemMessage { content: "be brief".to_string() }),
        user(vec![text("list files")]),
        assistant(
            vec![
                ContentBlock::Thinking { thinking: "hmm".to_string(), signature: "s".to_string() },
                text("Sure."),
                tool_use("t1", "Bash", "{\n  \"command\": \"ls\"\n}"),
            ],
            20,
        ),
        user(vec![result("t1", "a.txt", false), result("t2", "boom", true)]),
    ];
    let out = build_summary_user_message(&ms);
    let expected = "Please summarize the following conversation:\n\n---\n\n[System: be brief]\n\nUser:\nlist files\n\nAssistant:\nSure.\n[Tool Call: Bash]\n{\n  \"command\": \"ls\"\n}\n\n[Tool Result for t1]:\na.txt\n\n[Tool Error for t2]:\nboom\n\n---";
    assert_eq!(out, expected);
}

#[test]
fn summary_message_cuts_long_tool_results() {
    let long = "x".repeat(2500);
    let ms = vec![user(vec![result("t1", &long, false)])];
    let out = build_summary_user_message(&ms);
    let cut = format!("{}...[truncated]", "x".repeat(2000));
    assert!(out.contains(&cut));
    assert!(!out.contains(&"x".repeat(2001)));
}

#[test]
fn summary_message_of_nothing() {
    let out = build_summary_user_message(&vec![]);
    assert_eq!(out, "Please summarize the following conversation:\n\n---\n\n---");
}

#[test]
fn microcompact_clears_old_compactable_results() {
    let mut ms = vec![
        assistant(vec![tool_use("t1", "Read", "{}"), tool_use("t2", "TodoWrite", "{}")], 1),
        user(vec![result("t1", "file body", false), result("t2", "todo body", false)]),
        assistant(vec![tool_use("t3", "Bash", "{}")], 2),
        user(vec![result("t3", "recent output", false)]),
    ];
    let n = microcompact(&mut ms, 2);
    assert_eq!(n, 1);
    match &ms[1] {
        Message::User(u) => {
            match &u.content[0] {
                ContentBlock::ToolResult { tool_use_id, content, is_error } => {
                    assert_eq!(tool_use_id, "t1");
                    assert!(!is_error);
                    assert_eq!(content.len(), 1);
                    match &content[0] {
                        ContentBlock::Text { text } => assert_eq!(text, CLEARED_MARKER),
                        _ => panic!("expected text"),
                    }
                }
                _ => panic!("expected tool result"),
            }
            match &u.content[1] {
                ContentBlock::ToolResult { content, .. } => match &content[0] {
                    ContentBlock::Text { text } => assert_eq!(text, "todo body"),
                    _ => panic!("expected text"),
                },
                _ => panic!("expected tool result"),
            }
        }
        _ => panic!("expected user message"),
    }
    match &ms[3] {
        Message::User(u) => match &u.content[0] {
            ContentBlock::ToolResult { content, .. } => match &content[0] {
                ContentBlock::Text { text } => assert_eq!(text, "recent output"),
                _ => panic!("expected text"),
            },
            _ => panic!("expected tool result"),
        },
        _ => panic!("expected user message"),
    }
    assert_eq!(microcompact(&mut ms, 2), 0);
}

#[test]
fn microcompact_keeps_everything_when_short() {
    let mut ms = vec![
        assistant(vec![tool_use("t1", "Read", "{}")], 1),
        user(vec![result("t1", "body", false)]),
    ];
    assert_eq!(microcompact(&mut ms, 2), 0);
    assert_eq!(microcompact(&mut ms, 5), 0);
    assert_eq!(microcompact(&mut ms, 0), 1);
}

#[test]
fn microcompact_by_time_threshold() {
    let ms = vec![user(vec![text("hi")]), assistant(vec![text("yo")], 1000), user(vec![text("back")])];
    assert!(should_microcompact_at(&ms, 60, 1060));
    assert!(!should_microcompact_at(&ms, 60, 1059));
    assert!(!should_microcompact_at(&ms, 0, 1000));
    assert!(!should_microcompact_at(&vec![user(vec![text("hi")])], 0, 5000));
}

