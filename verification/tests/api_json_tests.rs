use venus::api_json::{content_blocks_to_api, messages_to_api_params};
use venus::messages::{AssistantMessage, ContentBlock, Message, SystemMessage, UserMessage};

fn parse(text: &str) -> serde_json::Value {
    serde_json::from_str(text).unwrap()
}

#[test]
fn test_messages_to_api_params_filters_system() {
    let messages = vec![
        Message::System(SystemMessage { content: "sys".to_string() }),
        Message::User(UserMessage {
            uuid: "u1".to_string(),
            content: vec![ContentBlock::text("hello".to_string())],
            timestamp: 0,
        }),
        Message::Assistant(AssistantMessage {
            uuid: "a1".to_string(),
            content: vec![ContentBlock::text("world".to_string())],
            timestamp: 0,
            model: None,
            stop_reason: None,
        }),
    ];
    let params = messages_to_api_params(&messages);
    assert_eq!(params.len(), 2);
    assert_eq!(parse(&params[0])["role"], "user");
    assert_eq!(parse(&params[1])["role"], "assistant");
}

#[test]
fn test_content_blocks_to_api_text() {
    let blocks = vec![ContentBlock::text("hello".to_string())];
    let api = parse(&content_blocks_to_api(&blocks));
    assert_eq!(api[0]["type"], "text");
    assert_eq!(api[0]["text"], "hello");
}

#[test]
fn test_content_blocks_to_api_tool_use() {
    let blocks = vec![ContentBlock::ToolUse {
        id: "tu_1".to_string(),
        name: "Bash".to_string(),
        input: "{\n  \"command\": \"ls\"\n}".to_string(),
    }];
    let api = parse(&content_blocks_to_api(&blocks));
    assert_eq!(api[0]["type"], "tool_use");
    assert_eq!(api[0]["name"], "Bash");
    assert_eq!(api[0]["input"]["command"], "ls");
}

#[test]
fn test_content_blocks_to_api_thinking() {
    let blocks = vec![ContentBlock::Thinking { thinking: "reasoning".to_string(), signature: "sig".to_string() }];
    let api = parse(&content_blocks_to_api(&blocks));
    assert_eq!(api[0]["type"], "thinking");
    assert_eq!(api[0]["thinking"], "reasoning");
}

#[test]
fn tool_results_nest_their_content() {
    let blocks = vec![ContentBlock::ToolResult {
        tool_use_id: "tu_1".to_string(),
        content: vec![ContentBlock::text("out \"quoted\"".to_string())],
        is_error: false,
    }];
    let text = content_blocks_to_api(&blocks);
    let api = parse(&text);
    assert_eq!(api[0]["type"], "tool_result");
    assert_eq!(api[0]["tool_use_id"], "tu_1");
    assert_eq!(api[0]["is_error"], false);
    assert_eq!(api[0]["content"][0]["text"], "out \"quoted\"");
    assert_eq!(content_blocks_to_api(&vec![]), "[]");
}
