use venus::context_analysis::{analyze_context, BlockCost, MessageCost};

fn call(id: &str, name: &str, tokens: u64, path: Option<&str>) -> BlockCost {
    BlockCost::ToolUse { id: id.to_string(), name: name.to_string(), tokens, file_path: path.map(|p| p.to_string()) }
}

fn result(id: &str, texts: Vec<u64>) -> BlockCost {
    BlockCost::ToolResult { tool_use_id: id.to_string(), text_tokens: texts }
}

#[test]
fn analysis_breaks_down_a_conversation() {
    let ms = vec![
        MessageCost::User(vec![BlockCost::Text { tokens: 10 }]),
        MessageCost::Assistant(vec![
            BlockCost::Text { tokens: 4 },
            call("t1", "Read", 7, Some("/a.rs")),
            call("t2", "Read", 3, Some("/a.rs")),
            BlockCost::Thinking { tokens: 2 },
        ]),
        MessageCost::User(vec![result("t1", vec![5, 6]), result("t2", vec![]), result("zz", vec![1])]),
        MessageCost::System,
        MessageCost::User(vec![]),
    ];
    let a = analyze_context(&ms, 100);
    assert_eq!(a.system_prompt_tokens, 100);
    assert_eq!(a.user_text_tokens, 10);
    assert_eq!(a.assistant_text_tokens, 4);
    assert_eq!(a.thinking_tokens, 2);
    assert_eq!(a.tool_request_tokens, vec![("Read".to_string(), 10)]);
    assert_eq!(a.tool_result_tokens, vec![("Read".to_string(), 11), ("unknown".to_string(), 1)]);
    assert_eq!(a.total_tokens, 138);
    assert_eq!(a.message_count, 5);
    assert_eq!(a.turn_count, 2);
    assert_eq!(a.duplicate_file_reads, vec![("/a.rs".to_string(), 2)]);
}

#[test]
fn analysis_counts_reads_only_for_reading_tools() {
    let ms = vec![MessageCost::Assistant(vec![
        call("a", "Bash", 1, Some("/x")),
        call("b", "Bash", 1, Some("/x")),
        call("c", "FileRead", 1, Some("/y")),
        call("d", "file_read", 1, Some("/z")),
        call("e", "Read", 1, None),
    ])];
    let a = analyze_context(&ms, 0);
    assert!(a.duplicate_file_reads.is_empty());
    assert_eq!(
        a.tool_request_tokens,
        vec![("Bash".to_string(), 2), ("FileRead".to_string(), 1), ("file_read".to_string(), 1), ("Read".to_string(), 1)]
    );
    assert_eq!(a.turn_count, 0);
    assert_eq!(a.total_tokens, 5);
}

#[test]
fn analysis_names_results_only_from_assistant_calls() {
    let ms = vec![
        MessageCost::User(vec![call("u1", "Grep", 2, None)]),
        MessageCost::User(vec![result("u1", vec![3])]),
    ];
    let a = analyze_context(&ms, 1);
    assert_eq!(a.tool_request_tokens, vec![("Grep".to_string(), 2)]);
    assert_eq!(a.tool_result_tokens, vec![("unknown".to_string(), 3)]);
    assert_eq!(a.turn_count, 1);
    assert_eq!(a.total_tokens, 6);
}

#[test]
fn analysis_of_nothing_is_the_system_prompt() {
    let a = analyze_context(&vec![], 42);
    assert_eq!(a.total_tokens, 42);
    assert_eq!(a.message_count, 0);
    assert_eq!(a.turn_count, 0);
    assert!(a.tool_request_tokens.is_empty() && a.tool_result_tokens.is_empty());
}
