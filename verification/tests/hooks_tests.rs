use venus::hooks::{
    glob_match, hook_timeout_secs, matching_hooks, pre_tool_use_step, prompt_hook_step, HookEntry,
    HookEvent, HookStep, PreToolUseResponse,
};

#[test]
fn test_glob_match_exact() {
    assert!(glob_match("Bash", "Bash"));
    assert!(!glob_match("Bash", "BashTerminal"));
}

#[test]
fn test_glob_match_wildcard() {
    assert!(glob_match("*", "Bash"));
    assert!(glob_match("*", "Read"));
}

#[test]
fn test_glob_match_prefix() {
    assert!(glob_match("Bash*", "Bash"));
    assert!(glob_match("Bash*", "BashTerminal"));
    assert!(!glob_match("Bash*", "Read"));
}

fn s(x: &str) -> String {
    x.to_string()
}

#[test]
fn test_event_name_all_variants() {
    let events = vec![
        (HookEvent::PreToolUse { session_id: s("s"), tool_name: s("t"), tool_input: s("null") }, "PreToolUse"),
        (HookEvent::PostToolUse { session_id: s("s"), tool_name: s("t"), tool_input: s("null"), tool_result: s("r"), is_error: false }, "PostToolUse"),
        (HookEvent::UserPromptSubmit { session_id: s("s"), prompt: s("p") }, "UserPromptSubmit"),
        (HookEvent::SessionStart { session_id: s("s"), cwd: s("/"), model: s("m") }, "SessionStart"),
        (HookEvent::PreCompact { session_id: s("s"), message_count: 0 }, "PreCompact"),
        (HookEvent::PostCompact { session_id: s("s"), messages_before: 0, messages_after: 0 }, "PostCompact"),
        (HookEvent::Stop { session_id: s("s") }, "Stop"),
        (HookEvent::PostToolUseFailure { session_id: s("s"), tool_name: s("t"), error: s("e") }, "PostToolUseFailure"),
        (HookEvent::SessionEnd { session_id: s("s"), message_count: 5 }, "SessionEnd"),
        (HookEvent::SubagentStart { session_id: s("s"), description: s("d") }, "SubagentStart"),
        (HookEvent::SubagentStop { session_id: s("s") }, "SubagentStop"),
        (HookEvent::PermissionRequest { session_id: s("s"), tool_name: s("t") }, "PermissionRequest"),
        (HookEvent::FileChanged { session_id: s("s"), path: s("f.rs"), change_type: s("modified") }, "FileChanged"),
        (HookEvent::TaskCreated { session_id: s("s"), task_id: s("t1"), subject: s("subj") }, "TaskCreated"),
        (HookEvent::TaskCompleted { session_id: s("s"), task_id: s("t1") }, "TaskCompleted"),
    ];

    for (event, expected_name) in events {
        assert_eq!(event.event_name(), expected_name);
    }
}

#[test]
fn test_tool_name_returns_some_for_tool_events() {
    let tool_events: Vec<HookEvent> = vec![
        HookEvent::PreToolUse { session_id: s("s"), tool_name: s("Bash"), tool_input: s("null") },
        HookEvent::PostToolUse { session_id: s("s"), tool_name: s("Edit"), tool_input: s("null"), tool_result: s(""), is_error: false },
        HookEvent::PostToolUseFailure { session_id: s("s"), tool_name: s("Write"), error: s("fail") },
        HookEvent::PermissionRequest { session_id: s("s"), tool_name: s("Bash") },
    ];
    for event in &tool_events {
        assert!(event.tool_name().is_some(), "expected tool_name for {}", event.event_name());
    }
}

#[test]
fn test_tool_name_returns_none_for_non_tool_events() {
    let non_tool_events: Vec<HookEvent> = vec![
        HookEvent::UserPromptSubmit { session_id: s("s"), prompt: s("p") },
        HookEvent::SessionStart { session_id: s("s"), cwd: s("/"), model: s("m") },
        HookEvent::Stop { session_id: s("s") },
        HookEvent::SessionEnd { session_id: s("s"), message_count: 0 },
        HookEvent::SubagentStart { session_id: s("s"), description: s("d") },
        HookEvent::SubagentStop { session_id: s("s") },
        HookEvent::FileChanged { session_id: s("s"), path: s("f"), change_type: s("added") },
        HookEvent::TaskCreated { session_id: s("s"), task_id: s("t"), subject: s("s") },
        HookEvent::TaskCompleted { session_id: s("s"), task_id: s("t") },
        HookEvent::PreCompact { session_id: s("s"), message_count: 0 },
        HookEvent::PostCompact { session_id: s("s"), messages_before: 0, messages_after: 0 },
    ];
    for event in &non_tool_events {
        assert!(event.tool_name().is_none(), "expected None for {}", event.event_name());
    }
}

#[test]
fn matching_hooks_filters_by_tool() {
    let entries = vec![
        HookEntry { matcher: None },
        HookEntry { matcher: Some(s("Bash*")) },
        HookEntry { matcher: Some(s("Read")) },
    ];
    let ev = HookEvent::PreToolUse { session_id: s("s"), tool_name: s("BashTool"), tool_input: s("{}") };
    assert_eq!(matching_hooks(&entries, &ev), vec![0, 1]);
    let stop = HookEvent::Stop { session_id: s("s") };
    assert_eq!(matching_hooks(&entries, &stop), vec![0, 1, 2]);
}

#[test]
fn hook_steps() {
    match pre_tool_use_step(2, "  \n") {
        HookStep::Block(r) => assert_eq!(r, "blocked by hook (exit code 2)"),
        _ => panic!(),
    }
    match prompt_hook_step(2, " nope ") {
        HookStep::Block(r) => assert_eq!(r, "nope"),
        _ => panic!(),
    }
    match pre_tool_use_step(0, " {\"decision\":\"deny\"} ") {
        HookStep::Inspect(t) => assert_eq!(t, "{\"decision\":\"deny\"}"),
        _ => panic!(),
    }
    assert!(matches!(pre_tool_use_step(1, ""), HookStep::Next));
    assert!(PreToolUseResponse::blocked(s("x")).settles());
    assert_eq!(hook_timeout_secs(0), 10);
    assert_eq!(hook_timeout_secs(3), 3);
}

fn data_of(event: &HookEvent) -> serde_json::Value {
    serde_json::from_str(&event.event_data()).unwrap()
}

#[test]
fn test_event_data_serialization() {
    let event = HookEvent::PostToolUseFailure {
        session_id: "sess1".into(),
        tool_name: "Bash".into(),
        error: "command failed".into(),
    };
    let data = data_of(&event);
    assert_eq!(data["session_id"], "sess1");
    assert_eq!(data["tool_name"], "Bash");
    assert_eq!(data["error"], "command failed");
}

#[test]
fn test_event_data_session_end() {
    let event = HookEvent::SessionEnd { session_id: "sess1".into(), message_count: 42 };
    let data = data_of(&event);
    assert_eq!(data["session_id"], "sess1");
    assert_eq!(data["message_count"], 42);
}

#[test]
fn test_event_data_subagent_start() {
    let event = HookEvent::SubagentStart { session_id: "sess1".into(), description: "run tests".into() };
    let data = data_of(&event);
    assert_eq!(data["description"], "run tests");
}

#[test]
fn test_event_data_file_changed() {
    let event = HookEvent::FileChanged {
        session_id: "sess1".into(),
        path: "src/main.rs".into(),
        change_type: "modified".into(),
    };
    let data = data_of(&event);
    assert_eq!(data["path"], "src/main.rs");
    assert_eq!(data["change_type"], "modified");
}

#[test]
fn test_event_data_task_created() {
    let event = HookEvent::TaskCreated {
        session_id: "sess1".into(),
        task_id: "task_1".into(),
        subject: "Fix bug".into(),
    };
    let data = data_of(&event);
    assert_eq!(data["task_id"], "task_1");
    assert_eq!(data["subject"], "Fix bug");
}

#[test]
fn test_event_data_task_completed() {
    let event = HookEvent::TaskCompleted { session_id: "sess1".into(), task_id: "task_1".into() };
    let data = data_of(&event);
    assert_eq!(data["task_id"], "task_1");
}

#[test]
fn event_data_escapes_and_embeds_tool_input() {
    let event = HookEvent::PostToolUse {
        session_id: "s".into(),
        tool_name: "Bash".into(),
        tool_input: "{\n  \"command\": \"echo \\\"hi\\\"\"\n}".into(),
        tool_result: "line1\nline2\t\"q\" \\ \u{1}".into(),
        is_error: true,
    };
    let text = event.event_data();
    let data: serde_json::Value = serde_json::from_str(&text).unwrap();
    assert_eq!(data["tool_input"]["command"], "echo \"hi\"");
    assert_eq!(data["tool_result"], "line1\nline2\t\"q\" \\ \u{1}");
    assert_eq!(data["is_error"], true);
    assert!(text.contains("\\u0001"));
    for m in ["a\"b", "\u{8}\u{c}\u{1f}é"] {
        assert_eq!(
            venus::lsp_wire::notification_text(m, "{}"),
            format!("{{\"jsonrpc\":\"2.0\",\"method\":{},\"params\":{{}}}}", serde_json::to_string(m).unwrap())
        );
    }
}
