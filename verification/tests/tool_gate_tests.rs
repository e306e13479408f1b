use venus::hooks::PreToolUseResponse;
use venus::messages::ContentBlock;
use venus::permissions::PermissionDecision;
use venus::tool_gate::{after_hooks, after_permission, tool_calls, tool_error, unknown_tool_error, ToolStep};

fn proceed(s: &ToolStep) -> Option<&str> {
    match s {
        ToolStep::Proceed(t) => Some(t.as_str()),
        ToolStep::Refuse(_) => None,
    }
}

fn refused(s: &ToolStep) -> Option<&str> {
    match s {
        ToolStep::Refuse(t) => Some(t.as_str()),
        ToolStep::Proceed(_) => None,
    }
}

fn response(decision: Option<&str>, reason: Option<&str>, updated: Option<&str>) -> PreToolUseResponse {
    PreToolUseResponse {
        decision: decision.map(String::from),
        reason: reason.map(String::from),
        updated_input: updated.map(String::from),
    }
}

#[test]
fn tool_calls_are_taken_in_order() {
    let blocks = vec![
        ContentBlock::Text { text: "let me look".to_string() },
        ContentBlock::ToolUse { id: "a".to_string(), name: "Read".to_string(), input: "{}".to_string() },
        ContentBlock::Thinking { thinking: "t".to_string(), signature: String::new() },
        ContentBlock::ToolUse { id: "b".to_string(), name: "Bash".to_string(), input: "{\"command\":\"ls\"}".to_string() },
    ];
    let calls = tool_calls(&blocks);
    assert_eq!(calls.len(), 2);
    assert_eq!((calls[0].id.as_str(), calls[0].name.as_str(), calls[0].input.as_str()), ("a", "Read", "{}"));
    assert_eq!(calls[1].name, "Bash");
    assert_eq!(calls[1].input, "{\"command\":\"ls\"}");
    assert!(tool_calls(&vec![ContentBlock::Text { text: "done".to_string() }]).is_empty());
}

#[test]
fn hook_denial_refuses_with_reason() {
    let s = after_hooks("{}".to_string(), Some(response(Some("deny"), Some("no rm"), None)));
    assert_eq!(refused(&s), Some("Hook denied: no rm"));
    let s = after_hooks("{}".to_string(), Some(response(Some("deny"), None, Some("{\"x\":1}"))));
    assert_eq!(refused(&s), Some("Hook denied: blocked by hook"));
}

#[test]
fn hook_can_rewrite_the_input() {
    let s = after_hooks("{}".to_string(), Some(response(Some("allow"), None, Some("{\"x\":1}"))));
    assert_eq!(proceed(&s), Some("{\"x\":1}"));
    let s = after_hooks("{}".to_string(), Some(response(None, None, None)));
    assert_eq!(proceed(&s), Some("{}"));
    assert_eq!(proceed(&after_hooks("{\"a\":2}".to_string(), None)), Some("{\"a\":2}"));
}

#[test]
fn permission_denial_refuses() {
    let s = after_permission("{}".to_string(), &PermissionDecision::Deny("plan mode".to_string()));
    assert_eq!(refused(&s), Some("Permission denied: plan mode"));
    assert_eq!(proceed(&after_permission("{}".to_string(), &PermissionDecision::Allow)), Some("{}"));
    assert_eq!(
        proceed(&after_permission("{}".to_string(), &PermissionDecision::Ask("run ls".to_string()))),
        Some("{}")
    );
}

#[test]
fn tool_error_texts() {
    assert_eq!(unknown_tool_error("Frobnicate"), "unknown tool: Frobnicate");
    assert_eq!(tool_error("timed out"), "tool error: timed out");
}
