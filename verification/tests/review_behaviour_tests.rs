use venus::commands::{command_action, Builtin, CommandAction};
use venus::compact_plan::{
    auto_compact_allowed, auto_compact_failures_after, compacted_messages, plan_compaction, ptl_drop_count,
    summary_retry, CompactError, SummaryRetry,
};
use venus::cron::{CronError, CronExpr, CronField, FieldError};
use venus::input_state::{CompletionItem, InputState};
use venus::messages::{parse_summary, truncate_text, AssistantMessage, ContentBlock, Message, UserMessage};
use venus::skills::{Skill, SkillRegistry};

fn item(label: &str) -> CompletionItem {
    CompletionItem { label: label.to_string(), description: String::new(), accept: label.to_string(), matched: vec![] }
}

#[test]
fn completion_selection_wraps_modulo_the_list() {
    let mut s = InputState::new();
    s.completion_items = vec![item("a"), item("b"), item("c")];
    s.completion_index = 0;
    s.move_completion(-2);
    assert_eq!(s.completion_index, 1);
    s.move_completion(-5);
    assert_eq!(s.completion_index, 2);
    s.move_completion(7);
    assert_eq!(s.completion_index, 0);
}

#[test]
fn truncate_counts_characters() {
    assert_eq!(truncate_text("ééé", 3), "ééé");
    assert_eq!(truncate_text("héllo", 2), "hé...[truncated]");
    assert_eq!(truncate_text("", 0), "");
}

#[test]
fn cron_ranges_are_checked_against_field_bounds() {
    assert_eq!(
        CronExpr::parse("0 9-30 * * *").err(),
        Some(CronError::Field(CronField::Hour, FieldError::OutOfRange))
    );
    assert_eq!(
        CronExpr::parse("0-60/5 * * * *").err(),
        Some(CronError::Field(CronField::Minute, FieldError::OutOfRange))
    );
    assert_eq!(
        CronExpr::parse("* * 0-3 * *").err(),
        Some(CronError::Field(CronField::DayOfMonth, FieldError::OutOfRange))
    );
    assert!(CronExpr::parse("0 9-17 * * 1-5").is_ok());
    assert!(CronExpr::parse("0 0-23/4 * * *").is_ok());
}

#[test]
fn delete_word_backward_handles_multibyte_words() {
    let mut s = InputState::new();
    s.buffer = "héllo".to_string();
    s.cursor_pos = 6;
    s.delete_word_backward();
    assert_eq!(s.buffer, "");
    assert_eq!(s.cursor_pos, 0);
}

#[test]
fn summary_with_reversed_tags_falls_back_to_text() {
    assert_eq!(parse_summary("</summary><summary>"), "</summary><summary>");
    assert_eq!(parse_summary(" x </summary> y <summary> "), "x </summary> y <summary>");
    assert_eq!(parse_summary("<summary> ok </summary>"), "ok");
}

fn registry() -> SkillRegistry {
    let mut r = SkillRegistry::new();
    r.add(Skill {
        name: "review-pr".to_string(),
        description: String::new(),
        content: "Review the PR.".to_string(),
        user_invocable: true,
        source_path: String::new(),
    });
    r
}

#[test]
fn commands_dispatch() {
    assert!(matches!(command_action("/quit", None, None), CommandAction::Exit));
    assert!(matches!(command_action("/q", None, None), CommandAction::Exit));
    assert!(matches!(command_action("/clear", None, None), CommandAction::Clear));
    assert!(matches!(command_action("/model", None, None), CommandAction::ShowModel));
    assert!(matches!(command_action("/model opus", None, None), CommandAction::SetModel(m) if m == "opus"));
    assert!(matches!(command_action("/vim", None, None), CommandAction::ToggleVim));
    assert!(matches!(
        command_action("/rewind 2", None, None),
        CommandAction::Run(Builtin::Rewind, Some(a)) if a == "2"
    ));
    assert!(matches!(command_action("/settings", None, None), CommandAction::Run(Builtin::Config, None)));
    let reg = registry();
    assert!(matches!(
        command_action("/review-pr 42", Some(&reg), None),
        CommandAction::Inject(m) if m == "Review the PR.\n\nArguments: 42"
    ));
    assert!(matches!(command_action("/nope", Some(&reg), None), CommandAction::Unknown(c) if c == "/nope"));
}

fn user(t: &str) -> Message {
    Message::User(UserMessage { uuid: "u".to_string(), content: vec![ContentBlock::Text { text: t.to_string() }], timestamp: 1 })
}

fn tool_result() -> Message {
    Message::User(UserMessage {
        uuid: "r".to_string(),
        content: vec![ContentBlock::ToolResult { tool_use_id: "t".to_string(), content: vec![], is_error: false }],
        timestamp: 1,
    })
}

fn assistant(t: &str) -> Message {
    Message::Assistant(AssistantMessage {
        uuid: "a".to_string(),
        content: vec![ContentBlock::Text { text: t.to_string() }],
        timestamp: 1,
        model: None,
        stop_reason: None,
    })
}

#[test]
fn compaction_plan_cuts_at_rounds() {
    let ms = vec![user("a"), assistant("1"), tool_result(), assistant("2"), user("b"), assistant("3")];
    let tokens = vec![1, 2, 3, 4, 5, 6];
    let p = plan_compaction(&ms, &tokens, 1).unwrap();
    assert_eq!((p.old_end, p.recent_start, p.old_tokens), (4, 4, 10));
    let p = plan_compaction(&ms, &tokens, 0).unwrap();
    assert_eq!((p.old_end, p.recent_start, p.old_tokens), (6, 6, 21));
    assert_eq!(plan_compaction(&ms, &tokens, 2).err(), Some(CompactError::TooFewGroups(2, 2)));
    let short = vec![user("a"), assistant("1"), user("b")];
    assert_eq!(plan_compaction(&short, &vec![1, 1, 1], 0).err(), Some(CompactError::TooShort(3)));
}

#[test]
fn compacted_conversation_keeps_recent_messages() {
    let ms = vec![user("a"), assistant("1"), user("b"), assistant("2")];
    let out = compacted_messages(ms, 2, "did a");
    assert_eq!(out.len(), 4);
    match &out[0] {
        Message::User(u) => assert!(matches!(&u.content[0], ContentBlock::Text { text }
            if text == "This conversation was compacted to reduce context length. Summary of previous work:\n\ndid a")),
        _ => panic!("expected the context message"),
    }
    assert!(matches!(&out[1], Message::Assistant(_)));
    assert!(matches!(&out[2], Message::User(u) if matches!(&u.content[0], ContentBlock::Text { text } if text == "b")));
}

#[test]
fn summary_retries_drop_a_quarter() {
    assert_eq!(ptl_drop_count(20), 5);
    assert_eq!(ptl_drop_count(3), 1);
    assert_eq!(summary_retry(0, "error: prompt is too long", 20), SummaryRetry::Drop(5));
    assert_eq!(summary_retry(3, "prompt is too long", 20), SummaryRetry::Fail);
    assert_eq!(summary_retry(1, "prompt is too long", 1), SummaryRetry::AllDropped);
    assert_eq!(summary_retry(0, "overloaded", 20), SummaryRetry::Fail);
}

#[test]
fn circuit_breaker_stops_after_three_failures() {
    let mut f = 0;
    for _ in 0..3 {
        assert!(auto_compact_allowed(f));
        f = auto_compact_failures_after(f, false);
    }
    assert!(!auto_compact_allowed(f));
    assert_eq!(auto_compact_failures_after(2, true), 0);
}
