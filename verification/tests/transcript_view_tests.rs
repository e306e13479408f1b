use venus::compact_plan::{clear_before_grouping, summary_outcome, CompactError};
use venus::messages::{AssistantMessage, ContentBlock, Message, UserMessage};
use venus::transcript_view::{
    diff_row, diff_slots, diff_status_line, status_divider, tool_header, tool_tree_rows, user_card, DiffKind, DiffSlot,
};

fn rows(output: &str) -> Vec<(bool, String, bool)> {
    tool_tree_rows(output).into_iter().map(|r| (r.last, r.text, r.marker)).collect()
}

#[test]
fn tree_rows_empty_output_has_none() {
    assert!(rows("").is_empty());
}

#[test]
fn tree_rows_short_output_in_full() {
    assert_eq!(
        rows("a\nb\nc"),
        vec![(false, "a".to_string(), false), (false, "b".to_string(), false), (true, "c".to_string(), false)]
    );
    assert_eq!(rows("only\n"), vec![(true, "only".to_string(), false)]);
}

#[test]
fn tree_rows_long_output_collapses_the_middle() {
    assert_eq!(
        rows("1\n2\n3\n4\n5\n6\n7"),
        vec![
            (false, "1".to_string(), false),
            (false, "2".to_string(), false),
            (false, "\u{2026} +4 lines".to_string(), true),
            (true, "7".to_string(), false),
        ]
    );
    assert_eq!(rows("1\n2\n3\n4\n5").len(), 5);
    assert_eq!(rows("1\n2\n3\n4\n5\n6")[2].1, "\u{2026} +3 lines");
}

#[test]
fn diff_slots_short_and_long() {
    assert_eq!(diff_slots(0), vec![]);
    assert_eq!(diff_slots(3), vec![DiffSlot::Line(0), DiffSlot::Line(1), DiffSlot::Line(2)]);
    assert_eq!(diff_slots(12).len(), 12);
    assert_eq!(
        diff_slots(20),
        vec![
            DiffSlot::Line(0),
            DiffSlot::Line(1),
            DiffSlot::Line(2),
            DiffSlot::Line(3),
            DiffSlot::Line(4),
            DiffSlot::Line(5),
            DiffSlot::Hidden(13),
            DiffSlot::Line(19),
        ]
    );
}

#[test]
fn status_divider_centres_the_text() {
    assert_eq!(status_divider("hi", 10), "--- hi ---");
    assert_eq!(status_divider("hi", 11), "--- hi ----");
    assert_eq!(status_divider("hello", 7), "hello");
    assert_eq!(status_divider("hello", 0), "hello");
    assert_eq!(status_divider("\u{4e2d}", 8), "-- \u{4e2d} --");
}

#[test]
fn user_card_pads_rows_and_caption() {
    let card: Vec<(String, usize)> = user_card("hi\nyou", 6, 3).into_iter().map(|r| (r.text, r.pad)).collect();
    assert_eq!(card, vec![("hi".to_string(), 4), ("you".to_string(), 3), ("#3".to_string(), 4)]);
    let wide: Vec<(String, usize)> = user_card("abcdef", 4, 12).into_iter().map(|r| (r.text, r.pad)).collect();
    assert_eq!(wide, vec![("abcd".to_string(), 0), ("ef".to_string(), 2), ("#12".to_string(), 1)]);
}

fn text(s: &str) -> ContentBlock {
    ContentBlock::Text { text: s.to_string() }
}

fn user(content: Vec<ContentBlock>) -> Message {
    Message::User(UserMessage { uuid: "u".to_string(), content, timestamp: 10 })
}

fn assistant(content: Vec<ContentBlock>) -> Message {
    Message::Assistant(AssistantMessage { uuid: "a".to_string(), content, timestamp: 1, model: None, stop_reason: None })
}

fn tool_use(id: &str, name: &str) -> ContentBlock {
    ContentBlock::ToolUse { id: id.to_string(), name: name.to_string(), input: "{}".to_string() }
}

fn result(id: &str, body: &str) -> ContentBlock {
    ContentBlock::ToolResult { tool_use_id: id.to_string(), content: vec![text(body)], is_error: false }
}

fn conversation() -> Vec<Message> {
    vec![
        assistant(vec![tool_use("t1", "Read")]),
        user(vec![result("t1", "file body")]),
        assistant(vec![tool_use("t2", "Read")]),
        user(vec![result("t2", "other body")]),
    ]
}

#[test]
fn clear_before_grouping_refuses_short_conversations() {
    let mut ms = vec![user(vec![text("hi")])];
    assert_eq!(clear_before_grouping(&mut ms, 0), Err(CompactError::TooShort(1)));
    assert_eq!(ms.len(), 1);
}

#[test]
fn clear_before_grouping_clears_outside_kept_rounds() {
    let mut ms = conversation();
    assert_eq!(clear_before_grouping(&mut ms, 0), Ok(2));
    let mut kept = conversation();
    assert_eq!(clear_before_grouping(&mut kept, 1), Ok(0));
    match &kept[1] {
        Message::User(u) => match &u.content[0] {
            ContentBlock::ToolResult { content, .. } => match &content[0] {
                ContentBlock::Text { text } => assert_eq!(text, "file body"),
                _ => panic!("expected text"),
            },
            _ => panic!("expected a tool result"),
        },
        _ => panic!("expected a user message"),
    }
}

#[test]
fn summary_outcome_refuses_empty_summary() {
    assert_eq!(summary_outcome(String::new()), Err(CompactError::EmptySummary));
    assert_eq!(summary_outcome("the gist".to_string()), Ok("the gist".to_string()));
}

#[test]
fn tool_header_brackets_the_activity() {
    assert_eq!(tool_header("Bash", "git branch"), "Bash(git branch)");
    assert_eq!(tool_header("Read", ""), "Read");
}

#[test]
fn diff_status_line_falls_back_to_the_path() {
    assert_eq!(diff_status_line(" \n ", "/src/a.rs"), "/src/a.rs");
    assert_eq!(diff_status_line("Wrote /src/a.rs (3 lines)", "/src/a.rs"), "Wrote /src/a.rs (3 lines)");
}

#[test]
fn diff_row_lays_out_gutter_sign_and_band() {
    assert_eq!(
        diff_row(false, Some(12), Some(13), DiffKind::Add, "x = 1", 40),
        ("  \u{2502}   12   13 + x = 1".to_string(), 19)
    );
    assert_eq!(
        diff_row(false, Some(7), None, DiffKind::Remove, "y", 10),
        ("  \u{2502}    7      - y".to_string(), 0)
    );
    assert_eq!(
        diff_row(true, Some(3), Some(3), DiffKind::Context, "z", 40),
        ("  \u{2514}    3    3   z".to_string(), 0)
    );
    assert_eq!(
        diff_row(true, None, None, DiffKind::Marker, "\u{2026} +4 lines", 30),
        ("  \u{2514}             \u{2026} +4 lines".to_string(), 4)
    );
    assert_eq!(diff_row(false, Some(12345), Some(9), DiffKind::Hunk, "@@", 0).0, "  \u{2502} 12345    9   @@");
}
