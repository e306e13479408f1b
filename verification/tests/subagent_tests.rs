use venus::messages::{AssistantMessage, ContentBlock, Message, SubAgent, UserMessage, SUBAGENT_SYSTEM_PROMPT};

fn assistant(texts: &[&str]) -> Message {
    Message::Assistant(AssistantMessage {
        uuid: "a".to_string(),
        content: texts.iter().map(|t| ContentBlock::Text { text: t.to_string() }).collect(),
        timestamp: 0,
        model: None,
        stop_reason: None,
    })
}

fn user(text: &str) -> Message {
    Message::User(UserMessage { uuid: "u".to_string(), content: vec![ContentBlock::Text { text: text.to_string() }], timestamp: 0 })
}

#[test]
fn subagent_model_prefers_the_configured_one() {
    assert_eq!(SubAgent::model(Some("small".to_string()), "default-model"), "small");
    assert_eq!(SubAgent::model(None, "default-model"), "default-model");
}

#[test]
fn subagent_result_is_the_last_answer() {
    let r = SubAgent::result(&vec![user("q"), assistant(&["part1", "part2"]), user("thanks")]);
    assert_eq!(r.output, "part1\npart2");
    assert!(!r.is_error);
    let none = SubAgent::result(&vec![user("q")]);
    assert_eq!(none.output, "(sub-agent produced no text output)");
    assert!(!none.is_error);
}

#[test]
fn subagent_system_prompt_asks_for_a_final_answer() {
    assert!(SUBAGENT_SYSTEM_PROMPT.starts_with("You are a sub-agent spawned to handle a specific task."));
    assert!(SUBAGENT_SYSTEM_PROMPT.ends_with("provide your final answer as plain text."));
}
