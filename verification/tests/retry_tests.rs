use venus::messages::ContentBlock;
use venus::retry::{
    api_error_message, backoff_delay, continuation_prompt, parse_retry_after, partial_content, send_decision,
    stream_decision, SendAction, SendOutcome, StreamAction, StreamFailure, MAX_RETRIES,
};

fn status(code: u16, retry_after: Option<&str>) -> SendOutcome {
    SendOutcome::Status { code, retry_after: retry_after.map(|s| s.to_string()) }
}

#[test]
fn backoff_doubles_from_one_second() {
    assert_eq!(backoff_delay(0), 1000);
    assert_eq!(backoff_delay(1), 2000);
    assert_eq!(backoff_delay(4), 16000);
    assert_eq!(backoff_delay(54), 18014398509481984000);
}

#[test]
fn retry_after_parses_like_u64_from_str() {
    assert_eq!(parse_retry_after("120"), Some(120));
    assert_eq!(parse_retry_after("+5"), Some(5));
    assert_eq!(parse_retry_after("0"), Some(0));
    assert_eq!(parse_retry_after("18446744073709551615"), Some(u64::MAX));
    assert_eq!(parse_retry_after("18446744073709551616"), None);
    assert_eq!(parse_retry_after(""), None);
    assert_eq!(parse_retry_after("+"), None);
    assert_eq!(parse_retry_after(" 5"), None);
    assert_eq!(parse_retry_after("1.5"), None);
    assert_eq!(parse_retry_after("-1"), None);
    for s in ["7", "+42", "x", "99999999999999999999"] {
        assert_eq!(parse_retry_after(s), s.parse::<u64>().ok());
    }
}

#[test]
fn success_is_delivered() {
    assert_eq!(send_decision(0, &status(200, None)), SendAction::Deliver);
    assert_eq!(send_decision(MAX_RETRIES, &status(204, None)), SendAction::Deliver);
}

#[test]
fn rate_limit_waits_with_backoff_and_notice() {
    assert_eq!(
        send_decision(0, &status(429, None)),
        SendAction::Wait {
            delay_ms: 1000,
            notice: Some("Rate limited (429), retrying in 1.0s...".to_string())
        }
    );
    assert_eq!(
        send_decision(3, &status(503, None)),
        SendAction::Wait {
            delay_ms: 8000,
            notice: Some("Rate limited (503), retrying in 8.0s...".to_string())
        }
    );
}

#[test]
fn retry_after_header_sets_delay_capped_at_a_minute() {
    assert_eq!(
        send_decision(1, &status(529, Some("7"))),
        SendAction::Wait {
            delay_ms: 7000,
            notice: Some("Rate limited (529), retrying in 7.0s...".to_string())
        }
    );
    assert_eq!(
        send_decision(2, &status(500, Some("120"))),
        SendAction::Wait {
            delay_ms: 60000,
            notice: Some("Rate limited (500), retrying in 60.0s...".to_string())
        }
    );
    // An unreadable header falls back to the backoff.
    assert_eq!(
        send_decision(2, &status(502, Some("soon"))),
        SendAction::Wait {
            delay_ms: 4000,
            notice: Some("Rate limited (502), retrying in 4.0s...".to_string())
        }
    );
}

#[test]
fn client_errors_and_last_attempt_give_up() {
    assert_eq!(send_decision(0, &status(400, None)), SendAction::GiveUp);
    assert_eq!(send_decision(0, &status(404, Some("3"))), SendAction::GiveUp);
    assert_eq!(send_decision(MAX_RETRIES, &status(429, None)), SendAction::GiveUp);
    assert_eq!(send_decision(MAX_RETRIES, &status(500, None)), SendAction::GiveUp);
}

#[test]
fn timeouts_retry_until_the_last_attempt() {
    assert_eq!(send_decision(3, &SendOutcome::Timeout), SendAction::Wait { delay_ms: 8000, notice: None });
    assert_eq!(send_decision(MAX_RETRIES, &SendOutcome::Timeout), SendAction::Fail);
    assert_eq!(send_decision(0, &SendOutcome::Failed), SendAction::Fail);
}

#[test]
fn api_error_keeps_at_most_500_body_bytes() {
    let long = "x".repeat(600);
    assert_eq!(
        api_error_message("429 Too Many Requests", &long),
        format!("API error (429 Too Many Requests): {}", "x".repeat(500))
    );
    assert_eq!(api_error_message("400 Bad Request", "oops"), "API error (400 Bad Request): oops");
    let wide = format!("{}{}", "é".repeat(250), "tail");
    assert_eq!(api_error_message("500", &wide), format!("API error (500): {}", "é".repeat(250)));
}

#[test]
fn stream_failures_recover_reconnect_or_fail() {
    assert_eq!(
        stream_decision(0, &StreamFailure::Interrupted { has_content: true }),
        StreamAction::Recover { notice: "Stream interrupted, recovering...".to_string() }
    );
    assert_eq!(
        stream_decision(1, &StreamFailure::Interrupted { has_content: false }),
        StreamAction::Reconnect { notice: "Stream interrupted, reconnecting...".to_string(), delay_ms: 2000 }
    );
    assert_eq!(
        stream_decision(0, &StreamFailure::Other),
        StreamAction::Reconnect { notice: "Stream interrupted, reconnecting...".to_string(), delay_ms: 1000 }
    );
    assert_eq!(stream_decision(2, &StreamFailure::Interrupted { has_content: true }), StreamAction::Fail);
    assert_eq!(stream_decision(2, &StreamFailure::Other), StreamAction::Fail);
}

#[test]
fn partial_content_keeps_text_and_thinking() {
    let blocks = vec![
        ContentBlock::Text { text: String::new() },
        ContentBlock::Text { text: "half an ans".to_string() },
        ContentBlock::ToolUse { id: "t1".to_string(), name: "Bash".to_string(), input: "{\"comm".to_string() },
        ContentBlock::Thinking { thinking: "hm".to_string(), signature: String::new() },
    ];
    let kept = partial_content(blocks);
    assert_eq!(kept.len(), 2);
    assert!(matches!(&kept[0], ContentBlock::Text { text } if text == "half an ans"));
    assert!(matches!(&kept[1], ContentBlock::Thinking { thinking, .. } if thinking == "hm"));
    assert!(partial_content(vec![ContentBlock::Text { text: String::new() }]).is_empty());
}

#[test]
fn continuation_prompt_text() {
    assert_eq!(
        continuation_prompt(),
        "[The previous response was interrupted mid-stream. Continue exactly where you left off.]"
    );
}
