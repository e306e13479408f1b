use venus::lsp::{detect_language_server, ext_to_language_id, path_to_uri, symbol_kind_name, uri_to_path};
use venus::sse::{SseParser, SseParserInline};
use venus::ui_state::{get_effort_label, spinner_message, truncate_str, PickerItem, PickerSource, PickerState, SpinnerState};

#[test]
fn sse_parser_splits_events() {
    let mut p = SseParser::new();
    let evs = p.feed(b"event: message_start\ndata: {\"a\":1}\n\nevent: ping\ndata:{}\n\npartial");
    assert_eq!(evs.len(), 2);
    assert_eq!(evs[0].event_type, "message_start");
    assert_eq!(evs[0].data, " {\"a\":1}");
    assert_eq!(evs[1].data, "{}");
    assert_eq!(p.buffer, "partial");
    let more = p.feed(b"\n\n");
    assert!(more.is_empty());
    assert_eq!(p.buffer, "");
}

#[test]
fn sse_parser_skips_event_without_data() {
    let mut p = SseParser::new();
    let evs = p.feed(b"event: ping\n\ndata: 1\n\n");
    assert_eq!(evs.len(), 1);
    assert_eq!(evs[0].data, " 1");
    assert_eq!(p.buffer, "");
}

#[test]
fn sse_parser_crlf_and_multiline_data() {
    let mut p = SseParser::new();
    let evs = p.feed(b"data: a\r\ndata: b\r\n\r\n");
    assert_eq!(evs.len(), 1);
    assert_eq!(evs[0].data, " a\n b");
    assert_eq!(evs[0].event_type, "");
}

#[test]
fn inline_parser_hands_out_every_event() {
    let mut p = SseParserInline::new();
    p.push_bytes(b"event:delta\ndata: {\"x\":2}\n\nevent: ping\n\n");
    let (t, d) = p.next_raw_event().unwrap();
    assert_eq!(t, "delta");
    assert_eq!(d, "{\"x\":2}");
    let (t2, d2) = p.next_raw_event().unwrap();
    assert_eq!(t2, "ping");
    assert_eq!(d2, "");
    assert!(p.next_raw_event().is_none());
}

#[test]
fn lsp_helpers() {
    assert_eq!(detect_language_server(Some("rs")).unwrap().0, "rust-analyzer");
    assert_eq!(detect_language_server(Some("tsx")).unwrap().1, vec!["--stdio"]);
    assert!(detect_language_server(Some("md")).is_none());
    assert!(detect_language_server(None).is_none());
    assert_eq!(ext_to_language_id("jsx"), "javascriptreact");
    assert_eq!(ext_to_language_id("c"), "plaintext");
    assert_eq!(uri_to_path("file:///a/b.rs"), "/a/b.rs");
    assert_eq!(uri_to_path("untitled:1"), "untitled:1");
    assert_eq!(path_to_uri("/a/b.rs"), "file:///a/b.rs");
    assert_eq!(symbol_kind_name(12), "Function");
    assert_eq!(symbol_kind_name(26), "TypeParameter");
    assert_eq!(symbol_kind_name(0), "Unknown");
}

#[test]
fn spinner_text() {
    assert_eq!(spinner_message(0, 5), "Thinking...");
    assert_eq!(spinner_message(13, 42), "Computing... (42s)");
    let s = SpinnerState { frame: 0, message: String::new(), active: false, started_at: None, verb_index: 1 };
    assert_eq!(s.elapsed_secs(), 0);
    assert_eq!(s.display_message(), "Processing...");
}

#[test]
fn picker_moves_and_scrolls() {
    let items: Vec<PickerItem> = (0..12)
        .map(|i| PickerItem { label: format!("{}", i), description: String::new(), value: String::new() })
        .collect();
    let mut p = PickerState::new("t".to_string(), items, PickerSource::Model);
    assert_eq!(p.visible_count, 10);
    for _ in 0..11 {
        p.move_down();
    }
    assert_eq!(p.selected, 11);
    assert_eq!(p.scroll_offset, 2);
    p.move_down();
    assert_eq!(p.selected, 11);
    for _ in 0..11 {
        p.move_up();
    }
    assert_eq!(p.selected, 0);
    assert_eq!(p.scroll_offset, 0);
    assert_eq!(p.selected_item().unwrap().label, "0");
}

#[test]
fn small_display_helpers() {
    assert_eq!(truncate_str("héllo wörld", 8), "héllo...");
    assert_eq!(truncate_str("short", 8), "short");
    assert_eq!(get_effort_label(None), "medium");
    assert_eq!(get_effort_label(Some(1024)), "low");
    assert_eq!(get_effort_label(Some(4097)), "high");
    assert_eq!(get_effort_label(Some(20000)), "max");
}
