use venus::input_state::InputState;
use venus::fuzzy::fuzzy_match;

fn state_with(buf: &str) -> InputState {
    let mut s = InputState::new();
    s.buffer = buf.to_string();
    s.cursor_pos = s.buffer.len();
    s
}

#[test]
fn complete_slash_matches_prefix_and_describes() {
    let mut s = state_with("/c");
    s.complete_slash();
    // All top-level matches start with the typed prefix.
    assert!(s.completion_items.iter().all(|i| i.label.starts_with("/c")));
    // The curated description is wired up.
    let compact = s.completion_items.iter().find(|i| i.label == "/compact");
    assert_eq!(compact.unwrap().description, "Compact context");
    // The typed prefix (`/c`, 2 chars) is flagged as matched per char.
    assert!(s.completion_items.iter().all(|i| {
        i.matched.len() >= 2 && i.matched[0] && i.matched[1] && !i.matched[2..].contains(&true)
    }));
    // Popup is capped for display and never exceeds 8 rows.
    assert!(s.completion_items.len() <= 8);
}

#[test]
fn move_completion_wraps() {
    let mut s = state_with("/e");
    s.complete_slash();
    let n = s.completion_items.len();
    assert!(n >= 2, "need >=2 matches to wrap");
    // Down from the last item wraps to the first.
    s.completion_index = n - 1;
    s.move_completion(1);
    assert_eq!(s.completion_index, 0);
    // Up from the first wraps to the last.
    s.move_completion(-1);
    assert_eq!(s.completion_index, n - 1);
}

#[test]
fn accept_completion_fills_selected_item() {
    let mut s = state_with("/comp");
    s.complete_slash();
    // Walk to the second match and accept it.
    s.move_completion(1);
    let accepted = s.completion_items[s.completion_index].accept.clone();
    s.accept_completion();
    assert_eq!(s.buffer, accepted);
    assert!(s.completion_items.is_empty(), "popup closes on accept");
}

#[test]
fn empty_completion_is_noop() {
    let mut s = state_with("zzz");
    s.complete_slash();
    assert!(s.completion_items.is_empty());
    s.move_completion(1); // must not panic with empty list
}

#[test]
fn fuzzy_match_subsequence_and_hit_offsets() {
    // "lib" is a scattered subsequence of "src_lib.rs" -> hits at 4,5,6.
    let fm = fuzzy_match("lib", "src_lib.rs").expect("lib matches src_lib.rs");
    assert_eq!(fm.hits, vec![4, 5, 6]);
    // (max_run 3, runs 1, start 4)
    assert!(fm.score.max_run >= 3);
}

#[test]
fn fuzzy_match_non_match_returns_none() {
    assert!(fuzzy_match("xy", "src_lib.rs").is_none());
}

#[test]
fn fuzzy_match_smart_case_lowercase_query_matches_uppercase() {
    // All-lowercase query is case-insensitive.
    assert!(fuzzy_match("readme", "README.md").is_some());
    // An uppercase query char forces case sensitivity.
    assert!(fuzzy_match("README", "README.md").is_some());
    assert!(fuzzy_match("ReAdMe", "readme").is_none());
}

#[test]
fn fuzzy_match_empty_query_matches_all() {
    let fm = fuzzy_match("", "anything").expect("empty query matches");
    assert!(fm.hits.is_empty());
    assert!(fm.score.prefix);
}

#[test]
fn fuzzy_score_prefix_beats_infix() {
    let prefix = fuzzy_match("lib", "lib.rs").unwrap().score;
    let infix = fuzzy_match("lib", "xlib.rs").unwrap().score;
    // Prefix match should sort after (be greater than) an infix match.
    assert!(prefix > infix);
    assert!(prefix.prefix);
    assert!(!infix.prefix);
}

#[test]
fn fuzzy_score_longer_run_beats_shorter() {
    // "ab" in "abcd" is one run of length 2 (prefix).
    let long = fuzzy_match("ab", "abcd").unwrap().score;
    // "ab" in "axb" is two 1-runs.
    let short = fuzzy_match("ab", "axb").unwrap().score;
    assert!(long > short);
    assert!(long.max_run > short.max_run);
}

// ---- editing ----

#[test]
fn insert_then_backspace_restores_buffer() {
    let mut s = state_with("héllo");
    s.move_cursor_left();
    s.move_cursor_left();
    let before = s.buffer.clone();
    let pos = s.cursor_pos;
    s.insert_char('ü');
    assert_eq!(s.buffer, "hélülo");
    s.backspace();
    assert_eq!(s.buffer, before);
    assert_eq!(s.cursor_pos, pos);
}

#[test]
fn cursor_moves_by_characters() {
    let mut s = state_with("añb");
    s.move_cursor_home();
    assert_eq!(s.cursor_pos, 0);
    s.move_cursor_right();
    assert_eq!(s.cursor_pos, 1);
    s.move_cursor_right();
    assert_eq!(s.cursor_pos, 3);
    s.move_cursor_left();
    assert_eq!(s.cursor_pos, 1);
    s.move_cursor_end();
    assert_eq!(s.cursor_pos, 4);
    s.move_cursor_right();
    assert_eq!(s.cursor_pos, 4);
}

#[test]
fn delete_word_and_line_parts() {
    let mut s = state_with("git commit  ");
    s.delete_word_backward();
    assert_eq!(s.buffer, "git ");
    assert_eq!(s.cursor_pos, 4);
    let mut t = state_with("hello world");
    t.move_cursor_left();
    t.move_cursor_left();
    t.delete_to_end();
    assert_eq!(t.buffer, "hello wor");
    t.delete_to_start();
    assert_eq!(t.buffer, "");
    assert_eq!(t.cursor_pos, 0);
    let mut u = state_with("abc");
    u.move_cursor_home();
    u.delete();
    assert_eq!(u.buffer, "bc");
}

#[test]
fn take_buffer_keeps_history_of_non_blank_input() {
    let mut s = state_with("first");
    assert_eq!(s.take_buffer(), "first");
    s.buffer = "   ".to_string();
    s.cursor_pos = 3;
    assert_eq!(s.take_buffer(), "   ");
    assert_eq!(s.history, vec!["first".to_string()]);
    s.buffer = "draft".to_string();
    s.cursor_pos = 5;
    s.history_up();
    assert_eq!(s.buffer, "first");
    assert_eq!(s.history_index, Some(0));
    s.history_down();
    assert_eq!(s.buffer, "draft");
    assert_eq!(s.history_index, None);
}

#[test]
fn slash_ghost_text_previews_first_match() {
    let mut s = state_with("/hel");
    s.complete_slash();
    assert_eq!(s.completion_items[0].label, "/help");
    assert_eq!(s.ghost_text.as_deref(), Some("p"));
    assert_eq!(s.completion_index, 0);
}

#[test]
fn file_completion_ranks_and_previews() {
    let mut s = state_with("open @src/li");
    let q = s.file_completion_query();
    assert_eq!(q, Some(("src".to_string(), "li".to_string())));
    let entries = vec![
        ("lib.rs".to_string(), false),
        ("main.rs".to_string(), false),
        ("a_lib".to_string(), true),
        ("list".to_string(), true),
    ];
    s.update_completions(&entries);
    assert!(s.file_completion_active);
    let labels: Vec<&str> = s.completion_items.iter().map(|i| i.label.as_str()).collect();
    // Prefix matches first; among them the shorter label.
    assert_eq!(labels, vec!["src/list", "src/lib.rs", "src/a_lib"]);
    assert_eq!(s.completion_items[0].accept, "open @src/list");
    assert_eq!(s.completion_items[0].description, "directory");
    assert_eq!(s.completion_items[1].description, "file");
    assert_eq!(
        s.completion_items[0].matched,
        vec![false, false, false, false, true, true, false, false]
    );
    assert_eq!(s.ghost_text.as_deref(), Some("st"));
}

#[test]
fn file_completion_keeps_eight_best() {
    let mut s = state_with("@x");
    let entries: Vec<(String, bool)> = (0..12).map(|i| (format!("x{}", i), false)).collect();
    s.update_completions(&entries);
    assert_eq!(s.completion_items.len(), 8);
    // Equal prefix runs: shorter labels first, then alphabetical.
    assert_eq!(s.completion_items[0].label, "x0");
    assert_eq!(s.completion_items[7].label, "x7");
}

#[test]
fn update_completions_clears_on_newline_and_whitespace() {
    let mut s = state_with("/he\nx");
    s.update_completions(&Vec::new());
    assert!(s.completion_items.is_empty());
    let mut t = state_with("see @foo bar");
    assert!(t.file_completion_query().is_none());
    t.update_completions(&Vec::new());
    assert!(t.completion_items.is_empty());
    assert!(!t.file_completion_active);
}

#[test]
fn walk_entry_filter() {
    assert!(venus::completion::entry_is_listed("src", true, false));
    assert!(!venus::completion::entry_is_listed(".git", true, true));
    assert!(!venus::completion::entry_is_listed(".hidden", false, false));
    assert!(venus::completion::entry_is_listed(".hidden", false, true));
    assert!(!venus::completion::entry_is_listed("target", true, false));
    assert!(venus::completion::entry_is_listed("target", false, false));
    assert!(!venus::completion::entry_is_listed(".DS_Store", false, true));
    assert_eq!(venus::completion::child_path("", "a"), "a");
    assert_eq!(venus::completion::child_path("a/b", "c"), "a/b/c");
}

#[test]
fn slash_description_table() {
    assert_eq!(venus::slash::slash_description("/quit"), "Quit Venus");
    assert_eq!(venus::slash::slash_description("/nope"), "");
}
