use venus::prompt_view::{tokenize_input, wrap_text_to_width, Tk};

fn kinds(buf: &str) -> Vec<(Tk, usize, usize)> {
    tokenize_input(buf).into_iter().map(|t| (t.kind, t.start, t.end)).collect()
}

#[test]
fn tokenize_file_ref_and_slash_command() {
    let toks = kinds("@src/lib.rs fix this /clear");
    assert_eq!(
        toks,
        vec![
            (Tk::File, 0, 11),   // @src/lib.rs
            (Tk::Text, 11, 21),  // " fix this "
            (Tk::Slash, 21, 27), // /clear
        ]
    );
}

#[test]
fn slash_inside_path_is_not_a_command() {
    let toks = kinds("see a/b/c");
    assert!(toks.iter().all(|(k, _, _)| *k != Tk::Slash));
    assert_eq!(toks.len(), 1);
    assert_eq!(toks[0].0, Tk::Text);
}

#[test]
fn slash_at_start_is_a_command() {
    let toks = kinds("/skills");
    assert_eq!(toks, vec![(Tk::Slash, 0, 7)]);
}

#[test]
fn multiple_file_refs() {
    let toks = kinds("@a @b");
    assert_eq!(toks.len(), 3);
    assert_eq!(toks[0], (Tk::File, 0, 2));
    assert_eq!(toks[1], (Tk::Text, 2, 3));
    assert_eq!(toks[2], (Tk::File, 3, 5));
}

#[test]
fn multibyte_path_keeps_char_boundaries() {
    let toks = kinds("@中文.rs done");
    assert_eq!(toks[0], (Tk::File, 0, "@中文.rs".len()));
    assert_eq!(toks[1].0, Tk::Text);
}

#[test]
fn wrap_splits_long_line_at_display_width() {
    let out = wrap_text_to_width("abcdefgh", 5);
    assert_eq!(out, vec!["abcde".to_string(), "fgh".to_string()]);
}

#[test]
fn wrap_respects_newlines_as_paragraph_breaks() {
    let out = wrap_text_to_width("ab\ncd", 10);
    assert_eq!(out, vec!["ab".to_string(), "cd".to_string()]);
}

#[test]
fn wrap_empty_returns_single_empty_line() {
    let out = wrap_text_to_width("", 10);
    assert_eq!(out, vec!["".to_string()]);
}

#[test]
fn wrap_zero_width_falls_back_to_single_line() {
    let out = wrap_text_to_width("abc", 0);
    assert_eq!(out, vec!["abc".to_string()]);
}

#[test]
fn wrap_accounts_for_wide_cjk_glyphs() {
    let out = wrap_text_to_width("一二三四五", 5);
    assert_eq!(out, vec!["一二".to_string(), "三四".to_string(), "五".to_string()]);
}

#[test]
fn tokenize_empty_and_blank_lines() {
    assert!(kinds("").is_empty());
    assert_eq!(kinds("a\n/b"), vec![(Tk::Text, 0, 2), (Tk::Slash, 2, 4)]);
    assert_eq!(wrap_text_to_width("a\n\nb", 3), vec!["a".to_string(), "".to_string(), "b".to_string()]);
}
